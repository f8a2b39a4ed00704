use stock_mm::config::GridLevel;
use stock_mm::exchange::session::parse_dec;
use stock_mm::strategy::quote::{
    deviation, exit_px_maker, grid_targets, mark_cancel_all, prevent_self_cross, price_gap,
    read_gaps, reconcile, reconcile_by, DesiredSlot,
};
use stock_mm::strategy::state::CoreState;
use stock_mm::types::action::Action;
use stock_mm::types::book::TopOfBook;
use stock_mm::types::decimal::Decimal;
use stock_mm::types::ids::{Purpose, Side, SlotKey, StrategyId, SymbolId, VenueId};
use stock_mm::types::instrument::{ContractKind, Instrument, InstrumentStatus};
use stock_mm::types::num::{Px, Qty};
use stock_mm::types::order::{DesiredOrder, OrderType, SlotStateKind, TimeInForce};
use stock_mm::types::time::Ts;

fn dec(s: &str) -> Decimal {
    parse_dec(s).unwrap()
}

fn inst() -> Instrument {
    Instrument {
        venue: VenueId::Gate,
        symbol: SymbolId::new("AAPLUSDT"),
        native_symbol: "AAPL_USDT".to_string(),
        tick_size: dec("0.01"),
        lot_size: dec("0.01"),
        contract_size: dec("1"),
        min_qty: dec("0.01"),
        min_notional: dec("5"),
        quote_ccy: "USDT".to_string(),
        maker_fee: dec("0.0002"),
        taker_fee: dec("0.0005"),
        kind: ContractKind::Stock,
        status: InstrumentStatus::Trading,
        volume_24h: dec("0"),
    }
}

#[test]
fn grid_around_fair() {
    let levels = vec![
        GridLevel {
            distance: dec("0.001"),
            size: dec("100"),
        },
        GridLevel {
            distance: dec("0.002"),
            size: dec("200"),
        },
    ];
    let g = grid_targets(Px::new(dec("100")), &levels, &inst(), true, true, &None).unwrap();
    assert_eq!(g.len(), 4);
    let buys: Vec<_> = g.iter().filter(|d| d.key.side == Side::Buy).collect();
    assert_eq!(buys[0].order.px.0, dec("99.90"));
    assert_eq!(buys[1].order.px.0, dec("99.80"));
    let sells: Vec<_> = g.iter().filter(|d| d.key.side == Side::Sell).collect();
    assert_eq!(sells[0].order.px.0, dec("100.10"));
    assert_eq!(sells[1].order.px.0, dec("100.20"));
}

fn order(px: &str, reduce_only: bool) -> DesiredOrder {
    DesiredOrder {
        px: Px::new(dec(px)),
        qty: Qty::new(dec("1")),
        reduce_only,
        tif: TimeInForce::PostOnly,
        order_type: OrderType::Limit,
    }
}

#[test]
fn self_cross_drops_grid() {
    let mut desired = vec![
        DesiredSlot {
            key: SlotKey::exit(Side::Sell, 0),
            order: order("100", true),
        },
        DesiredSlot {
            key: SlotKey::grid(Side::Buy, 0),
            order: order("100.10", false),
        },
    ];
    prevent_self_cross(&mut desired);
    assert_eq!(desired.len(), 1);
    assert_eq!(desired[0].key.purpose, Purpose::Exit);
}

#[test]
fn orders_that_do_not_cross_stay() {
    let mut desired = vec![
        DesiredSlot {
            key: SlotKey::grid(Side::Sell, 0),
            order: order("100.10", false),
        },
        DesiredSlot {
            key: SlotKey::grid(Side::Buy, 0),
            order: order("99.90", false),
        },
    ];
    prevent_self_cross(&mut desired);
    assert_eq!(desired.len(), 2);
}

fn settle(state: &mut CoreState, desired: &Vec<DesiredSlot>, now: Ts) -> Vec<Action> {
    let mut out = Vec::new();
    reconcile(
        state,
        &StrategyId::new("s1"),
        VenueId::Gate,
        &SymbolId::new("AAPLUSDT"),
        desired,
        dec("0.0005"),
        Some(Px::new(dec("100"))),
        true,
        now,
        &mut out,
    )
    .unwrap();
    out
}

#[test]
fn orders_are_brought_about_once_and_swept() {
    let mut st = CoreState::new(120_000, 100, dec("1"));
    let now = Ts::from_millis(1_000);
    let desired = vec![DesiredSlot {
        key: SlotKey::grid(Side::Buy, 0),
        order: order("99.90", false),
    }];
    let out = settle(&mut st, &desired, now);
    assert!(matches!(&out[..], [Action::Place(p)] if p.coid.as_str() == "s1-grid-buy-0-1"
        || p.coid.as_str() == "s1-grid-buy-0-0"));
    assert!(settle(&mut st, &desired, now).is_empty());
    st.slot(SlotKey::grid(Side::Buy, 0)).state = SlotStateKind::Live;
    let out = settle(&mut st, &Vec::new(), now);
    assert!(matches!(&out[..], [Action::Cancel { .. }]));
    mark_cancel_all(&mut st, now);
    assert!(settle(&mut st, &Vec::new(), now).is_empty());
}

#[test]
fn deviations_and_exit_prices() {
    let d = deviation(Px::new(dec("101")), Px::new(dec("100")), Px::new(dec("100"))).unwrap();
    assert!((f64::from_bits(d) - 0.01).abs() < 1e-12);
    let up = exit_px_maker(Px::new(dec("100")), Side::Buy, dec("0.001"), dec("0.01")).unwrap();
    assert_eq!(up.0, dec("100.10"));
    let down = exit_px_maker(Px::new(dec("100")), Side::Sell, dec("0.001"), dec("0.01")).unwrap();
    assert_eq!(down.0, dec("99.90"));
}

fn slot(key: SlotKey, px: &str) -> DesiredSlot {
    DesiredSlot {
        key,
        order: order(px, false),
    }
}

fn keys(d: &[DesiredSlot]) -> Vec<SlotKey> {
    d.iter().map(|s| s.key).collect()
}

#[test]
fn distances_as_fractions_and_as_doubles() {
    let fair = Px::new(dec("100"));
    let gap = price_gap(Px::new(dec("99")), Px::new(dec("101")), fair);
    assert_eq!(gap, Some(dec("0.02")));
    let far = deviation(Px::new(dec("400")), Px::new(dec("100")), fair).unwrap();
    assert_eq!(f64::from_bits(far), 3.0);
    let none = deviation(Px::new(dec("1")), Px::new(dec("1")), Px::new(dec("0"))).unwrap();
    assert_eq!(f64::from_bits(none), f64::MAX);
}

#[test]
fn a_working_order_moves_where_it_lies_too_far_off() {
    let key = SlotKey::grid(Side::Buy, 0);
    let now = Ts::from_millis(1_000);
    let working = || {
        let mut st = CoreState::new(120_000, 100, dec("1"));
        settle(&mut st, &vec![slot(key, "99.90")], now);
        st.slot(key).state = SlotStateKind::Live;
        st
    };
    let desired = vec![slot(key, "99.80"), slot(SlotKey::grid(Side::Sell, 0), "100.2")];
    let fair = Some(Px::new(dec("100")));
    let gaps = read_gaps(&working(), &desired, fair);
    assert_eq!(gaps.len(), 2);
    assert!((f64::from_bits(gaps[0].unwrap()) - 0.001).abs() < 1e-12);
    assert_eq!(gaps[1], None);
    let ask = |gap: f64| {
        let mut state = working();
        let mut out = Vec::new();
        reconcile_by(
            &mut state,
            &StrategyId::new("s1"),
            VenueId::Gate,
            &SymbolId::new("AAPLUSDT"),
            &desired,
            0.5f64.to_bits(),
            fair,
            true,
            now,
            &vec![Some(gap.to_bits()), None],
            &mut out,
        )
        .unwrap();
        out
    };
    assert!(matches!(&ask(0.5)[..], [Action::Place(_)]));
    assert!(matches!(&ask(0.75)[..], [Action::Amend { .. }, Action::Place(_)]));
}

#[test]
fn only_orders_of_the_grid_give_way_to_exits() {
    let exit_sell = slot(SlotKey::exit(Side::Sell, 0), "99");
    let exit_buy = slot(SlotKey::exit(Side::Buy, 1), "98");
    let high = slot(SlotKey::grid(Side::Buy, 0), "99.5");
    let low = slot(SlotKey::grid(Side::Buy, 1), "97");
    let ask = slot(SlotKey::grid(Side::Sell, 0), "98");
    let mut d = vec![exit_sell, high, exit_buy, ask, low];
    prevent_self_cross(&mut d);
    assert_eq!(keys(&d), vec![exit_sell.key, exit_buy.key, low.key]);
    let before = keys(&d);
    prevent_self_cross(&mut d);
    assert_eq!(keys(&d), before);
}

#[test]
fn exits_that_cross_lose_the_buy() {
    let sell = slot(SlotKey::exit(Side::Sell, 0), "99");
    let buy = slot(SlotKey::exit(Side::Buy, 1), "99");
    let mut d = vec![buy, sell];
    prevent_self_cross(&mut d);
    assert_eq!(keys(&d), vec![sell.key]);
}

#[test]
fn grid_orders_keep_off_the_other_side() {
    let levels = vec![GridLevel {
        distance: dec("0.0001"),
        size: dec("100"),
    }];
    let at = |bid: &str, ask: &str| {
        let book = TopOfBook {
            venue: VenueId::Gate,
            symbol: SymbolId::new("AAPLUSDT"),
            bid_px: Px::new(dec(bid)),
            bid_qty: Qty::new(dec("1")),
            ask_px: Px::new(dec(ask)),
            ask_qty: Qty::new(dec("1")),
            exchange_ts: Ts::from_millis(0),
            recv_ts: Ts::from_millis(0),
        };
        grid_targets(Px::new(dec("100")), &levels, &inst(), true, true, &Some(book)).unwrap()
    };
    let far = at("99", "101");
    assert_eq!(far[0].order.px.0, dec("99.99"));
    assert_eq!(far[1].order.px.0, dec("100.01"));
    let low = at("99.85", "99.905");
    assert_eq!(low[0].order.px.0, dec("99.89"));
    let high = at("100.195", "100.3");
    assert_eq!(high[1].order.px.0, dec("100.21"));
    assert_ne!(high[0].key, high[1].key);
    for d in [&far[0], &low[0], &high[1]] {
        assert_eq!(d.key.purpose, Purpose::GridEntry);
        assert!(matches!(d.order.tif, TimeInForce::PostOnly));
        assert!(!d.order.reduce_only && d.order.qty.is_positive());
    }
}
