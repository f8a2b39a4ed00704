use stock_mm::config::StrategyConfig;
use stock_mm::exchange::session::parse_dec;
use stock_mm::strategy::risk::{evaluate, float_loss, link_reason, loss_share, notional, pending_unknown_reason};
use stock_mm::strategy::state::CoreState;
use stock_mm::types::book::{BookUpdate, TopOfBook};
use stock_mm::types::decimal::Decimal;
use stock_mm::types::ids::{RunMode, Side, SymbolId, StrategyMode, VenueId};
use stock_mm::types::instrument::{ContractKind, Instrument, InstrumentStatus};
use stock_mm::types::num::{Px, Qty};
use stock_mm::types::snapshot::{LinkStatus, QuotePermission};
use stock_mm::types::time::Ts;

fn dec(s: &str) -> Decimal {
    parse_dec(s).unwrap()
}

fn inst() -> Instrument {
    Instrument {
        venue: VenueId::Gate,
        symbol: SymbolId::new("AAPLUSDT"),
        native_symbol: "AAPL_USDT".to_string(),
        tick_size: dec("0.01"),
        lot_size: dec("0.01"),
        contract_size: dec("1"),
        min_qty: dec("0.01"),
        min_notional: dec("5"),
        quote_ccy: "USDT".to_string(),
        maker_fee: dec("0.0002"),
        taker_fee: dec("0.0005"),
        kind: ContractKind::Stock,
        status: InstrumentStatus::Trading,
        volume_24h: dec("0"),
    }
}

fn book(px: &str, ts: Ts) -> TopOfBook {
    TopOfBook {
        venue: VenueId::Binance,
        symbol: SymbolId::new("AAPLUSDT"),
        bid_px: Px::new(dec(px)),
        bid_qty: Qty::new(dec("10")),
        ask_px: Px::new(dec(px)).plus(Px::new(dec("0.02"))).unwrap(),
        ask_qty: Qty::new(dec("10")),
        exchange_ts: ts,
        recv_ts: ts,
    }
}

fn judge(cfg: &StrategyConfig, st: &CoreState, now: Ts) -> QuotePermission {
    let spread = f64::from_bits(st.last_spread.unwrap_or(0));
    let nat = f64::from_bits(st.last_natural.unwrap_or(0));
    let vol = f64::from_bits(st.last_vol.unwrap_or(0));
    let gap = (spread - nat).abs();
    let most = match cfg.risk.max_abs_spread_dev {
        Some(d) => d.mantissa as f64 / 10f64.powi(d.scale as i32),
        None => 0.0,
    };
    evaluate(
        cfg,
        st,
        &inst(),
        now,
        gap.to_bits(),
        (6.0 * vol).to_bits(),
        most.to_bits(),
    )
    .unwrap()
}

fn ready(ts: Ts) -> CoreState {
    let mut st = CoreState::new(120_000, 100, dec("1"));
    st.started = true;
    st.lifecycle = StrategyMode::Running;
    st.links = LinkStatus {
        ref_md: true,
        maker_md: true,
        private: true,
        trading: true,
    };
    st.ref_book = Some(book("100", ts));
    st.maker_book = Some(book("100", ts));
    st
}

fn warm(st: &mut CoreState, cfg: &StrategyConfig, ts: Ts) {
    for i in 0..cfg.pricing.min_samples {
        st.window
            .push(ts.saturating_add_millis(i as i64 * 100), 0.0f64.to_bits());
    }
    st.last_spread = Some(0.0f64.to_bits());
    st.last_natural = Some(0.0f64.to_bits());
    st.last_vol = Some(0.0001f64.to_bits());
}

#[test]
fn crossed_book_blocks() {
    let cfg = StrategyConfig::default();
    let ts = Ts::from_millis(1_000);
    let mut st = ready(ts);
    let mut b = book("100", ts);
    b.bid_px = Px::new(dec("101"));
    b.ask_px = Px::new(dec("100"));
    st.ref_book = Some(b.clone());
    let p = judge(&cfg, &st, ts);
    assert!(!p.allow_new_buy);
    assert_eq!(p.reason.as_deref(), Some("ref_crossed"));
    let _ = BookUpdate { book: b, seq: None };
}

#[test]
fn long_cap_blocks_buys() {
    let cfg = StrategyConfig::default();
    let ts = Ts::from_millis(1_000);
    let mut st = ready(ts);
    warm(&mut st, &cfg, ts);
    st.net_qty = Qty::new(cfg.risk.max_long);
    let p = judge(&cfg, &st, ts);
    assert!(!p.allow_new_buy);
    assert!(p.allow_new_sell);
    let _ = Side::Buy;
}

#[test]
fn quotes_need_health() {
    let cfg = StrategyConfig::default();
    let ts = Ts::from_millis(1_000);
    let mut st = ready(ts);
    assert_eq!(judge(&cfg, &st, ts).reason.as_deref(), Some("warmup"));
    warm(&mut st, &cfg, ts);
    let p = judge(&cfg, &st, ts);
    assert!(p.allow_new_buy && p.allow_new_sell);
    st.last_spread = Some(1.0f64.to_bits());
    assert_eq!(
        judge(&cfg, &st, ts).reason.as_deref(),
        Some("spread_regime_break")
    );
    st.links.ref_md = false;
    let p = judge(&cfg, &st, ts);
    assert!(!p.allow_new_buy && !p.allow_new_sell && p.reason.is_some());
    assert!(!pending_unknown_reason(&st));
}

#[test]
fn links_matter_by_mode() {
    let down = LinkStatus::default();
    assert!(link_reason(&down, RunMode::Live).is_some());
    let md_only = LinkStatus {
        ref_md: true,
        maker_md: true,
        private: false,
        trading: false,
    };
    assert!(link_reason(&md_only, RunMode::Observe).is_none());
    assert!(link_reason(&md_only, RunMode::Live).is_some());
}

#[test]
fn losses_and_values() {
    let l = float_loss(Px::new(dec("100")), Px::new(dec("99")), Side::Buy).unwrap();
    assert!((f64::from_bits(l) - 0.01).abs() < 1e-12);
    let g = float_loss(Px::new(dec("100")), Px::new(dec("99")), Side::Sell).unwrap();
    assert!(f64::from_bits(g) < 0.0);
    assert_eq!(
        notional(dec("-2"), dec("10"), dec("0.5")),
        Some(dec("10"))
    );
}

#[test]
fn losses_as_fractions_and_as_doubles() {
    let (entry, fair) = (Px::new(dec("100")), Px::new(dec("99")));
    assert_eq!(loss_share(entry, fair, Side::Buy), Some(dec("0.01")));
    assert_eq!(loss_share(entry, fair, Side::Sell), Some(dec("-0.01")));
    let all = float_loss(Px::new(dec("4")), Px::new(dec("0")), Side::Buy).unwrap();
    assert_eq!(f64::from_bits(all), 1.0);
    let double = float_loss(Px::new(dec("4")), Px::new(dec("12")), Side::Sell).unwrap();
    assert_eq!(f64::from_bits(double), 2.0);
    assert_eq!(float_loss(Px::new(dec("0")), fair, Side::Buy), Some(0));
}
