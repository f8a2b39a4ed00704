use stock_mm::config::StrategyConfig;
use stock_mm::exchange::session::parse_dec;
use stock_mm::strategy::machine::{
    apply_fill_to_lots, seed_live_slot, SpreadFigures, SpreadMath, StrategyCore, StrategyCoreApi,
};
use stock_mm::strategy::state::CoreState;
use stock_mm::types::action::Action;
use stock_mm::types::book::{BookUpdate, TopOfBook};
use stock_mm::types::decimal::Decimal;
use stock_mm::types::event::{ControlCmd, Event};
use stock_mm::types::ids::{
    ClientOrderId, LinkKind, LotId, Side, SlotKey, StrategyMode, SymbolId, VenueId,
};
use stock_mm::types::instrument::{ContractKind, Instrument, InstrumentStatus};
use stock_mm::types::num::{Px, Qty};
use stock_mm::types::order::{
    ExecKind, ExecReport, LiveOrder, OrderType, ReqResult, SlotStateKind,
};
use stock_mm::types::position::{ExitPhase, Lot, PositionSnapshot};
use stock_mm::types::time::Ts;

fn dec(s: &str) -> Decimal {
    parse_dec(s).unwrap()
}

struct Doubles;

fn middle(v: &[f64]) -> Option<f64> {
    let n = v.len();
    if n == 0 {
        None
    } else if n % 2 == 1 {
        Some(v[n / 2])
    } else {
        Some((v[n / 2 - 1] + v[n / 2]) / 2.0)
    }
}

fn to_double(d: Decimal) -> f64 {
    d.mantissa as f64 / 10f64.powi(d.scale as i32)
}

impl SpreadMath for Doubles {
    fn figures(&self, state: &CoreState, sampled: bool, k: Decimal) -> SpreadFigures {
        let sorted: Vec<f64> = state
            .window
            .ordered()
            .iter()
            .map(|b| f64::from_bits(*b))
            .collect();
        let (natural, vol) = if sampled {
            let med = middle(&sorted);
            let mad = med.and_then(|m| {
                let mut devs: Vec<f64> = sorted.iter().map(|x| (x - m).abs()).collect();
                devs.sort_by(|a, b| a.partial_cmp(b).unwrap());
                middle(&devs)
            });
            (med, mad)
        } else {
            (
                state.last_natural.map(f64::from_bits),
                state.last_vol.map(f64::from_bits),
            )
        };
        let nat = natural.unwrap_or(0.0);
        let scale = rust_decimal::Decimal::from_f64_retain(1.0 + nat)
            .map(|d| Decimal {
                mantissa: d.mantissa(),
                scale: d.scale(),
            })
            .unwrap_or(Decimal::one());
        let spread = f64::from_bits(state.last_spread.unwrap_or(0));
        SpreadFigures {
            natural: natural.map(f64::to_bits),
            vol: vol.map(f64::to_bits),
            scale,
            gap: (spread - nat).abs().to_bits(),
            band: (to_double(k) * vol.unwrap_or(0.0)).to_bits(),
        }
    }
}

fn inst() -> Instrument {
    Instrument {
        venue: VenueId::Gate,
        symbol: SymbolId::new("AAPLUSDT"),
        native_symbol: "AAPL_USDT".to_string(),
        tick_size: dec("0.01"),
        lot_size: dec("0.01"),
        contract_size: dec("1"),
        min_qty: dec("0.01"),
        min_notional: dec("5"),
        quote_ccy: "USDT".to_string(),
        maker_fee: dec("0.0002"),
        taker_fee: dec("0.0005"),
        kind: ContractKind::Stock,
        status: InstrumentStatus::Trading,
        volume_24h: dec("0"),
    }
}

fn book(venue: VenueId, px: &str, ts: Ts) -> BookUpdate {
    BookUpdate {
        book: TopOfBook {
            venue,
            symbol: SymbolId::new("AAPLUSDT"),
            bid_px: Px::new(dec(px)),
            bid_qty: Qty::new(dec("10")),
            ask_px: Px::new(dec(px)).plus(Px::new(dec("0.02"))).unwrap(),
            ask_qty: Qty::new(dec("10")),
            exchange_ts: ts,
            recv_ts: ts,
        },
        seq: None,
    }
}

fn tell(core: &mut StrategyCore, ts: Ts, ev: Event, out: &mut Vec<Action>) {
    core.on_event(ts, &ev, &Doubles, out).unwrap();
}

fn drive_warmup(core: &mut StrategyCore, t0: Ts) -> Vec<Action> {
    let mut out = Vec::new();
    tell(core, t0, Event::Control(ControlCmd::Start), &mut out);
    core.set_md_link(true, true);
    core.set_md_link(false, true);
    core.state.links.private = true;
    core.state.links.trading = true;
    out.clear();
    for i in 0..40 {
        let ts = t0.saturating_add_millis(i * 100);
        tell(
            core,
            ts,
            Event::RefBook(book(VenueId::Binance, "100", ts)),
            &mut out,
        );
        out.clear();
        tell(
            core,
            ts,
            Event::MakerBook(book(VenueId::Gate, "100.10", ts)),
            &mut out,
        );
    }
    out
}

fn warm() -> (StrategyCore, Ts) {
    let mut core = StrategyCore::new(StrategyConfig::default(), inst());
    let t0 = Ts::from_millis(1_000_000);
    let _ = drive_warmup(&mut core, t0);
    (core, t0)
}

fn live_slots(core: &StrategyCore) -> Vec<(SlotKey, LiveOrder)> {
    core.state
        .slots
        .entries
        .iter()
        .filter_map(|e| e.slot.live.as_ref().map(|l| (e.key, l.clone())))
        .collect()
}

fn report(coid: &ClientOrderId, kind: ExecKind, side: Side, ts: Ts) -> ExecReport {
    ExecReport {
        coid: coid.clone(),
        exchange_id: Some("1".to_string()),
        venue: VenueId::Gate,
        symbol: SymbolId::new("AAPLUSDT"),
        kind,
        side,
        px: None,
        qty: None,
        filled_qty: Qty::default(),
        last_px: None,
        last_qty: None,
        reason: None,
        ts,
    }
}

fn ack(core: &mut StrategyCore, coid: &ClientOrderId, ts: Ts, side: Side, px: Px, qty: Qty) {
    let mut out = Vec::new();
    let rep = ExecReport {
        px: Some(px),
        qty: Some(qty),
        ..report(coid, ExecKind::Ack, side, ts)
    };
    tell(core, ts, Event::Exec(rep), &mut out);
}

#[test]
fn warmup_then_grid_places() {
    let (core, _) = warm();
    assert_eq!(core.state.lifecycle, StrategyMode::Running);
    assert!(core.state.last_fair.is_some());
    let live = live_slots(&core).len();
    assert!(live >= 4, "expected grid slots, got {}", live);
}

#[test]
fn requote_holds_inside_threshold() {
    let (mut core, t0) = warm();
    let ts = t0.saturating_add_millis(5_000);
    for (_, live) in live_slots(&core) {
        let mut out = Vec::new();
        tell(
            &mut core,
            ts,
            Event::Exec(report(&live.coid, ExecKind::Ack, Side::Buy, ts)),
            &mut out,
        );
    }
    let mut out = Vec::new();
    let ts2 = ts.saturating_add_millis(100);
    tell(
        &mut core,
        ts2,
        Event::RefBook(book(VenueId::Binance, "100.02", ts2)),
        &mut out,
    );
    let amends = out
        .iter()
        .filter(|a| matches!(a, Action::Amend { .. } | Action::Cancel { .. }))
        .count();
    assert_eq!(amends, 0, "tiny move should hold queue {out:?}");
}

#[test]
fn fill_opens_lot_and_exit() {
    let (mut core, t0) = warm();
    let (_, live) = live_slots(&core)
        .into_iter()
        .find(|(k, _)| k.side == Side::Buy)
        .expect("buy slot");
    let ts = t0.saturating_add_millis(8_000);
    let mut out = Vec::new();
    let rep = ExecReport {
        exchange_id: Some("9".to_string()),
        px: Some(live.px),
        qty: Some(live.qty),
        filled_qty: live.qty,
        last_px: Some(live.px),
        last_qty: Some(live.qty),
        ..report(&live.coid, ExecKind::Fill, Side::Buy, ts)
    };
    tell(&mut core, ts, Event::Exec(rep), &mut out);
    assert_eq!(core.state.lots.len(), 1);
    assert!(
        out.iter().any(|a| matches!(
            a,
            Action::Place(p) if p.reduce_only && p.side == Side::Sell
        )),
        "expected maker tp exit {out:?}"
    );
}

#[test]
fn max_loss_goes_taker() {
    let mut cfg = StrategyConfig::default();
    cfg.exit.max_loss = dec("0.001");
    let mut core = StrategyCore::new(cfg, inst());
    let t0 = Ts::from_millis(1_000_000);
    let _ = drive_warmup(&mut core, t0);
    core.state.lots.push(Lot {
        id: LotId(1),
        side: Side::Buy,
        qty: Qty::new(dec("1")),
        remaining: Qty::new(dec("1")),
        entry_px: Px::new(dec("100")),
        opened_at: t0,
        phase: ExitPhase::MakerTp,
        fast_deadline: t0.saturating_add_millis(5_000),
        force_deadline: t0.saturating_add_millis(12_000),
    });
    core.state.net_qty = Qty::new(dec("1"));
    let ts = t0.saturating_add_millis(200);
    let mut out = Vec::new();
    tell(
        &mut core,
        ts,
        Event::RefBook(book(VenueId::Binance, "99.70", ts)),
        &mut out,
    );
    assert_eq!(core.state.lots[0].phase, ExitPhase::TakerExit);
    assert!(out.iter().any(|a| matches!(
        a,
        Action::Place(p) if p.reduce_only && p.order_type == OrderType::Market
    )));
}

#[test]
fn jump_emits_cancel_all() {
    let (mut core, t0) = warm();
    let ts = t0.saturating_add_millis(9_000);
    let mut out = Vec::new();
    tell(
        &mut core,
        ts,
        Event::RefBook(book(VenueId::Binance, "101.00", ts)),
        &mut out,
    );
    assert!(
        out.iter().any(|a| matches!(a, Action::CancelAll { .. })),
        "jump should cancel all {out:?}"
    );
}

#[test]
fn rejected_place_backs_off() {
    let (mut core, t0) = warm();
    let (key, live) = live_slots(&core)
        .into_iter()
        .find(|(k, _)| k.side == Side::Sell)
        .expect("sell slot");
    let ts = t0.saturating_add_millis(5_000);
    let mut out = Vec::new();
    tell(
        &mut core,
        ts,
        Event::ReqOutcome {
            coid: live.coid,
            result: ReqResult::Rejected,
            reason: Some("BALANCE_NOT_ENOUGH".to_string()),
        },
        &mut out,
    );
    assert_eq!(core.state.slot(key).state, SlotStateKind::Empty);

    let mut places = 0;
    for i in 1..=8 {
        let t = ts.saturating_add_millis(i * 25);
        let mut out = Vec::new();
        tell(
            &mut core,
            t,
            Event::MakerBook(book(VenueId::Gate, "100.10", t)),
            &mut out,
        );
        places += out
            .iter()
            .filter(|a| matches!(a, Action::Place(p) if p.side == Side::Sell))
            .count();
    }
    assert_eq!(places, 0, "backoff should hold the slot for 250ms");

    let t = ts.saturating_add_millis(400);
    let mut out = Vec::new();
    tell(
        &mut core,
        t,
        Event::MakerBook(book(VenueId::Gate, "100.10", t)),
        &mut out,
    );
    assert!(
        out.iter()
            .any(|a| matches!(a, Action::Place(p) if p.side == Side::Sell)),
        "slot should retry once the backoff expires {out:?}"
    );
}

#[test]
fn rejected_amend_keeps_the_live_order() {
    let (mut core, t0) = warm();
    let (key, live) = live_slots(&core)
        .into_iter()
        .find(|(k, _)| k.side == Side::Buy)
        .expect("buy slot");
    let ts = t0.saturating_add_millis(5_000);
    ack(&mut core, &live.coid, ts, Side::Buy, live.px, live.qty);
    assert_eq!(core.state.slot(key).state, SlotStateKind::Live);

    let ts2 = ts.saturating_add_millis(100);
    let mut out = Vec::new();
    tell(
        &mut core,
        ts2,
        Event::RefBook(book(VenueId::Binance, "100.20", ts2)),
        &mut out,
    );
    let amended = out
        .iter()
        .any(|a| matches!(a, Action::Amend { coid, .. } if coid.as_str() == live.coid.as_str()));
    assert!(amended, "expected amend {out:?}");
    assert_eq!(core.state.slot(key).state, SlotStateKind::PendingAmend);

    let mut out = Vec::new();
    tell(
        &mut core,
        ts2.saturating_add_millis(10),
        Event::ReqOutcome {
            coid: live.coid.clone(),
            result: ReqResult::Rejected,
            reason: Some("ORDER_NOT_FOUND".to_string()),
        },
        &mut out,
    );
    let slot = core.state.slot(key);
    assert_eq!(slot.state, SlotStateKind::Live, "order is still on the venue");
    let still = slot.live.as_ref().expect("live order retained");
    assert_eq!(still.coid.as_str(), live.coid.as_str());
    assert_eq!(still.px, live.px, "optimistic amend price rolled back");
}

#[test]
fn sweep_reports_untracked_own_orders() {
    let (mut core, _) = warm();
    let tracked_one = live_slots(&core)[0].1.coid.clone();
    let orphan = ClientOrderId("demo-grid-sell-0-999".to_string());
    let foreign = ClientOrderId("other-grid-sell-0-1".to_string());
    let out = core.reconcile_open_orders(&vec![tracked_one, orphan.clone(), foreign]);
    let ids: Vec<&str> = out.iter().map(|c| c.as_str()).collect();
    assert_eq!(ids, vec![orphan.as_str()], "only our own untracked orders");
}

#[test]
fn unknown_slot_resolves_from_open_orders() {
    let (mut core, _) = warm();
    let (key, live) = live_slots(&core).remove(0);
    core.state.slot(key).state = SlotStateKind::Unknown;
    core.reconcile_open_orders(&vec![live.coid]);
    assert_eq!(core.state.slot(key).state, SlotStateKind::Live);

    core.state.slot(key).state = SlotStateKind::Unknown;
    core.reconcile_open_orders(&Vec::new());
    assert_eq!(core.state.slot(key).state, SlotStateKind::Empty);
    assert!(core.state.slot(key).live.is_none());
}

#[test]
fn ack_without_price_keeps_known_price() {
    let (mut core, t0) = warm();
    let (key, live) = live_slots(&core).remove(0);
    let ts = t0.saturating_add_millis(5_000);
    ack(&mut core, &live.coid, ts, key.side, Px::default(), Qty::default());
    let slot = core.state.slot(key);
    assert_eq!(slot.state, SlotStateKind::Live);
    assert_eq!(slot.live.as_ref().unwrap().px, live.px);
    assert_eq!(slot.live.as_ref().unwrap().qty, live.qty);
}

#[test]
fn unknown_is_not_resent() {
    let (mut core, t0) = warm();
    let (key, live) = live_slots(&core).remove(0);
    let ts = t0.saturating_add_millis(8_000);
    let mut out = Vec::new();
    tell(
        &mut core,
        ts,
        Event::ReqOutcome {
            coid: live.coid.clone(),
            result: ReqResult::Unknown,
            reason: Some("timeout".to_string()),
        },
        &mut out,
    );
    assert_eq!(core.state.slot(key).state, SlotStateKind::Unknown);
    assert!(!out.iter().any(|a| matches!(
        a,
        Action::Place(p) if p.side == key.side && p.coid.as_str() == live.coid.as_str()
    )));
    let _ = LinkKind::Trading;
}

#[test]
fn grid_stays_within_the_limit_of_its_side() {
    let mut cfg = StrategyConfig::default();
    cfg.risk.max_long = dec("250");
    let mut core = StrategyCore::new(cfg, inst());
    let _ = drive_warmup(&mut core, Ts::from_millis(1_000_000));
    let live = live_slots(&core);
    let on = |side: Side| live.iter().filter(|(k, _)| k.side == side).count();
    assert_eq!(on(Side::Buy), 1);
    assert_eq!(on(Side::Sell), 3);
}

#[test]
fn flattening_takes_no_new_grid_orders() {
    let (mut core, t0) = warm();
    let ts = t0.saturating_add_millis(5_000);
    let mut out = Vec::new();
    tell(&mut core, ts, Event::Control(ControlCmd::Flatten), &mut out);
    assert!(core.state.flatten_requested);
    assert!(!out
        .iter()
        .any(|a| matches!(a, Action::Place(p) if !p.reduce_only)));
    assert_eq!(core.state.lifecycle, StrategyMode::Stopped);
}

#[test]
fn positions_of_the_venue_rebuild_lots() {
    let (mut core, t0) = warm();
    let ts = t0.saturating_add_millis(5_000);
    let mut out = Vec::new();
    tell(
        &mut core,
        ts,
        Event::PositionSync(PositionSnapshot {
            venue: VenueId::Gate,
            symbol: SymbolId::new("AAPLUSDT"),
            net_qty: Qty::new(dec("-2")),
            avg_px: Some(Px::new(dec("100"))),
            ts,
        }),
        &mut out,
    );
    assert_eq!(core.state.net_qty, Qty::new(dec("-2")));
    assert_eq!(core.state.lots.len(), 1);
    assert_eq!(core.state.lots[0].side, Side::Sell);
}

#[test]
fn fills_close_lots_in_order() {
    let t0 = Ts::from_millis(0);
    let lot = |id: u64, qty: &str| Lot {
        id: LotId(id),
        side: Side::Buy,
        qty: Qty::new(dec(qty)),
        remaining: Qty::new(dec(qty)),
        entry_px: Px::new(dec("100")),
        opened_at: t0,
        phase: ExitPhase::MakerTp,
        fast_deadline: t0,
        force_deadline: t0,
    };
    let mut lots = vec![lot(1, "1"), lot(2, "2")];
    apply_fill_to_lots(&mut lots, Side::Sell, Qty::new(dec("1.5"))).unwrap();
    assert_eq!(lots.len(), 1);
    assert_eq!(lots[0].id, LotId(2));
    assert_eq!(lots[0].remaining, Qty::new(dec("1.5")));
    apply_fill_to_lots(&mut lots, Side::Buy, Qty::new(dec("1"))).unwrap();
    assert_eq!(lots[0].remaining, Qty::new(dec("1.5")));
}

#[test]
fn snapshot_shows_the_state() {
    let (mut core, _) = warm();
    let key = SlotKey::grid(Side::Buy, 9);
    seed_live_slot(
        &mut core,
        key,
        LiveOrder {
            coid: ClientOrderId("demo-grid-buy-9-1".to_string()),
            exchange_id: None,
            px: Px::new(dec("99")),
            qty: Qty::new(dec("1")),
            filled_qty: Qty::default(),
            reduce_only: false,
        },
    );
    let s = core.snapshot();
    assert_eq!(s.lifecycle, StrategyMode::Running);
    assert_eq!(s.slots.len(), core.state.slots.entries.len());
    let shown = s.slots.iter().find(|v| v.key == key).unwrap();
    assert_eq!(shown.state, SlotStateKind::Live);
    assert_eq!(shown.px, Some(Px::new(dec("99"))));
    assert_eq!(s.fair_price, core.state.last_fair);
}

#[test]
fn a_jump_asks_for_nothing_but_to_take_all_back() {
    let (mut core, t0) = warm();
    let ts = t0.saturating_add_millis(9_000);
    let mut out = Vec::new();
    let ev = Event::RefBook(book(VenueId::Binance, "101.00", ts));
    tell(&mut core, ts, ev, &mut out);
    let all: Vec<&Action> = out
        .iter()
        .filter(|a| !matches!(a, Action::Emit(_) | Action::SetTimer { .. }))
        .collect();
    assert!(matches!(
        &all[..],
        [Action::CancelAll { venue, symbol }]
            if *venue == core.cfg.market.maker_venue && *symbol == core.cfg.market.maker_symbol
    ));
    assert_eq!(core.state.cooldown_until, Some(ts.saturating_add_millis(800)));
    assert!(!core.state.permission.allow_new_buy && !core.state.permission.allow_new_sell);
    assert!(core
        .state
        .slots
        .entries
        .iter()
        .all(|e| e.slot.live.is_none() || e.slot.state == SlotStateKind::PendingCancel));
}

#[test]
fn a_refused_slot_rests_over_many_events_and_comes_back() {
    let (mut core, t0) = warm();
    let (key, live) = live_slots(&core)
        .into_iter()
        .find(|(k, _)| k.side == Side::Buy)
        .expect("buy slot");
    let ts = t0.saturating_add_millis(5_000);
    let mut out = Vec::new();
    let refused = Event::ReqOutcome {
        coid: live.coid,
        result: ReqResult::Rejected,
        reason: None,
    };
    tell(&mut core, ts, refused, &mut out);
    assert_eq!(core.state.slot(key).state, SlotStateKind::Empty);
    let prefix = format!("{}-{}-", core.cfg.id.as_str(), key.text());
    let placed = |out: &[Action]| {
        out.iter()
            .any(|a| matches!(a, Action::Place(p) if p.coid.as_str().starts_with(&prefix)))
    };
    for ms in [25, 100, 200, 249] {
        let now = ts.saturating_add_millis(ms);
        tell(
            &mut core,
            now,
            Event::RefBook(book(VenueId::Binance, "100", now)),
            &mut out,
        );
        tell(
            &mut core,
            now,
            Event::MakerBook(book(VenueId::Gate, "100.10", now)),
            &mut out,
        );
        assert!(!placed(&out), "{ms}: {out:?}");
    }
    let now = ts.saturating_add_millis(400);
    tell(
        &mut core,
        now,
        Event::RefBook(book(VenueId::Binance, "100", now)),
        &mut out,
    );
    tell(
        &mut core,
        now,
        Event::MakerBook(book(VenueId::Gate, "100.10", now)),
        &mut out,
    );
    assert!(placed(&out), "{out:?}");
}

#[test]
fn a_figure_that_is_no_decimal_moves_the_price_by_nothing() {
    struct Odd;
    impl SpreadMath for Odd {
        fn figures(&self, _state: &CoreState, _sampled: bool, _k: Decimal) -> SpreadFigures {
            SpreadFigures {
                natural: Some(0),
                vol: Some(0),
                scale: Decimal { mantissa: 1, scale: 99 },
                gap: 0,
                band: 0,
            }
        }
    }
    let (mut core, t0) = warm();
    let ts = t0.saturating_add_millis(4_100);
    let mut out = Vec::new();
    let ev = Event::RefBook(book(VenueId::Binance, "100", ts));
    assert!(core.on_event(ts, &ev, &Odd, &mut out).is_some());
    assert_eq!(core.state.last_fair, Some(Px::new(dec("100.01"))));
}
