use stock_mm::config::{
    load_app_config, EnvValues, FileAppConfig, GlobalRiskConfig, StrategyConfig, VenueSecrets,
};
use stock_mm::engine::actor::{Actor, ActorInput, Effect};
use stock_mm::engine::board::{
    dummy_instrument, idle_snapshot, instrument_for, subscribe_md, take_in, universe, HealthBoard,
};
use stock_mm::engine::records::{exec_fill, exec_record, exec_status, placed_record};
use stock_mm::exchange::session::parse_dec;
use stock_mm::exchange::venue::{PrivateMsg, ReqOutcome};
use stock_mm::marketdata::{
    is_named_stock, rank_recommended, Catalog, ListedInstrument, VenueLists, VenueVolumes,
    RECOMMENDED,
};
use stock_mm::risk::GlobalRisk;
use stock_mm::strategy::machine::{SpreadFigures, SpreadMath};
use stock_mm::strategy::state::CoreState;
use stock_mm::types::action::Action;
use stock_mm::types::book::{BookUpdate, TopOfBook};
use stock_mm::types::decimal::Decimal;
use stock_mm::types::event::ControlCmd;
use stock_mm::types::ids::{
    ClientOrderId, LinkKind, RunMode, Side, StrategyId, StrategyMode, SymbolId, VenueId,
};
use stock_mm::types::instrument::{ContractKind, Instrument};
use stock_mm::types::num::{Px, Qty};
use stock_mm::types::order::{
    ExecKind, ExecReport, OrderRecord, OrderType, PlaceReq, ReqResult, TimeInForce,
};
use stock_mm::types::position::PositionSnapshot;
use stock_mm::types::time::Ts;

fn dec(s: &str) -> Decimal {
    parse_dec(s).unwrap()
}

/// A spread that never moves.
struct Flat;

impl SpreadMath for Flat {
    fn figures(&self, _state: &CoreState, _sampled: bool, _k: Decimal) -> SpreadFigures {
        SpreadFigures {
            natural: Some(0),
            vol: Some(0),
            scale: Decimal::one(),
            gap: 0,
            band: 0,
        }
    }
}

fn book(venue: VenueId, symbol: &str, ts: Ts) -> BookUpdate {
    BookUpdate {
        book: TopOfBook {
            venue,
            symbol: SymbolId::new(symbol),
            bid_px: Px::new(dec("100")),
            bid_qty: Qty::new(dec("10")),
            ask_px: Px::new(dec("100.02")),
            ask_qty: Qty::new(dec("10")),
            exchange_ts: ts,
            recv_ts: ts,
        },
        seq: None,
    }
}

fn cfg(mode: RunMode) -> StrategyConfig {
    let mut c = StrategyConfig::default();
    c.mode = mode;
    c
}

fn actor(mode: RunMode, killed: bool) -> Actor {
    let c = cfg(mode);
    let inst = dummy_instrument(c.market.maker_venue, &c.market.maker_symbol);
    Actor::start(
        c,
        inst,
        killed,
        Some(true),
        Some(true),
        Ts::from_millis(1_000_000),
        &Flat,
    )
    .unwrap()
}

/// Drives a strategy until it quotes: everything that was to be done on the way.
fn drive(a: &mut Actor) -> Vec<Effect> {
    let mut all = Vec::new();
    let maker = a.core.cfg.market.maker_symbol.as_str().to_string();
    let reference = a.core.cfg.market.ref_symbol.as_str().to_string();
    for kind in [LinkKind::Private, LinkKind::Trading] {
        let input = ActorInput::Private(PrivateMsg::Link { kind, up: true });
        all.extend(a.on_input(Ts::from_millis(1_000_000), input, &Flat).unwrap());
    }
    for i in 0..60 {
        let t = Ts::from_millis(1_000_000 + i * 100);
        let input = ActorInput::Tick {
            ref_book: Some(book(a.core.cfg.market.ref_venue, &reference, t)),
            maker_book: Some(book(a.core.cfg.market.maker_venue, &maker, t)),
            killed: false,
        };
        all.extend(a.on_input(t, input, &Flat).unwrap());
    }
    all
}

fn trades(fx: &[Effect]) -> usize {
    fx.iter().filter(|e| matches!(e, Effect::Trade(_))).count()
}

#[test]
fn live_strategy_sends_and_records_orders() {
    let mut a = actor(RunMode::Live, false);
    assert!(a.live);
    let fx = drive(&mut a);
    assert!(trades(&fx) > 0);
    let placed = fx
        .iter()
        .filter(|e| matches!(e, Effect::Trade(Action::Place(_))))
        .count();
    let saved = fx
        .iter()
        .filter(|e| matches!(e, Effect::SaveOrder(_)))
        .count();
    assert_eq!(placed, saved);
    assert!(fx.iter().any(|e| matches!(e, Effect::Publish(_))));
}

#[test]
fn observer_sends_nothing() {
    let mut a = actor(RunMode::Observe, false);
    assert!(!a.live);
    let fx = drive(&mut a);
    assert_eq!(a.core.state.lifecycle, StrategyMode::Running);
    assert_eq!(trades(&fx), 0);
    let mut a = actor(RunMode::Live, true);
    assert!(!a.live);
    assert_eq!(trades(&drive(&mut a)), 0);
}

#[test]
fn kill_puts_a_strategy_on_its_way_out() {
    let mut a = actor(RunMode::Live, false);
    drive(&mut a);
    assert!(!a.core.state.flatten_requested);
    a.on_input(
        Ts::from_millis(1_010_000),
        ActorInput::Tick {
            ref_book: None,
            maker_book: None,
            killed: true,
        },
        &Flat,
    )
    .unwrap();
    assert!(a.core.state.flatten_requested);
    assert!(a.is_over());
}

#[test]
fn other_symbols_do_nothing() {
    let mut a = actor(RunMode::Observe, false);
    let t = Ts::from_millis(1_000_001);
    for input in [
        ActorInput::RefBook(book(VenueId::Binance, "OTHERUSDT", t)),
        ActorInput::MakerBook(book(VenueId::Gate, "OTHERUSDT", t)),
        ActorInput::Private(PrivateMsg::Position(PositionSnapshot {
            venue: VenueId::Gate,
            symbol: SymbolId::new("OTHERUSDT"),
            net_qty: Qty::new(dec("5")),
            avg_px: None,
            ts: t,
        })),
    ] {
        assert!(a.on_input(t, input, &Flat).unwrap().is_empty());
    }
    assert!(a.core.state.net_qty.is_zero());
}

#[test]
fn stop_ends_a_strategy_and_takes_orders_back() {
    let mut a = actor(RunMode::Live, false);
    drive(&mut a);
    let fx = a
        .on_input(
            Ts::from_millis(1_010_000),
            ActorInput::Control(ControlCmd::Stop),
            &Flat,
        )
        .unwrap();
    assert!(a.is_over());
    assert!(fx
        .iter()
        .any(|e| matches!(e, Effect::Trade(Action::CancelAll { .. }))));
}

#[test]
fn outcomes_and_positions_reach_the_strategy() {
    let mut a = actor(RunMode::Live, false);
    let fx = drive(&mut a);
    let coid = fx
        .iter()
        .find_map(|e| match e {
            Effect::Trade(Action::Place(p)) => Some(p.coid.clone()),
            _ => None,
        })
        .unwrap();
    let out = a
        .on_input(
            Ts::from_millis(1_010_000),
            ActorInput::Outcome(ReqOutcome {
                coid,
                result: ReqResult::Unknown,
                reason: None,
            }),
            &Flat,
        )
        .unwrap();
    assert!(matches!(out.last(), Some(Effect::Publish(_))));
    assert_eq!(a.core.state.unknown_slots(), 1);
    let symbol = a.core.cfg.market.maker_symbol.clone();
    a.sync_position(
        Ts::from_millis(1_010_001),
        PositionSnapshot {
            venue: VenueId::Gate,
            symbol,
            net_qty: Qty::new(dec("3")),
            avg_px: Some(Px::new(dec("100"))),
            ts: Ts::from_millis(1),
        },
        &Flat,
    )
    .unwrap();
    assert_eq!(a.core.state.net_qty, Qty::new(dec("3")));
}

fn order(coid: &str) -> OrderRecord {
    OrderRecord {
        coid: ClientOrderId(coid.to_string()),
        strategy_id: String::new(),
        venue: VenueId::Gate,
        symbol: SymbolId::new("AAPLUSDT"),
        side: Side::Buy,
        purpose: String::new(),
        px: Px::new(dec("1")),
        qty: Qty::new(dec("1")),
        filled_qty: Qty::default(),
        status: String::new(),
        exchange_id: None,
        reduce_only: false,
        created_at: Ts::from_millis(0),
        updated_at: Ts::from_millis(0),
    }
}

#[test]
fn orders_of_others_are_taken_back_at_the_start() {
    let a = actor(RunMode::Live, false);
    let own = format!("{}-grid-buy-0-1", a.core.cfg.id.as_str());
    let orders = vec![order(&own), order("stranger-grid-buy-0-1")];
    let out = a.stray_cancels(&orders);
    assert!(matches!(
        &out[..],
        [Action::Cancel { coid, .. }] if coid.as_str() == "stranger-grid-buy-0-1"
    ));
    assert!(actor(RunMode::Observe, false).stray_cancels(&orders).is_empty());
}

fn exec(kind: ExecKind, last_qty: Option<&str>) -> ExecReport {
    ExecReport {
        coid: ClientOrderId("s1-grid-buy-0-1".to_string()),
        exchange_id: Some("9".to_string()),
        venue: VenueId::Gate,
        symbol: SymbolId::new("AAPLUSDT"),
        kind,
        side: Side::Buy,
        px: Some(Px::new(dec("10"))),
        qty: None,
        filled_qty: Qty::new(dec("1")),
        last_px: Some(Px::new(dec("10"))),
        last_qty: last_qty.map(|q| Qty::new(dec(q))),
        reason: None,
        ts: Ts::from_millis(7),
    }
}

#[test]
fn records_of_orders_and_fills() {
    let sid = StrategyId::new("s1");
    let req = PlaceReq {
        coid: ClientOrderId("s1-exit-sell-0-1".to_string()),
        venue: VenueId::Gate,
        symbol: SymbolId::new("AAPLUSDT"),
        side: Side::Sell,
        px: Px::new(dec("10")),
        qty: Qty::new(dec("2")),
        tif: TimeInForce::PostOnly,
        reduce_only: true,
        order_type: OrderType::Limit,
    };
    let r = placed_record(&req, &sid, Ts::from_millis(3));
    assert_eq!((r.purpose.as_str(), r.status.as_str()), ("exit", "pending"));
    let r = exec_record(&exec(ExecKind::Fill, Some("1")), &sid).unwrap();
    assert_eq!(r.status, "filled");
    assert!(r.qty.is_zero());
    let f = exec_fill(&exec(ExecKind::Fill, Some("1")), &sid).unwrap();
    assert_eq!((f.id, f.strategy_id.as_str()), (0, "s1"));
    assert!(exec_fill(&exec(ExecKind::Ack, Some("0")), &sid).is_none());
    assert!(exec_fill(&exec(ExecKind::Ack, None), &sid).is_none());
    for (k, s) in [
        (ExecKind::Ack, "live"),
        (ExecKind::AmendAck, "live"),
        (ExecKind::PartialFill, "partial"),
        (ExecKind::Fill, "filled"),
        (ExecKind::Canceled, "canceled"),
        (ExecKind::Expired, "expired"),
        (ExecKind::Reject, "rejected"),
        (ExecKind::AmendReject, "rejected"),
    ] {
        assert_eq!(exec_status(k), s);
    }
}

#[test]
fn fills_are_recorded_before_the_strategy_hears_of_them() {
    let mut a = actor(RunMode::Observe, false);
    let fx = a
        .on_input(
            Ts::from_millis(1_000_001),
            ActorInput::Private(PrivateMsg::Exec(exec(ExecKind::Fill, Some("1")))),
            &Flat,
        )
        .unwrap();
    assert!(matches!(&fx[0], Effect::SaveOrder(_)));
    assert!(matches!(&fx[1], Effect::SaveFill(_)));
    assert!(matches!(fx.last(), Some(Effect::Publish(_))));
}

fn no_secrets() -> VenueSecrets {
    VenueSecrets {
        binance_key: None,
        binance_secret: None,
        gate_key: Some("k".to_string()),
        gate_secret: Some("s".to_string()),
    }
}

#[test]
fn health_of_the_venues() {
    let mut b = HealthBoard::new();
    assert!(b.health_list().is_empty());
    b.set_health(VenueId::Gate, LinkKind::Trading, true, &no_secrets());
    b.set_health(VenueId::Gate, LinkKind::MarketData, true, &no_secrets());
    b.set_health(VenueId::Gate, LinkKind::Trading, false, &no_secrets());
    let h = b.get(VenueId::Gate).unwrap();
    assert!(h.md && !h.trading && !h.private && h.has_keys);
    assert!(b.get(VenueId::Binance).is_none());
    b.set_health(VenueId::Binance, LinkKind::Private, true, &no_secrets());
    assert!(!b.get(VenueId::Binance).unwrap().has_keys);
    assert_eq!(b.health_list().len(), 2);
}

fn ids(v: &[SymbolId]) -> Vec<&str> {
    v.iter().map(|s| s.as_str()).collect()
}

#[test]
fn symbols_to_watch() {
    let rec = vec![SymbolId::new("TSLAUSDT"), SymbolId::new("AAPLUSDT")];
    let used = vec![SymbolId::new("AAPLUSDT"), SymbolId::new("ABUSDT")];
    assert_eq!(
        ids(&universe(&rec, &used)),
        vec!["AAPLUSDT", "ABUSDT", "TSLAUSDT"]
    );
    let usual = universe(&Vec::new(), &Vec::new());
    assert_eq!(usual.len(), 20);
    assert_eq!(usual[0].as_str(), "AAPLUSDT");
    let mut watched = Vec::new();
    let all = subscribe_md(&mut watched, &rec).unwrap();
    assert_eq!(ids(&all), vec!["AAPLUSDT", "TSLAUSDT"]);
    assert!(subscribe_md(&mut watched, &rec).is_none());
    let all = subscribe_md(&mut watched, &used).unwrap();
    assert_eq!(ids(&all), vec!["AAPLUSDT", "ABUSDT", "TSLAUSDT"]);
}

#[test]
fn settings_are_taken_in_or_refused() {
    let c = StrategyConfig::default();
    let (watch, snap) = take_in(&c).unwrap();
    assert_eq!(watch.len(), 2);
    assert_eq!(snap.lifecycle, StrategyMode::Init);
    assert_eq!(snap.permission.reason.as_deref(), Some("idle"));
    assert_eq!(idle_snapshot(&c).warmup_needed, c.pricing.min_samples);
    let mut bad = StrategyConfig::default();
    bad.id = StrategyId::new("");
    assert_eq!(take_in(&bad).unwrap_err(), "strategy id is required");
}

fn listed(venue: VenueId, symbol: &str, kind: ContractKind) -> Instrument {
    let mut i = dummy_instrument(venue, &SymbolId::new(symbol));
    i.kind = kind;
    i
}

fn app_config() -> stock_mm::config::AppConfig {
    let env = EnvValues {
        trading_env: None,
        api_listen: None,
        database_url: None,
        rust_log: None,
        web_dir: None,
        binance_key: None,
        binance_secret: None,
        gate_key: None,
        gate_secret: None,
    };
    let mut app = load_app_config(env, FileAppConfig::default());
    app.recommended_underlyings = vec!["AAPL".to_string(), "ZZZ".to_string()];
    app
}

#[test]
fn recommendation_by_volume_then_by_settings() {
    let app = app_config();
    let lists = VenueLists {
        binance: vec![
            listed(VenueId::Binance, "TSLAUSDT", ContractKind::Stock),
            listed(VenueId::Binance, "AAPLUSDT", ContractKind::Other),
            listed(VenueId::Binance, "BTCUSDT", ContractKind::Crypto),
            listed(VenueId::Binance, "ONLYUSDT", ContractKind::Stock),
        ],
        gate: vec![
            listed(VenueId::Gate, "AAPLUSDT", ContractKind::Stock),
            listed(VenueId::Gate, "BTCUSDT", ContractKind::Crypto),
            listed(VenueId::Gate, "TSLAUSDT", ContractKind::Stock),
        ],
    };
    let volumes = VenueVolumes {
        binance: vec![(SymbolId::new("AAPLUSDT"), dec("5"))],
        gate: vec![
            (SymbolId::new("AAPLUSDT"), dec("6")),
            (SymbolId::new("TSLAUSDT"), dec("10")),
            (SymbolId::new("BTCUSDT"), dec("1000")),
        ],
    };
    let r = rank_recommended(&app, &lists, &volumes).unwrap();
    assert_eq!(ids(&r), vec!["AAPLUSDT", "TSLAUSDT", "ZZZUSDT"]);
    assert!(is_named_stock(&SymbolId::new("AAPLUSDT"), &app));
    assert!(!is_named_stock(&SymbolId::new("AAPLUSDC"), &app));
}

#[test]
fn recommendation_without_shared_stocks() {
    let app = app_config();
    let lists = VenueLists {
        binance: vec![listed(VenueId::Binance, "BTCUSDT", ContractKind::Crypto)],
        gate: vec![listed(VenueId::Gate, "BTCUSDT", ContractKind::Crypto)],
    };
    let none = VenueVolumes {
        binance: Vec::new(),
        gate: Vec::new(),
    };
    let r = rank_recommended(&app, &lists, &none).unwrap();
    assert_eq!(ids(&r), vec!["BTCUSDT", "AAPLUSDT", "ZZZUSDT"]);
    let many: Vec<Instrument> = (0..30)
        .map(|i| listed(VenueId::Binance, &format!("S{i}USDT"), ContractKind::Stock))
        .collect();
    let lists = VenueLists {
        binance: many.clone(),
        gate: many,
    };
    assert_eq!(
        rank_recommended(&app, &lists, &none).unwrap().len(),
        RECOMMENDED
    );
    let huge = Decimal {
        mantissa: 79228162514264337593543950335,
        scale: 0,
    };
    let over = VenueVolumes {
        binance: vec![(SymbolId::new("A"), huge)],
        gate: vec![(SymbolId::new("A"), huge)],
    };
    assert!(rank_recommended(&app, &lists, &over).is_none());
}

#[test]
fn catalogue_is_searched_and_listed() {
    let mut cat = Catalog::new();
    cat.by_venue.binance = vec![
        listed(VenueId::Binance, "ZUSDT", ContractKind::Other),
        listed(VenueId::Binance, "BUSDT", ContractKind::Other),
    ];
    cat.by_venue.gate = vec![listed(VenueId::Gate, "AUSDT", ContractKind::Other)];
    cat.recommended = vec![SymbolId::new("ZUSDT")];
    let rows = cat.listed();
    let shown: Vec<(&str, bool)> = rows
        .iter()
        .map(|r| (r.symbol.as_str(), r.recommended))
        .collect();
    assert_eq!(
        shown,
        vec![("ZUSDT", true), ("AUSDT", false), ("BUSDT", false)]
    );
    assert!(cat.find(VenueId::Gate, &SymbolId::new("AUSDT")).is_some());
    assert!(cat.find(VenueId::Binance, &SymbolId::new("AUSDT")).is_none());
    let row = ListedInstrument::from(&cat.by_venue.gate[0]);
    assert_eq!(row.tick_size, "0.01");
    assert_eq!(row.native_symbol, "A_USDT");
    let mut c = StrategyConfig::default();
    c.market.maker_venue = VenueId::Gate;
    c.market.maker_symbol = SymbolId::new("AUSDT");
    assert_eq!(instrument_for(&cat, &c).kind, ContractKind::Other);
    c.market.maker_symbol = SymbolId::new("NONEUSDT");
    assert_eq!(instrument_for(&cat, &c).kind, ContractKind::Stock);
}

#[test]
fn global_limits() {
    let mut g = GlobalRisk::new(GlobalRiskConfig::default());
    assert!(!g.is_killed());
    g.set_kill(true);
    let mut a = idle_snapshot(&StrategyConfig::default());
    a.maker_venue = VenueId::Gate;
    a.net_qty = Qty::new(dec("-2"));
    a.fair_price = Some(Px::new(dec("15000.5")));
    let mut b = idle_snapshot(&StrategyConfig::default());
    b.maker_venue = VenueId::Binance;
    b.net_qty = Qty::new(dec("1.5"));
    let snaps = vec![a, b];
    let v = g.view(&snaps).unwrap();
    assert!(v.kill);
    assert_eq!(v.total_abs_qty, "3.5");
    assert_eq!(v.max_notional, "50000");
    assert_eq!(g.venue_notional_breach(&snaps, VenueId::Gate), Some(true));
    assert_eq!(g.venue_notional_breach(&snaps, VenueId::Binance), Some(false));
}
