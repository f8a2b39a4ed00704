use stock_mm::types::ids::{
    canonicalize_symbol, make_client_order_id, to_binance_native, to_gate_native, ClientOrderId,
    LotId, Side, SlotKey, StrategyId, SymbolId, TimerId, VenueId,
};

#[test]
fn canonicalize_gate_and_binance() {
    assert_eq!(canonicalize_symbol("AAPL_USDT"), "AAPLUSDT");
    assert_eq!(canonicalize_symbol("aapl-usdt"), "AAPLUSDT");
    assert_eq!(to_gate_native("AAPLUSDT"), "AAPL_USDT");
    assert_eq!(to_binance_native("AAPL_USDT"), "AAPLUSDT");
}

#[test]
fn client_order_id_format() {
    let id = make_client_order_id(&StrategyId::new("s1"), SlotKey::grid(Side::Buy, 0), 7);
    assert_eq!(id.as_str(), "s1-grid-buy-0-7");
    assert_eq!(id.strategy_prefix().as_deref(), Some("s1"));
}

#[test]
fn canonical_symbols_stay_as_they_are() {
    let once = canonicalize_symbol("b r k.b/usdt é");
    assert_eq!(once, "BRKBUSDT");
    assert_eq!(canonicalize_symbol(&once), once);
    assert_eq!(SymbolId::new("x_y").as_str(), "XY");
}

#[test]
fn gate_names_lead_back() {
    for s in ["AAPLUSDT", "TSLAUSDT"] {
        assert_eq!(canonicalize_symbol(&to_gate_native(s)), s);
    }
}

#[test]
fn order_ids_differ() {
    let s = StrategyId::new("s1");
    let a = make_client_order_id(&s, SlotKey::grid(Side::Buy, 1), 12);
    let b = make_client_order_id(&s, SlotKey::grid(Side::Buy, 1), 13);
    let c = make_client_order_id(&s, SlotKey::exit(Side::Buy, 1), 12);
    assert_ne!(a.as_str(), b.as_str());
    assert_ne!(a.as_str(), c.as_str());
    assert_eq!(
        ClientOrderId("nodash".to_string()).strategy_prefix().as_deref(),
        Some("nodash")
    );
}

#[test]
fn venues_by_name() {
    assert_eq!(VenueId::parse("BN").unwrap(), VenueId::Binance);
    assert_eq!(VenueId::parse("GateIO").unwrap(), VenueId::Gate);
    assert_eq!(VenueId::parse("Nyse").unwrap_err(), "unknown venue: nyse");
    assert_eq!(VenueId::Gate.as_str(), "gate");
}

#[test]
fn timers_have_numbers_of_their_own() {
    let all = [
        TimerId::reconcile().0,
        TimerId::exit_scan().0,
        TimerId::cooldown().0,
        TimerId::unknown_scan().0,
        TimerId::lot_fast(LotId(3)).0,
        TimerId::lot_force(LotId(3)).0,
    ];
    for i in 0..all.len() {
        for j in 0..i {
            assert_ne!(all[i], all[j]);
        }
    }
}

#[test]
fn ids_of_strategies_with_hyphens_differ() {
    let key = SlotKey::grid(Side::Buy, 1);
    let a = make_client_order_id(&StrategyId::new("s"), key, 2);
    let b = make_client_order_id(&StrategyId::new("s-grid-buy-1"), key, 2);
    let c = make_client_order_id(&StrategyId::new("s-1"), key, 2);
    assert_eq!(a.as_str(), "s-grid-buy-1-2");
    assert_eq!(b.as_str(), "s-grid-buy-1-grid-buy-1-2");
    assert_eq!(c.as_str(), "s-1-grid-buy-1-2");
}
