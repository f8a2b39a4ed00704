use stock_mm::exchange::gate_trade::{
    amend_param, any_ready, api_request, cancel_all_param, cancel_param, frame_result, is_safe_retry,
    lane_changed, login_request, login_signature, login_step, next_lane, next_req_id,
    parse_api_frame, place_param, qty_to_i64, settled_id, LoginStep, PendingTable,
    PENDING_KEEP_MS, TRADE_LANES,
};
use stock_mm::exchange::session::{unique_addrs, ws_host_port, HostAddr};
use stock_mm::json::Json;
use stock_mm::types::decimal::Decimal;
use stock_mm::types::ids::{ClientOrderId, Side, SymbolId, VenueId};
use stock_mm::types::num::{Px, Qty};
use stock_mm::types::order::{OrderType, PlaceReq, TimeInForce};

#[test]
fn login_sign_is_stable() {
    let sign = login_signature("secret", "futures.login", "", 1681984544);
    assert_eq!(sign.len(), 128);
    assert_eq!(sign, login_signature("secret", "futures.login", "", 1681984544));
    assert_ne!(
        sign,
        login_signature("secret", "futures.order_place", "", 1681984544)
    );
}

#[test]
fn parses_place_ack_and_result() {
    let ack = r#"{"request_id":"r1","ack":true,"header":{"status":"200","channel":"futures.order_place"},"data":{"result":{"req_id":"r1"}}}"#;
    let f = parse_api_frame(ack).unwrap();
    assert!(f.ack);
    assert_eq!(f.request_id.as_deref(), Some("r1"));

    let ok = r#"{"request_id":"r1","ack":false,"header":{"status":"200","channel":"futures.order_place","x_gate_ratelimit_requests_remain":99},"data":{"result":{"id":1,"text":"t-abc"}}}"#;
    let f = parse_api_frame(ok).unwrap();
    assert!(!f.ack);
    assert!(f.error.is_none());
    assert_eq!(f.result.unwrap().get_int("id"), Some(1));
    assert_eq!(f.remain, Some(99));
}

#[test]
fn parses_rate_limit_error() {
    let raw = r#"{"request_id":"r2","header":{"status":"429","channel":"futures.order_place"},"data":{"errs":{"label":"TOO_MANY_REQUESTS","message":"rate limit"}}}"#;
    let f = parse_api_frame(raw).unwrap();
    assert!(!f.ack);
    assert_eq!(f.error.as_deref(), Some("TOO_MANY_REQUESTS: rate limit"));
}

#[test]
fn place_param_signs_sell_and_tags_text() {
    let req = PlaceReq {
        coid: ClientOrderId("s1-grid-sell-0-1".to_string()),
        venue: VenueId::Gate,
        symbol: SymbolId::new("AAPLUSDT"),
        side: Side::Sell,
        px: Px(Decimal::new(101, 1)),
        qty: Qty(Decimal::from_int(3)),
        tif: TimeInForce::PostOnly,
        reduce_only: false,
        order_type: OrderType::Limit,
    };
    let v = place_param(&req).unwrap();
    assert_eq!(v.get_text("contract").unwrap(), "AAPL_USDT");
    assert_eq!(v.get_int("size"), Some(-3));
    assert_eq!(v.get_text("tif").unwrap(), "poc");
    assert_eq!(v.get_text("text").unwrap(), "t-s1-grid-sell-0-1");
    assert_eq!(v.get_text("price").unwrap(), "10.1");
}

#[test]
fn retries_only_unsent_or_rate_limit() {
    assert!(is_safe_retry("not_sent"));
    assert!(is_safe_retry("TOO_MANY_REQUESTS: rate limit"));
    assert!(is_safe_retry("311: Futures rate limit"));
    assert!(!is_safe_retry("timeout"));
    assert!(!is_safe_retry("disconnect"));
    assert!(!is_safe_retry("ORDER_NOT_FOUND"));
}

#[test]
fn unique_helper_still_caps() {
    let addrs: Vec<HostAddr> = (1..=10)
        .map(|i| HostAddr {
            ip: format!("8.8.8.{i}"),
            port: 443,
        })
        .collect();
    assert_eq!(unique_addrs(&addrs, TRADE_LANES).len(), 6);
    let _ = ws_host_port("wss://fx-ws.gateio.ws/v4/ws/usdt").unwrap();
}

#[test]
fn requests_as_they_go_out() {
    let mut counter = 4;
    assert_eq!(next_req_id(&mut counter, 17), "17-4");
    assert_eq!(next_req_id(&mut counter, 17), "17-5");
    let mut last = u64::MAX;
    next_req_id(&mut last, 0);
    assert_eq!(last, 0);
    let v = Json::parse(&login_request("k", "s", "r1", 9)).unwrap();
    assert_eq!(v.get_text("channel").unwrap(), "futures.login");
    let v = Json::parse(&api_request("futures.ping", "r2", None, 9)).unwrap();
    assert_eq!(v.get_text("channel").unwrap(), "futures.ping");
    let coid = ClientOrderId("s1-x".to_string());
    assert_eq!(cancel_param(&coid).get_text("order_id").unwrap(), "t-s1-x");
    let a = amend_param(&coid, Px(Decimal::new(10, 1)), Qty(Decimal::from_int(2))).unwrap();
    assert_eq!(a.get_text("price").unwrap(), "1");
    assert_eq!(
        cancel_all_param(&SymbolId::new("AAPLUSDT"))
            .get_text("contract")
            .unwrap(),
        "AAPL_USDT"
    );
    assert_eq!(qty_to_i64(Qty(Decimal::new(29, 1))), Some(2));
    assert_eq!(qty_to_i64(Qty(Decimal::new(-29, 1))), Some(-2));
}

#[test]
fn answers_find_who_waits() {
    let refused = parse_api_frame(
        r#"{"request_id":"l","header":{"status":"401"},"data":{"errs":{"label":"BAD","message":"no"}}}"#,
    );
    assert_eq!(login_step(&refused, "l"), LoginStep::Refused);
    assert_eq!(login_step(&refused, "other"), LoginStep::Wait);
    assert_eq!(login_step(&None, "l"), LoginStep::Wait);
    let fine = parse_api_frame(
        r#"{"request_id":"l","ack":false,"header":{"status":"200"},"data":{"result":{}}}"#,
    );
    assert_eq!(login_step(&fine, "l"), LoginStep::Accepted);
    assert_eq!(settled_id(&fine).as_deref(), Some("l"));
    assert!(frame_result(fine.unwrap()).is_ok());
    assert_eq!(
        frame_result(refused.unwrap()).unwrap_err(),
        "BAD: no".to_string()
    );
}

#[test]
fn lanes_take_turns_and_the_link_follows_them() {
    let ready = vec![false, true, true];
    let (lane, _) = next_lane(&ready, 0, 0).unwrap();
    assert_eq!(lane, 1);
    assert!(next_lane(&vec![false, false], 0, 0).is_none());
    assert!(any_ready(&ready));
    assert!(!any_ready(&vec![false]));
    assert_eq!(lane_changed(false, true, 0), (1, Some(true)));
    assert_eq!(lane_changed(false, true, 1), (2, None));
    assert_eq!(lane_changed(true, false, 1), (0, Some(false)));
    assert_eq!(lane_changed(true, false, 2), (1, None));
}

#[test]
fn sizes_are_numbers() {
    let req = PlaceReq {
        coid: ClientOrderId("s1-grid-sell-0-1".to_string()),
        venue: VenueId::Gate,
        symbol: SymbolId::new("AAPLUSDT"),
        side: Side::Sell,
        px: Px::new(Decimal::from_int(100)),
        qty: Qty::new(Decimal::from_int(3)),
        tif: TimeInForce::PostOnly,
        reduce_only: false,
        order_type: OrderType::Limit,
    };
    assert_eq!(place_param(&req).unwrap().get_int("size"), Some(-3));
    let moved = amend_param(&req.coid, req.px, Qty::new(Decimal::from_int(7))).unwrap();
    assert_eq!(moved.get_int("size"), Some(7));
}

#[test]
fn requests_are_forgotten_once_settled_or_overdue() {
    let mut t = PendingTable::new();
    t.add_request("a", 0);
    t.add_request("b", 5);
    assert!(t.take("a"));
    assert!(!t.take("a"));
    assert!(t.purge(5 + PENDING_KEEP_MS).is_empty());
    assert_eq!(t.purge(6 + PENDING_KEEP_MS), vec!["b".to_string()]);
    assert!(!t.take("b"));
}
