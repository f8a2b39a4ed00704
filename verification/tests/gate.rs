use stock_mm::exchange::gate::{
    amend_target, cancel_query, contract_query, current_position_mode, gate_sign, gate_url,
    is_single_position_mode, list_instruments, open_orders, parse_book_ticker,
    parse_gate_position, parse_private, positions, query_report, rest_amend, rest_place,
    unified_step, volumes, UnifiedStep,
};
use stock_mm::exchange::session::parse_dec;
use stock_mm::exchange::venue::{FeedError, PrivateMsg};
use stock_mm::json::Json;
use stock_mm::types::decimal::Decimal;
use stock_mm::types::ids::{ClientOrderId, Side, SymbolId, VenueId};
use stock_mm::types::num::{Px, Qty};
use stock_mm::types::order::{ExecKind, OrderType, PlaceReq, TimeInForce};
use stock_mm::types::time::Ts;

fn json(text: &str) -> Json {
    Json::parse(text).unwrap()
}

fn now() -> Ts {
    Ts::from_millis(5)
}

#[test]
fn parses_gate_book_ticker() {
    let raw = r#"{"time":1,"channel":"futures.book_ticker","event":"update","result":{"t":1,"u":2,"s":"AAPL_USDT","b":"10.1","B":"5","a":"10.2","A":"6"}}"#;
    let u = parse_book_ticker(raw, now()).unwrap();
    assert_eq!(u.book.symbol.as_str(), "AAPLUSDT");
    assert_eq!(u.book.recv_ts, now());
    assert!(parse_book_ticker("{", now()).is_none());
}

#[test]
fn parses_oneway_position() {
    let raw = r#"{"contract":"AAPL_USDT","size":3,"entry_price":"10.5","mode":"single"}"#;
    let p = parse_gate_position(&json(raw), now()).unwrap();
    assert_eq!(p.symbol.as_str(), "AAPLUSDT");
    assert_eq!(p.net_qty.0, Decimal::from_int(3));
    assert_eq!(p.avg_px.unwrap().text(), "10.5");
}

#[test]
fn parses_string_size_short() {
    let raw = r#"{"contract":"AAPL_USDT","size":"-2","entry_price":1,"mode":"single"}"#;
    let p = parse_gate_position(&json(raw), now()).unwrap();
    assert_eq!(p.net_qty.0, Decimal::from_int(-2));
}

#[test]
fn skips_flat_position() {
    let raw = r#"{"contract":"AAPL_USDT","size":0,"mode":"single"}"#;
    assert!(parse_gate_position(&json(raw), now()).is_none());
}

#[test]
fn reads_single_position_mode_from_account() {
    assert!(is_single_position_mode(&json(r#"{"position_mode":"single"}"#)));
    assert!(!is_single_position_mode(&json(r#"{"position_mode":"dual"}"#)));
    assert!(!is_single_position_mode(&json(r#"{"position_mode":"dual_plus"}"#)));
    assert!(is_single_position_mode(&json(r#"{"in_dual_mode":false}"#)));
    assert!(!is_single_position_mode(&json(r#"{"in_dual_mode":true}"#)));
    assert_eq!(current_position_mode(&json(r#"{"position_mode":"dual"}"#)), "dual");
}

#[test]
fn parses_numeric_order_push_price() {
    let raw = r#"{"channel":"futures.orders","event":"update","result":[{"contract":"SNDK_USDT","id":324822126929229396,"text":"t-s1-grid-sell-2-9","size":-1,"left":-1,"status":"open","price":1770.22,"fill_price":0,"tif":"poc"}]}"#;
    let msgs = parse_private(raw, now());
    assert_eq!(msgs.len(), 1);
    let PrivateMsg::Exec(e) = &msgs[0] else {
        panic!("expected exec, got {:?}", msgs[0]);
    };
    assert_eq!(e.coid.as_str(), "s1-grid-sell-2-9");
    assert_eq!(e.kind, ExecKind::Ack);
    assert_eq!(e.side, Side::Sell);
    assert_eq!(e.px.unwrap().text(), "1770.22");
    assert!(e.last_px.is_none(), "unfilled order has no fill price");
}

#[test]
fn json_numbers_keep_exact_decimals() {
    assert_eq!(json("1770.22").as_decimal(), parse_dec("1770.22"));
    assert_eq!(Px(json("1770.22").as_decimal().unwrap()).text(), "1770.22");
    assert_eq!(Px(json("\"1770.22\"").as_decimal().unwrap()).text(), "1770.22");
    assert_eq!(Px(json("-3").as_decimal().unwrap()).text(), "-3");
    assert!(json("null").as_decimal().is_none());
}

#[test]
fn finished_order_is_never_live() {
    let raw = r#"{"channel":"futures.orders","event":"update","result":{"contract":"SNDK_USDT","id":1,"text":"t-s1-grid-buy-0-1","size":2,"left":2,"status":"finished","finish_as":"poc","price":1762.5}}"#;
    let msgs = parse_private(raw, now());
    let PrivateMsg::Exec(e) = &msgs[0] else {
        panic!("expected exec");
    };
    assert_eq!(e.kind, ExecKind::Canceled);
    assert_eq!(e.reason.as_deref(), Some("poc"));
}

#[test]
fn partial_fill_reports_cumulative_filled() {
    let raw = r#"{"channel":"futures.orders","event":"update","result":{"contract":"SNDK_USDT","id":1,"text":"t-s1-grid-sell-0-1","size":-5,"left":-2,"status":"open","price":1770.5,"fill_price":1770.5}}"#;
    let msgs = parse_private(raw, now());
    let PrivateMsg::Exec(e) = &msgs[0] else {
        panic!("expected exec");
    };
    assert_eq!(e.kind, ExecKind::PartialFill);
    assert_eq!(e.filled_qty.0, Decimal::from_int(3));
    assert_eq!(e.last_px.unwrap().text(), "1770.5");
}

#[test]
fn parses_private_oneway_position() {
    let raw = r#"{"channel":"futures.positions","event":"update","result":{"contract":"AAPL_USDT","size":1,"entry_price":"10","mode":"single"}}"#;
    let msgs = parse_private(raw, now());
    assert_eq!(msgs.len(), 1);
    match &msgs[0] {
        PrivateMsg::Position(p) => {
            assert_eq!(p.symbol.as_str(), "AAPLUSDT");
            assert_eq!(p.net_qty.0, Decimal::from_int(1));
        }
        other => panic!("unexpected {other:?}"),
    }
}

#[test]
fn signs_requests() {
    let sign = gate_sign("secret", "GET", "/api/v4/x", "a=b", "", 1_681_984_544);
    assert_eq!(sign.len(), 128);
    assert_ne!(sign, gate_sign("secret", "GET", "/api/v4/x", "a=b", "", 1_681_984_545));
    assert_ne!(sign, gate_sign("other", "GET", "/api/v4/x", "a=b", "", 1_681_984_544));
    assert_eq!(gate_url("https://h", "/p", ""), "https://h/p");
    assert_eq!(gate_url("https://h", "/p", "q=1"), "https://h/p?q=1");
}

fn req(order_type: OrderType, side: Side) -> PlaceReq {
    PlaceReq {
        coid: ClientOrderId("s1-grid-buy-0-1".to_string()),
        venue: VenueId::Gate,
        symbol: SymbolId::new("AAPLUSDT"),
        side,
        px: Px(Decimal::new(1010, 2)),
        qty: Qty(Decimal::from_int(3)),
        tif: TimeInForce::Gtc,
        reduce_only: true,
        order_type,
    }
}

#[test]
fn order_bodies() {
    let b = json(&rest_place(&req(OrderType::Limit, Side::Buy)).unwrap());
    assert_eq!(b.get_text("contract").unwrap(), "AAPL_USDT");
    assert_eq!(b.get_text("size").unwrap(), "3");
    assert_eq!(b.get_text("price").unwrap(), "10.1");
    assert_eq!(b.get_text("tif").unwrap(), "gtc");
    assert!(b.get_bool_or("reduce_only", false));
    let m = json(&rest_place(&req(OrderType::Market, Side::Sell)).unwrap());
    assert_eq!(m.get_text("size").unwrap(), "-3");
    assert_eq!(m.get_text("price").unwrap(), "0");
    let a = json(&rest_amend(Px(Decimal::new(5, 1)), Qty(Decimal::from_int(2))).unwrap());
    assert_eq!(a.get_text("price").unwrap(), "0.5");
    let c = ClientOrderId("s1-x".to_string());
    assert!(cancel_query(&SymbolId::new("AAPLUSDT"), &c).contains("AAPL_USDT"));
    assert!(contract_query(&SymbolId::new("AAPLUSDT")).contains("AAPL_USDT"));
}

#[test]
fn accounts_that_can_trade() {
    assert_eq!(unified_step(&json(r#"{"mode":"classic"}"#)), UnifiedStep::Classic);
    assert_eq!(unified_step(&json(r#"{"mode":"moon"}"#)), UnifiedStep::Unknown);
}

#[test]
fn lists_that_are_none() {
    assert_eq!(list_instruments(&json("{}")).unwrap_err(), FeedError::NotAList);
    assert!(volumes(&json("{}")).is_empty());
    assert_eq!(positions(&json("1"), now()).unwrap_err(), FeedError::NotAList);
}

#[test]
fn reads_contracts_and_open_orders() {
    let v = json(
        r#"[{"name":"AAPL_USDT","order_price_round":"0.01","quanto_multiplier":"0.1","order_size_min":1,"maker_fee_rate":"0.0002","taker_fee_rate":"0.0005"}]"#,
    );
    let list = list_instruments(&v).unwrap();
    assert_eq!(list.len(), 1);
    assert_eq!(list[0].symbol.as_str(), "AAPLUSDT");
    assert_eq!(list[0].tick_size, parse_dec("0.01").unwrap());
    let orders = json(
        r#"[{"id":7,"contract":"AAPL_USDT","text":"t-s1-grid-buy-0-1","size":2,"left":1,"price":"10","status":"open"}]"#,
    );
    let open = open_orders(&orders, &SymbolId::new("AAPLUSDT"), now()).unwrap();
    assert_eq!(open[0].coid.as_str(), "s1-grid-buy-0-1");
    assert_eq!(open[0].exchange_id.as_deref(), Some("7"));
    let coid = ClientOrderId("s1-grid-buy-0-1".to_string());
    assert_eq!(amend_target(&open, &coid).as_deref(), Some("7"));
    assert!(query_report(&open, &coid).is_some());
    assert!(query_report(&open, &ClientOrderId("x".to_string())).is_none());
}
