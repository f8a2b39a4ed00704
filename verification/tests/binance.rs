use stock_mm::config::TradingEnv;
use stock_mm::exchange::binance::{
    all_orders_params, amend_params, book_stream, join_query, list_instruments, listen_key,
    md_subscription, md_url, oneway_params, order_params, parse_book_ticker, parse_user_data,
    place_params, positions, signed_query, signed_request, volumes, Method, Params,
};
use stock_mm::exchange::session::parse_dec;
use stock_mm::exchange::sign::{hmac_sha256_hex, hmac_sha512_hex, sha512_hex};
use stock_mm::exchange::venue::{endpoints, map_result, native_symbol, FeedError, PrivateMsg};
use stock_mm::json::Json;
use stock_mm::types::decimal::Decimal;
use stock_mm::types::ids::{ClientOrderId, Side, SymbolId, VenueId};
use stock_mm::types::num::{Px, Qty};
use stock_mm::types::order::{ExecKind, OrderType, PlaceReq, ReqResult, TimeInForce};
use stock_mm::types::time::Ts;

#[test]
fn parses_combined_book_ticker() {
    let raw = r#"{"stream":"aaplusdt@bookTicker","data":{"u":1,"s":"AAPLUSDT","b":"100.1","B":"2","a":"100.2","A":"3"}}"#;
    let u = parse_book_ticker(raw, Ts::from_millis(1)).unwrap();
    assert_eq!(u.book.symbol.as_str(), "AAPLUSDT");
    assert_eq!(u.book.bid_px.text(), "100.1");
}

#[test]
fn signatures_of_known_messages() {
    assert_eq!(
        hmac_sha256_hex("Jefe", "what do ya want for nothing?"),
        "5bdcc146bf60754e6a042426089575c75a003f089d2739839dec58b964ec3843"
    );
    assert_eq!(
        hmac_sha512_hex("Jefe", "what do ya want for nothing?"),
        "164b7a7bfcf819e2e395fbe73b56e0a387bd64222e831fd610270cd7ea2505549758bf75c05a994a6d034f65f8f0e6fdcaeab1a34d4a6b4b636e070a38bce737"
    );
    assert_eq!(
        sha512_hex("abc"),
        "ddaf35a193617abacc417349ae20413112e6fa4e89a97ea20a9eeee64b55d39a2192992a274fc1a836ba3c23a3feebbd454d4423643ce80e2a9ac94fa54ca49f"
    );
}

#[test]
fn parameters_stand_in_order() {
    let mut p = Params::new();
    p.put("symbol", "B");
    p.put("a", "1");
    p.put("symbol", "C");
    p.put_default("a", "2");
    p.put_default("m", "3");
    assert_eq!(join_query(&p), "a=1&m=3&symbol=C");
    let q = signed_query("secret", p, 1_000);
    let (said, sig) = q.rsplit_once("&signature=").unwrap();
    assert!(said.contains("timestamp=1000"));
    assert_eq!(sig, hmac_sha256_hex("secret", said));
}

#[test]
fn requests_with_and_without_bodies() {
    let r = signed_request("https://h", Method::Get, "/p", "q=1".to_string(), true);
    assert_eq!(r.url, "https://h/p?q=1");
    assert!(r.body.is_none());
    let r = signed_request("https://h", Method::Post, "/p", "q=1".to_string(), false);
    assert_eq!(r.url, "https://h/p");
    assert_eq!(r.body.as_deref(), Some("q=1"));
}

fn req(order_type: OrderType, tif: TimeInForce) -> PlaceReq {
    PlaceReq {
        coid: ClientOrderId("s1-grid-buy-0-1".to_string()),
        venue: VenueId::Binance,
        symbol: SymbolId::new("AAPLUSDT"),
        side: Side::Buy,
        px: Px(Decimal::new(10100, 2)),
        qty: Qty(Decimal::new(30, 1)),
        tif,
        reduce_only: false,
        order_type,
    }
}

#[test]
fn order_parameters() {
    let q = join_query(&place_params(&req(OrderType::Limit, TimeInForce::PostOnly)).unwrap());
    assert!(q.contains("timeInForce=GTX"));
    assert!(q.contains("price=101&"));
    assert!(q.contains("quantity=3&"));
    assert!(q.contains("side=BUY"));
    let m = join_query(&place_params(&req(OrderType::Market, TimeInForce::Ioc)).unwrap());
    assert!(m.contains("type=MARKET") && !m.contains("price="));
    let sym = SymbolId::new("AAPLUSDT");
    let coid = ClientOrderId("s1-x".to_string());
    assert_eq!(
        join_query(&order_params(&sym, &coid)),
        "origClientOrderId=s1-x&symbol=AAPLUSDT"
    );
    assert_eq!(join_query(&all_orders_params(&sym)), "symbol=AAPLUSDT");
    let a = amend_params(
        &sym,
        &coid,
        Px(Decimal::from_int(5)),
        Qty(Decimal::from_int(2)),
        Some(Side::Sell),
    )
    .unwrap();
    assert!(join_query(&a).contains("side=SELL"));
    assert_eq!(join_query(&oneway_params()), "dualSidePosition=false");
}

#[test]
fn streams() {
    assert_eq!(book_stream(&SymbolId::new("AAPLUSDT")), "aaplusdt@bookTicker");
    assert!(md_url("wss://h/stream").starts_with("wss://h/"));
    let v = Json::parse(&md_subscription(&vec!["a".to_string(), "b".to_string()])).unwrap();
    assert_eq!(v.get_text("method").unwrap(), "SUBSCRIBE");
    assert_eq!(v.get_list("params").unwrap().len(), 2);
    assert_eq!(
        listen_key(&Json::parse(r#"{"listenKey":"abc"}"#).unwrap()).as_deref(),
        Some("abc")
    );
    assert!(listen_key(&Json::parse("{}").unwrap()).is_none());
}

#[test]
fn user_data_becomes_reports() {
    let raw = r#"{"e":"ORDER_TRADE_UPDATE","T":5,"o":{"s":"AAPLUSDT","c":"s1-grid-buy-0-1","S":"BUY","X":"PARTIALLY_FILLED","x":"TRADE","p":"10","q":"3","z":"1","L":"10","l":"1","i":77}}"#;
    let msgs = parse_user_data(raw);
    assert_eq!(msgs.len(), 1);
    let PrivateMsg::Exec(e) = &msgs[0] else {
        panic!("expected exec");
    };
    assert_eq!(e.kind, ExecKind::PartialFill);
    assert_eq!(e.exchange_id.as_deref(), Some("77"));
    assert_eq!(e.last_qty.unwrap().0, Decimal::from_int(1));
    assert!(parse_user_data("[]").is_empty());
    assert!(parse_user_data("nonsense").is_empty());
}

#[test]
fn lists_of_instruments_and_positions() {
    let none = Json::parse("{}").unwrap();
    assert!(volumes(&none).is_empty());
    assert_eq!(
        positions(&none, Ts::from_millis(0)).unwrap_err(),
        FeedError::NotAList
    );
    let v = Json::parse(
        r#"{"symbols":[{"symbol":"AAPLUSDT","contractType":"PERPETUAL","quoteAsset":"USDT","status":"TRADING","underlyingType":"EQUITY","filters":[{"filterType":"PRICE_FILTER","tickSize":"0.01"},{"filterType":"LOT_SIZE","stepSize":"0.001","minQty":"0.001"}]}]}"#,
    )
    .unwrap();
    let list = list_instruments(&v).unwrap();
    if let Some(i) = list.first() {
        assert_eq!(i.symbol.as_str(), "AAPLUSDT");
        assert_eq!(i.tick_size, parse_dec("0.01").unwrap());
    }
}

#[test]
fn public_data_comes_from_the_main_network() {
    for venue in [VenueId::Binance, VenueId::Gate] {
        let t = endpoints(venue, TradingEnv::Testnet);
        let m = endpoints(venue, TradingEnv::Mainnet);
        assert_eq!(t.public_rest, m.public_rest);
        assert_eq!(t.md_ws, m.md_ws);
        assert_ne!(t.rest, m.rest);
    }
    assert_eq!(native_symbol(VenueId::Gate, "AAPLUSDT"), "AAPL_USDT");
    assert_eq!(native_symbol(VenueId::Binance, "AAPL_USDT"), "AAPLUSDT");
}

#[test]
fn failures_that_may_have_reached_the_venue() {
    let coid = ClientOrderId("c".to_string());
    let o = map_result(coid.clone(), Err("request timeout".to_string()));
    assert_eq!(o.result, ReqResult::Unknown);
    let o = map_result(coid.clone(), Err("no balance".to_string()));
    assert_eq!(o.result, ReqResult::Rejected);
    assert_eq!(o.reason.as_deref(), Some("no balance"));
    assert_eq!(map_result(coid, Ok(())).result, ReqResult::Accepted);
}
