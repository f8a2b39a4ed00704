use stock_mm::exchange::binance::{join_query, Method};
use stock_mm::exchange::calls::{
    awaited_order, binance_amend_call, binance_call, gate_amend_call, gate_call, BinanceCall, GateCall,
};
use stock_mm::json::Json;
use stock_mm::types::action::Action;
use stock_mm::types::decimal::Decimal;
use stock_mm::types::ids::{ClientOrderId, Side, SymbolId, TimerId, VenueId};
use stock_mm::types::num::{Px, Qty};
use stock_mm::types::order::{OrderRecord, OrderType, PlaceReq, TimeInForce};
use stock_mm::types::time::Ts;

fn coid() -> ClientOrderId {
    ClientOrderId("s1-grid-sell-0-1".to_string())
}

fn symbol() -> SymbolId {
    SymbolId::new("AAPLUSDT")
}

fn px() -> Px {
    Px(Decimal::new(101, 1))
}

fn qty() -> Qty {
    Qty(Decimal::from_int(3))
}

fn place(venue: VenueId) -> Action {
    Action::Place(PlaceReq {
        coid: coid(),
        venue,
        symbol: symbol(),
        side: Side::Sell,
        px: px(),
        qty: qty(),
        tif: TimeInForce::PostOnly,
        reduce_only: false,
        order_type: OrderType::Limit,
    })
}

fn cancel(venue: VenueId) -> Action {
    Action::Cancel { coid: coid(), venue, symbol: symbol() }
}

fn amend(venue: VenueId) -> Action {
    Action::Amend { coid: coid(), venue, symbol: symbol(), px: px(), qty: qty() }
}

fn cancel_all(venue: VenueId) -> Action {
    Action::CancelAll { venue, symbol: symbol() }
}

fn rpc(a: &Action) -> (&'static str, Json) {
    match gate_call(a, true) {
        Some(Ok(GateCall::Rpc { channel, param })) => (channel, param),
        other => panic!("no request over a connection: {other:?}"),
    }
}

#[test]
fn gate_orders_over_a_trading_connection() {
    let (channel, param) = rpc(&place(VenueId::Gate));
    assert_eq!(channel, "futures.order_place");
    assert_eq!(param.get_int("size"), Some(-3));
    let (channel, param) = rpc(&cancel(VenueId::Gate));
    assert_eq!(channel, "futures.order_cancel");
    assert_eq!(param.get_text("order_id").unwrap(), "t-s1-grid-sell-0-1");
    let (channel, param) = rpc(&amend(VenueId::Gate));
    assert_eq!(channel, "futures.order_amend");
    assert_eq!(param.get_text("price").unwrap(), "10.1");
    let (channel, param) = rpc(&cancel_all(VenueId::Gate));
    assert_eq!(channel, "futures.order_cancel_cp");
    assert_eq!(param.get_text("contract").unwrap(), "AAPL_USDT");
}

#[test]
fn gate_orders_over_http() {
    let Some(Ok(GateCall::Rest(c))) = gate_call(&place(VenueId::Gate), false) else {
        panic!("an order goes out");
    };
    assert_eq!((c.method, c.path.as_str(), c.query.as_str()), (Method::Post, "/api/v4/futures/usdt/orders", ""));
    assert!(!c.lenient);
    let body = Json::parse(&c.body.unwrap()).unwrap();
    assert_eq!(body.get_text("size").unwrap(), "-3");
    let Some(Ok(GateCall::Rest(c))) = gate_call(&cancel(VenueId::Gate), false) else {
        panic!("a cancellation goes out");
    };
    assert_eq!(c.method, Method::Delete);
    assert_eq!(c.query, "contract=AAPL_USDT&text=t-s1-grid-sell-0-1");
    assert!(c.lenient);
    assert!(c.body.is_none());
    let Some(Ok(GateCall::Rest(c))) = gate_call(&cancel_all(VenueId::Gate), false) else {
        panic!("a cancellation goes out");
    };
    assert_eq!(c.query, "contract=AAPL_USDT");
    assert!(!c.lenient);
    assert!(matches!(
        gate_call(&amend(VenueId::Gate), false),
        Some(Ok(GateCall::LookUp { .. }))
    ));
}

#[test]
fn a_size_that_gate_cannot_take() {
    let mut a = place(VenueId::Gate);
    if let Action::Place(req) = &mut a {
        req.qty = Qty(Decimal { mantissa: i128::MAX, scale: 0 });
    }
    for pooled in [true, false] {
        assert_eq!(
            gate_call(&a, pooled).unwrap().unwrap_err(),
            "gate size must be an integer contract count"
        );
    }
}

fn open_order(exchange_id: Option<&str>) -> OrderRecord {
    OrderRecord {
        coid: coid(),
        strategy_id: "s1".to_string(),
        venue: VenueId::Gate,
        symbol: symbol(),
        side: Side::Sell,
        purpose: "grid".to_string(),
        px: px(),
        qty: qty(),
        filled_qty: Qty(Decimal::from_int(0)),
        status: "new".to_string(),
        exchange_id: exchange_id.map(|s| s.to_string()),
        reduce_only: false,
        created_at: Ts::from_millis(0),
        updated_at: Ts::from_millis(0),
    }
}

#[test]
fn an_amendment_over_http_goes_by_the_venues_id() {
    let c = gate_amend_call(&vec![open_order(Some("77"))], &coid(), px(), qty()).unwrap();
    assert_eq!(c.method, Method::Put);
    assert_eq!(c.path, "/api/v4/futures/usdt/orders/77");
    assert!(c.body.is_some());
    for orders in [vec![], vec![open_order(None)]] {
        assert_eq!(
            gate_amend_call(&orders, &coid(), px(), qty()).unwrap_err(),
            "gate amend: order not found"
        );
    }
}

#[test]
fn binance_orders() {
    let Some(Ok(BinanceCall::Form(c))) = binance_call(&place(VenueId::Binance)) else {
        panic!("an order goes out");
    };
    assert_eq!((c.method, c.path, c.body_empty), (Method::Post, "/fapi/v1/order", false));
    assert!(join_query(&c.params).contains("newClientOrderId=s1-grid-sell-0-1"));
    let Some(Ok(BinanceCall::Form(c))) = binance_call(&cancel(VenueId::Binance)) else {
        panic!("a cancellation goes out");
    };
    assert_eq!((c.method, c.path, c.body_empty), (Method::Delete, "/fapi/v1/order", true));
    let Some(Ok(BinanceCall::Form(c))) = binance_call(&cancel_all(VenueId::Binance)) else {
        panic!("a cancellation goes out");
    };
    assert_eq!((c.method, c.path), (Method::Delete, "/fapi/v1/allOpenOrders"));
    assert!(matches!(
        binance_call(&amend(VenueId::Binance)),
        Some(Ok(BinanceCall::LookUp { .. }))
    ));
    let c = binance_amend_call(&symbol(), &coid(), px(), qty(), None).unwrap();
    assert_eq!((c.method, c.path), (Method::Put, "/fapi/v1/order"));
    assert!(join_query(&c.params).contains("side=BUY"));
    let bad = Qty(Decimal { mantissa: i128::MAX, scale: 0 });
    assert!(binance_amend_call(&symbol(), &coid(), px(), bad, Some(Side::Sell)).is_err());
}

#[test]
fn outcomes_are_awaited_of_single_orders() {
    let timer = Action::ClearTimer(TimerId::reconcile());
    assert!(awaited_order(&timer).is_none());
    assert!(gate_call(&timer, true).is_none());
    assert!(binance_call(&timer).is_none());
    assert!(awaited_order(&cancel_all(VenueId::Gate)).is_none());
    for a in [place(VenueId::Gate), cancel(VenueId::Gate), amend(VenueId::Gate)] {
        assert_eq!(awaited_order(&a).unwrap().as_str(), "s1-grid-sell-0-1");
    }
}
