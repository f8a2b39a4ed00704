//! What goes out to a venue for what a strategy asks for.
use crate::exchange::binance::{
    all_orders_params, amend_params, amend_query, order_params, order_query, place_params, place_query,
    symbol_param, Method, Params,
};
use crate::exchange::gate::{
    amend_place, amend_target, cancel_query, contract_query, rest_amend, rest_amend_body, rest_place,
    rest_place_body,
};
use crate::exchange::gate_trade::{
    amend_body, amend_param, cancel_all_body, cancel_all_param, cancel_body, cancel_param, opt_says,
    place_body, place_param,
};
use crate::exchange::venue::native_of;
use crate::json::{json_written, Json, JsonV};
use crate::text::{cat2, opt_view};
use crate::types::action::{Action, ActionV};
use crate::types::ids::{ClientOrderId, Side, SymbolId, VenueId};
use crate::types::num::{Px, Qty};
use crate::types::order::{OrderRecord, PlaceReq, PlaceV};
use vstd::prelude::*;

verus! {

/// A request to Gate over HTTP.
#[derive(Debug)]
pub struct RestCall {
    pub method: Method,
    pub path: String,
    pub query: String,
    pub body: Option<String>,
    /// It counts as carried out whatever the venue answers.
    pub lenient: bool,
}

/// A `RestCall`.
#[verifier::ext_equal]
pub struct RestCallV {
    pub method: Method,
    pub path: Seq<char>,
    pub query: Seq<char>,
    pub body: Option<Seq<char>>,
    pub lenient: bool,
}

impl View for RestCall {
    type V = RestCallV;

    open spec fn view(&self) -> RestCallV {
        RestCallV {
            method: self.method,
            path: self.path@,
            query: self.query@,
            body: opt_view(self.body),
            lenient: self.lenient,
        }
    }
}

/// What goes out to Gate.
#[derive(Debug)]
pub enum GateCall {
    /// A request over a trading connection.
    Rpc { channel: &'static str, param: Json },
    Rest(RestCall),
    /// An amendment over HTTP, for which the order is to be looked up first.
    LookUp { symbol: SymbolId, coid: ClientOrderId, px: Px, qty: Qty },
}

/// What goes out to Gate.
#[verifier::ext_equal]
pub enum GateCallV {
    Rpc { channel: Seq<char>, param: JsonV },
    Rest(RestCallV),
    LookUp { symbol: Seq<char>, coid: Seq<char>, px: Px, qty: Qty },
}

impl View for GateCall {
    type V = GateCallV;

    open spec fn view(&self) -> GateCallV {
        match self {
            GateCall::Rpc { channel, param } => GateCallV::Rpc {
                channel: channel@,
                param: param.says(),
            },
            GateCall::Rest(c) => GateCallV::Rest(c@),
            GateCall::LookUp { symbol, coid, px, qty } => GateCallV::LookUp {
                symbol: symbol@,
                coid: coid@,
                px: *px,
                qty: *qty,
            },
        }
    }
}

/// What is said of an order whose size or price Gate cannot take.
pub open spec fn bad_size() -> Seq<char> {
    "gate size must be an integer contract count"@
}

/// A request over a trading connection, if its parameters could be made.
pub open spec fn rpc_of(channel: Seq<char>, param: Option<JsonV>) -> Result<GateCallV, Seq<char>> {
    match param {
        Some(param) => Ok(GateCallV::Rpc { channel, param }),
        None => Err(bad_size()),
    }
}

/// What goes out to Gate for a new order.
pub open spec fn gate_place(req: PlaceV, pooled: bool) -> Result<GateCallV, Seq<char>> {
    if pooled {
        rpc_of("futures.order_place"@, place_body(req))
    } else {
        match rest_place_body(req) {
            Some(b) => Ok(
                GateCallV::Rest(
                    RestCallV {
                        method: Method::Post,
                        path: "/api/v4/futures/usdt/orders"@,
                        query: ""@,
                        body: Some(json_written(b)),
                        lenient: false,
                    },
                ),
            ),
            None => Err(bad_size()),
        }
    }
}

/// What goes out to Gate to take an order back.
pub open spec fn gate_cancel(symbol: Seq<char>, coid: Seq<char>, pooled: bool) -> GateCallV {
    if pooled {
        GateCallV::Rpc { channel: "futures.order_cancel"@, param: cancel_body(coid) }
    } else {
        GateCallV::Rest(
            RestCallV {
                method: Method::Delete,
                path: "/api/v4/futures/usdt/orders"@,
                query: "contract="@ + native_of(VenueId::Gate, symbol) + "&text=t-"@ + coid,
                body: None,
                lenient: true,
            },
        )
    }
}

/// What goes out to Gate to move an order.
pub open spec fn gate_amend(symbol: Seq<char>, coid: Seq<char>, px: Px, qty: Qty, pooled: bool) -> Result<
    GateCallV,
    Seq<char>,
> {
    if pooled {
        rpc_of("futures.order_amend"@, amend_body(coid, px, qty))
    } else {
        Ok(GateCallV::LookUp { symbol, coid, px, qty })
    }
}

/// What goes out to Gate to take all orders of a symbol back.
pub open spec fn gate_cancel_all(symbol: Seq<char>, pooled: bool) -> GateCallV {
    if pooled {
        GateCallV::Rpc { channel: "futures.order_cancel_cp"@, param: cancel_all_body(symbol) }
    } else {
        GateCallV::Rest(
            RestCallV {
                method: Method::Delete,
                path: "/api/v4/futures/usdt/orders"@,
                query: "contract="@ + native_of(VenueId::Gate, symbol),
                body: None,
                lenient: false,
            },
        )
    }
}

/// What goes out to Gate for what a strategy asks for: over a trading connection if one is ready, else over
/// HTTP. For anything but orders nothing goes out.
pub open spec fn gate_request(a: ActionV, pooled: bool) -> Option<Result<GateCallV, Seq<char>>> {
    match a {
        ActionV::Place(req) => Some(gate_place(req, pooled)),
        ActionV::Cancel { coid, symbol, .. } => Some(Ok(gate_cancel(symbol, coid, pooled))),
        ActionV::Amend { coid, symbol, px, qty, .. } => Some(
            gate_amend(symbol, coid, px, qty, pooled),
        ),
        ActionV::CancelAll { symbol, .. } => Some(Ok(gate_cancel_all(symbol, pooled))),
        _ => None,
    }
}

/// What the outcome of a call says.
pub open spec fn call_says(r: Result<GateCall, String>) -> Result<GateCallV, Seq<char>> {
    match r {
        Ok(c) => Ok(c@),
        Err(e) => Err(e@),
    }
}

fn rpc(channel: &'static str, param: Option<Json>) -> (r: Result<GateCall, String>)
    ensures
        call_says(r) == rpc_of(channel@, opt_says(param)),
{
    match param {
        Some(param) => Ok(GateCall::Rpc { channel, param }),
        None => Err("gate size must be an integer contract count".to_owned()),
    }
}

fn place_call(req: &PlaceReq, pooled: bool) -> (r: Result<GateCall, String>)
    ensures
        call_says(r) == gate_place(req@, pooled),
{
    if pooled {
        return rpc("futures.order_place", place_param(req));
    }
    match rest_place(req) {
        Some(b) => Ok(
            GateCall::Rest(
                RestCall {
                    method: Method::Post,
                    path: "/api/v4/futures/usdt/orders".to_owned(),
                    query: "".to_owned(),
                    body: Some(b),
                    lenient: false,
                },
            ),
        ),
        None => Err("gate size must be an integer contract count".to_owned()),
    }
}

fn cancel_call(symbol: &SymbolId, coid: &ClientOrderId, pooled: bool) -> (r: GateCall)
    ensures
        r@ == gate_cancel(symbol@, coid@, pooled),
{
    if pooled {
        return GateCall::Rpc { channel: "futures.order_cancel", param: cancel_param(coid) };
    }
    GateCall::Rest(
        RestCall {
            method: Method::Delete,
            path: "/api/v4/futures/usdt/orders".to_owned(),
            query: cancel_query(symbol, coid),
            body: None,
            lenient: true,
        },
    )
}

fn amend_call(symbol: &SymbolId, coid: &ClientOrderId, px: Px, qty: Qty, pooled: bool) -> (r: Result<
    GateCall,
    String,
>)
    ensures
        call_says(r) == gate_amend(symbol@, coid@, px, qty, pooled),
{
    if pooled {
        return rpc("futures.order_amend", amend_param(coid, px, qty));
    }
    Ok(GateCall::LookUp { symbol: symbol.clone(), coid: coid.clone(), px, qty })
}

fn cancel_all_call(symbol: &SymbolId, pooled: bool) -> (r: GateCall)
    ensures
        r@ == gate_cancel_all(symbol@, pooled),
{
    if pooled {
        return GateCall::Rpc { channel: "futures.order_cancel_cp", param: cancel_all_param(symbol) };
    }
    GateCall::Rest(
        RestCall {
            method: Method::Delete,
            path: "/api/v4/futures/usdt/orders".to_owned(),
            query: contract_query(symbol),
            body: None,
            lenient: false,
        },
    )
}

/// What goes out to Gate for what a strategy asks for.
pub fn gate_call(a: &Action, pooled: bool) -> (r: Option<Result<GateCall, String>>)
    ensures
        match r {
            Some(c) => gate_request(a@, pooled) == Some(call_says(c)),
            None => gate_request(a@, pooled) is None,
        },
{
    match a {
        Action::Place(req) => Some(place_call(req, pooled)),
        Action::Cancel { coid, symbol, .. } => Some(Ok(cancel_call(symbol, coid, pooled))),
        Action::Amend { coid, symbol, px, qty, .. } => Some(
            amend_call(symbol, coid, *px, *qty, pooled),
        ),
        Action::CancelAll { symbol, .. } => Some(Ok(cancel_all_call(symbol, pooled))),
        _ => None,
    }
}

/// The amendment of an order that was looked up among the open ones, by the id that the venue gave it.
pub open spec fn gate_amendment(
    orders: Seq<OrderRecord>,
    coid: Seq<char>,
    px: Px,
    qty: Qty,
) -> Result<RestCallV, Seq<char>> {
    let p = amend_place(orders, coid, 0);
    if p < orders.len() && orders[p].exchange_id is Some {
        match rest_amend_body(px, qty) {
            Some(b) => Ok(
                RestCallV {
                    method: Method::Put,
                    path: "/api/v4/futures/usdt/orders/"@ + orders[p].exchange_id->0@,
                    query: ""@,
                    body: Some(json_written(b)),
                    lenient: false,
                },
            ),
            None => Err(bad_size()),
        }
    } else {
        Err("gate amend: order not found"@)
    }
}

/// The amendment of an order that was looked up among the open ones.
pub fn gate_amend_call(orders: &Vec<OrderRecord>, coid: &ClientOrderId, px: Px, qty: Qty) -> (r: Result<
    RestCall,
    String,
>)
    ensures
        match r {
            Ok(c) => gate_amendment(orders@, coid@, px, qty) == Ok::<RestCallV, Seq<char>>(c@),
            Err(e) => gate_amendment(orders@, coid@, px, qty) == Err::<RestCallV, Seq<char>>(e@),
        },
{
    match amend_target(orders, coid) {
        Some(id) => match rest_amend(px, qty) {
            Some(b) => Ok(
                RestCall {
                    method: Method::Put,
                    path: cat2("/api/v4/futures/usdt/orders/", id.as_str()),
                    query: "".to_owned(),
                    body: Some(b),
                    lenient: false,
                },
            ),
            None => Err("gate size must be an integer contract count".to_owned()),
        },
        None => Err("gate amend: order not found".to_owned()),
    }
}

/// A request to Binance that is to be signed.
#[derive(Debug)]
pub struct FormCall {
    pub method: Method,
    pub path: &'static str,
    pub params: Params,
    pub body_empty: bool,
}

/// A `FormCall`.
#[verifier::ext_equal]
pub struct FormCallV {
    pub method: Method,
    pub path: Seq<char>,
    pub params: Seq<(Seq<char>, Seq<char>)>,
    pub body_empty: bool,
}

impl View for FormCall {
    type V = FormCallV;

    open spec fn view(&self) -> FormCallV {
        FormCallV {
            method: self.method,
            path: self.path@,
            params: self.params@,
            body_empty: self.body_empty,
        }
    }
}

/// What goes out to Binance.
#[derive(Debug)]
pub enum BinanceCall {
    Form(FormCall),
    /// An amendment, for which the order's side is to be looked up first.
    LookUp { symbol: SymbolId, coid: ClientOrderId, px: Px, qty: Qty },
}

/// What goes out to Binance.
#[verifier::ext_equal]
pub enum BinanceCallV {
    Form(FormCallV),
    LookUp { symbol: Seq<char>, coid: Seq<char>, px: Px, qty: Qty },
}

impl View for BinanceCall {
    type V = BinanceCallV;

    open spec fn view(&self) -> BinanceCallV {
        match self {
            BinanceCall::Form(c) => BinanceCallV::Form(c@),
            BinanceCall::LookUp { symbol, coid, px, qty } => BinanceCallV::LookUp {
                symbol: symbol@,
                coid: coid@,
                px: *px,
                qty: *qty,
            },
        }
    }
}

/// What is said of an order whose price or size is no number that can be written out.
pub open spec fn bad_number() -> Seq<char> {
    "price or size is no decimal"@
}

/// What goes out to Binance for what a strategy asks for. For anything but orders nothing goes out.
pub open spec fn binance_request(a: ActionV) -> Option<Result<BinanceCallV, Seq<char>>> {
    match a {
        ActionV::Place(req) => Some(
            match place_query(req) {
                Some(params) => Ok(
                    BinanceCallV::Form(
                        FormCallV {
                            method: Method::Post,
                            path: "/fapi/v1/order"@,
                            params,
                            body_empty: false,
                        },
                    ),
                ),
                None => Err(bad_number()),
            },
        ),
        ActionV::Cancel { coid, symbol, .. } => Some(
            Ok(
                BinanceCallV::Form(
                    FormCallV {
                        method: Method::Delete,
                        path: "/fapi/v1/order"@,
                        params: order_query(symbol, coid),
                        body_empty: true,
                    },
                ),
            ),
        ),
        ActionV::Amend { coid, symbol, px, qty, .. } => Some(
            Ok(BinanceCallV::LookUp { symbol, coid, px, qty }),
        ),
        ActionV::CancelAll { symbol, .. } => Some(
            Ok(
                BinanceCallV::Form(
                    FormCallV {
                        method: Method::Delete,
                        path: "/fapi/v1/allOpenOrders"@,
                        params: symbol_param(symbol),
                        body_empty: true,
                    },
                ),
            ),
        ),
        _ => None,
    }
}

/// What a request to Binance says.
pub open spec fn binance_said(r: Option<Result<BinanceCall, String>>) -> Option<
    Result<BinanceCallV, Seq<char>>,
> {
    match r {
        Some(Ok(c)) => Some(Ok(c@)),
        Some(Err(e)) => Some(Err(e@)),
        None => None,
    }
}

/// What goes out to Binance for what a strategy asks for.
pub fn binance_call(a: &Action) -> (r: Option<Result<BinanceCall, String>>)
    ensures
        binance_said(r) == binance_request(a@),
{
    match a {
        Action::Place(req) => match place_params(req) {
            Some(params) => Some(
                Ok(
                    BinanceCall::Form(
                        FormCall {
                            method: Method::Post,
                            path: "/fapi/v1/order",
                            params,
                            body_empty: false,
                        },
                    ),
                ),
            ),
            None => Some(Err("price or size is no decimal".to_owned())),
        },
        Action::Cancel { coid, symbol, .. } => Some(
            Ok(
                BinanceCall::Form(
                    FormCall {
                        method: Method::Delete,
                        path: "/fapi/v1/order",
                        params: order_params(symbol, coid),
                        body_empty: true,
                    },
                ),
            ),
        ),
        Action::Amend { coid, symbol, px, qty, .. } => Some(
            Ok(
                BinanceCall::LookUp {
                    symbol: symbol.clone(),
                    coid: coid.clone(),
                    px: *px,
                    qty: *qty,
                },
            ),
        ),
        Action::CancelAll { symbol, .. } => Some(
            Ok(
                BinanceCall::Form(
                    FormCall {
                        method: Method::Delete,
                        path: "/fapi/v1/allOpenOrders",
                        params: all_orders_params(symbol),
                        body_empty: true,
                    },
                ),
            ),
        ),
        _ => None,
    }
}

/// The amendment of an order whose side was looked up; a purchase where the venue did not say.
pub fn binance_amend_call(
    symbol: &SymbolId,
    coid: &ClientOrderId,
    px: Px,
    qty: Qty,
    side: Option<Side>,
) -> (r: Result<FormCall, String>)
    ensures
        match amend_query(symbol@, coid@, px, qty, side) {
            Some(params) => r matches Ok(c) && c@ == (FormCallV {
                method: Method::Put,
                path: "/fapi/v1/order"@,
                params,
                body_empty: false,
            }),
            None => r matches Err(e) && e@ == bad_number(),
        },
{
    match amend_params(symbol, coid, px, qty, side) {
        Some(params) => Ok(
            FormCall { method: Method::Put, path: "/fapi/v1/order", params, body_empty: false },
        ),
        None => Err("price or size is no decimal".to_owned()),
    }
}

/// The order whose outcome a strategy waits for once a request has gone out: that of a single order.
pub open spec fn awaited(a: ActionV) -> Option<Seq<char>> {
    match a {
        ActionV::Place(req) => Some(req.coid),
        ActionV::Cancel { coid, .. } => Some(coid),
        ActionV::Amend { coid, .. } => Some(coid),
        _ => None,
    }
}

/// The order whose outcome a strategy waits for once a request has gone out.
pub fn awaited_order(a: &Action) -> (r: Option<ClientOrderId>)
    ensures
        match r {
            Some(c) => awaited(a@) == Some(c@),
            None => awaited(a@) is None,
        },
{
    match a {
        Action::Place(req) => Some(req.coid.clone()),
        Action::Cancel { coid, .. } => Some(coid.clone()),
        Action::Amend { coid, .. } => Some(coid.clone()),
        _ => None,
    }
}

} // verus!
