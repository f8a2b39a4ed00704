//! What the venues are asked for.
use crate::exchange::binance;
use crate::exchange::calls::{
    binance_request, gate_amendment, gate_request, BinanceCallV, GateCallV,
};
use crate::exchange::gate;
use crate::exchange::gate_trade;
use crate::exchange::sign::{hmac256, sha512};
use crate::exchange::venue::{failed_as, native_of};
use crate::exchange::session::{wire_reaction, WireAction, WireEvent};
use crate::json::{int_said, json_written, Json, JsonV};
use crate::text::{digits, ends, holds, lowered};
use crate::types::action::ActionV;
use crate::types::decimal::{decimal_text, is_normalized, normal_form, Decimal};
use crate::types::ids::{Side, VenueId};
use crate::types::num::{Px, Qty};
use crate::types::order::{OrderRecord, OrderType, PlaceV, ReqResult, TimeInForce};
use vstd::prelude::*;

verus! {

/// An object says something under a key, and nothing else.
#[verifier::opaque]
pub open spec fn says_under(v: JsonV, key: Seq<char>, x: JsonV) -> bool {
    &&& v matches JsonV::Object(m) && m.contains((key, x))
    &&& forall|y: JsonV| #[trigger] (v->Object_0).contains((key, y)) ==> y == x
}

/// A price is written as a text that reads as the same number.
pub open spec fn writes_px(v: JsonV, px: Decimal) -> bool {
    says_under(v, "price"@, JsonV::Text(decimal_text(normal_form(px))))
}

/// What Gate is told of how long an order may stand.
pub open spec fn gate_says_tif(tif: TimeInForce, t: Seq<char>) -> bool {
    match tif {
        TimeInForce::PostOnly => t == "poc"@,
        TimeInForce::Ioc => t == "ioc"@,
        TimeInForce::Fok => t == "fok"@,
        TimeInForce::Gtc => t == "gtc"@,
    }
}

/// An order at Gate, whichever way it goes out: for the contract, under its id, only to reduce where it says so;
/// a market order at price zero and at once, any other at its price and for as long as it may stand.
pub open spec fn asks_gate_for(v: JsonV, req: PlaceV) -> bool {
    &&& says_under(v, "contract"@, JsonV::Text(native_of(VenueId::Gate, req.symbol)))
    &&& says_under(v, "text"@, JsonV::Text("t-"@ + req.coid))
    &&& says_under(v, "reduce_only"@, JsonV::Bool(req.reduce_only))
    &&& req.order_type == OrderType::Market ==> says_under(v, "price"@, JsonV::Text("0"@))
        && says_under(v, "tif"@, JsonV::Text("ioc"@))
    &&& req.order_type == OrderType::Limit ==> writes_px(v, req.px.0) && exists|t: Seq<char>|
        gate_says_tif(req.tif, t) && #[trigger] says_under(v, "tif"@, JsonV::Text(t))
}

proof fn lemma_gate_names()
    ensures
        "contract"@ != "size"@ && "contract"@ != "price"@ && "contract"@ != "tif"@ && "contract"@
            != "text"@ && "contract"@ != "reduce_only"@,
        "size"@ != "price"@ && "size"@ != "tif"@ && "size"@ != "text"@ && "size"@ != "reduce_only"@,
        "price"@ != "tif"@ && "price"@ != "text"@ && "price"@ != "reduce_only"@,
        "tif"@ != "text"@ && "tif"@ != "reduce_only"@,
        "text"@ != "reduce_only"@,
        "order_id"@ != "price"@ && "order_id"@ != "size"@,
{
    reveal_strlit("contract");
    reveal_strlit("size");
    reveal_strlit("price");
    reveal_strlit("tif");
    reveal_strlit("text");
    reveal_strlit("reduce_only");
    reveal_strlit("order_id");
    assert("contract"@.len() == 8 && "size"@.len() == 4 && "price"@.len() == 5 && "tif"@.len() == 3);
    assert("text"@.len() == 4 && "reduce_only"@.len() == 11 && "order_id"@.len() == 8);
    assert("size"@[0] == 's' && "text"@[0] == 't');
}

/// A member with a name of its own is what is said under that name.
proof fn lemma_own_name(v: JsonV, m: Seq<(Seq<char>, JsonV)>, i: int)
    requires
        v == JsonV::Object(m),
        0 <= i < m.len(),
        forall|j: int| 0 <= j < m.len() && j != i ==> (#[trigger] m[j]).0 != m[i].0,
    ensures
        says_under(v, m[i].0, m[i].1),
{
    reveal(says_under);
    assert(m.contains((m[i].0, m[i].1)));
    assert forall|y: JsonV| #[trigger] (v->Object_0).contains((m[i].0, y)) implies y == m[i].1 by {
        let j = choose|j: int| 0 <= j < m.len() && m[j] == (m[i].0, y);
        assert(j == i);
    }
}

/// An object with the six members of an order at Gate.
pub open spec fn order_object(
    contract: JsonV,
    size: JsonV,
    price: JsonV,
    tif: JsonV,
    text: JsonV,
    reduce_only: JsonV,
) -> JsonV {
    JsonV::Object(
        seq![
            ("contract"@, contract),
            ("size"@, size),
            ("price"@, price),
            ("tif"@, tif),
            ("text"@, text),
            ("reduce_only"@, reduce_only),
        ],
    )
}

/// Six members under the names of an order at Gate are what is said under those names.
proof fn lemma_place_members(
    contract: JsonV,
    size: JsonV,
    price: JsonV,
    tif: JsonV,
    text: JsonV,
    reduce_only: JsonV,
)
    ensures
        ({
            let v = order_object(contract, size, price, tif, text, reduce_only);
            &&& says_under(v, "contract"@, contract) && says_under(v, "size"@, size)
            &&& says_under(v, "price"@, price) && says_under(v, "tif"@, tif)
            &&& says_under(v, "text"@, text) && says_under(v, "reduce_only"@, reduce_only)
        }),
{
    let v = order_object(contract, size, price, tif, text, reduce_only);
    let m = v->Object_0;
    lemma_gate_names();
    assert(m[0] == ("contract"@, contract) && m[1] == ("size"@, size) && m[2] == ("price"@, price));
    assert(m[3] == ("tif"@, tif) && m[4] == ("text"@, text) && m[5] == ("reduce_only"@, reduce_only));
    lemma_own_name(v, m, 0);
    lemma_own_name(v, m, 1);
    lemma_own_name(v, m, 2);
    lemma_own_name(v, m, 3);
    lemma_own_name(v, m, 4);
    lemma_own_name(v, m, 5);
}

/// What an order at Gate asks for follows from its six members.
proof fn lemma_asks_gate(v: JsonV, req: PlaceV, tif: Seq<char>)
    requires
        says_under(v, "contract"@, JsonV::Text(native_of(VenueId::Gate, req.symbol))),
        says_under(v, "text"@, JsonV::Text("t-"@ + req.coid)),
        says_under(v, "reduce_only"@, JsonV::Bool(req.reduce_only)),
        req.order_type == OrderType::Market ==> says_under(v, "price"@, JsonV::Text("0"@)) && tif
            == "ioc"@,
        req.order_type == OrderType::Limit ==> says_under(
            v,
            "price"@,
            JsonV::Text(decimal_text(normal_form(req.px.0))),
        ) && gate_says_tif(req.tif, tif),
        says_under(v, "tif"@, JsonV::Text(tif)),
    ensures
        asks_gate_for(v, req),
{
}

/// An order that goes out to Gate over HTTP asks for what the strategy wants: a buy for its size, a sale for
/// its size with a minus.
pub proof fn law_gate_is_asked_for_the_order(req: PlaceV)
    requires
        req.qty.0.wf(),
        req.px.0.wf(),
    ensures
        gate::rest_place_body(req) matches Some(v) && {
            &&& asks_gate_for(v, req)
            &&& req.side == Side::Buy ==> says_under(v, "size"@, JsonV::Text(decimal_text(req.qty.0)))
            &&& req.side == Side::Sell ==> exists|d: Decimal|
                d.mantissa == -req.qty.0.mantissa && d.scale == req.qty.0.scale && #[trigger]
                says_under(v, "size"@, JsonV::Text(decimal_text(d)))
        },
{
    let v = gate::rest_place_body(req)->0;
    let market = req.order_type == OrderType::Market;
    let price = if market {
        "0"@
    } else {
        decimal_text(normal_form(req.px.0))
    };
    let tif = if market {
        "ioc"@
    } else {
        gate_trade::tif_name(req.tif)
    };
    let contract = JsonV::Text(native_of(VenueId::Gate, req.symbol));
    let size = JsonV::Text(
        decimal_text(
            if req.side == Side::Sell {
                req.qty.0.negated()
            } else {
                req.qty.0
            },
        ),
    );
    let text = JsonV::Text("t-"@ + req.coid);
    let only = JsonV::Bool(req.reduce_only);
    assert(v == order_object(contract, size, JsonV::Text(price), JsonV::Text(tif), text, only));
    lemma_place_members(contract, size, JsonV::Text(price), JsonV::Text(tif), text, only);
    lemma_asks_gate(v, req, tif);
    if req.side == Side::Sell {
        let d = req.qty.0.negated();
        assert(d.mantissa == -req.qty.0.mantissa);
        assert(says_under(v, "size"@, JsonV::Text(decimal_text(d))));
    }
}

/// An order that goes out to Gate over a trading connection asks for what the strategy wants: a buy for its
/// size in contracts, a sale for as many below nothing.
pub proof fn law_gate_connection_is_asked_for_the_order(req: PlaceV, n: i64)
    requires
        gate_trade::contracts_of(req.qty) == Some(n),
        n > i64::MIN,
        req.px.0.wf(),
    ensures
        gate_trade::place_body(req) matches Some(v) && {
            &&& asks_gate_for(v, req)
            &&& req.side == Side::Buy ==> says_under(v, "size"@, int_said(n))
            &&& req.side == Side::Sell ==> says_under(v, "size"@, int_said((-n) as i64))
        },
{
    let v = gate_trade::place_body(req)->0;
    let market = req.order_type == OrderType::Market;
    let price = if market {
        "0"@
    } else {
        decimal_text(normal_form(req.px.0))
    };
    let tif = if market {
        "ioc"@
    } else {
        gate_trade::tif_name(req.tif)
    };
    let contract = JsonV::Text(native_of(VenueId::Gate, req.symbol));
    let size = int_said(
        if req.side == Side::Sell {
            (-n) as i64
        } else {
            n
        },
    );
    let text = JsonV::Text("t-"@ + req.coid);
    let only = JsonV::Bool(req.reduce_only);
    assert(v == order_object(contract, size, JsonV::Text(price), JsonV::Text(tif), text, only));
    lemma_place_members(contract, size, JsonV::Text(price), JsonV::Text(tif), text, only);
    lemma_asks_gate(v, req, tif);
}

/// An amendment at Gate over a trading connection asks for the new price and the new size of the order of
/// that id.
pub proof fn law_gate_amends_what_is_meant(coid: Seq<char>, px: Px, qty: Qty, n: i64)
    requires
        px.0.wf(),
        gate_trade::contracts_of(qty) == Some(n),
    ensures
        gate_trade::amend_body(coid, px, qty) matches Some(v) && says_under(
            v,
            "order_id"@,
            JsonV::Text("t-"@ + coid),
        ) && writes_px(v, px.0) && says_under(v, "size"@, int_said(n)),
{
    lemma_gate_names();
    let v = gate_trade::amend_body(coid, px, qty)->0;
    let m = v->Object_0;
    assert(m.len() == 3 && m[0].0 == "order_id"@ && m[1].0 == "price"@ && m[2].0 == "size"@);
    lemma_own_name(v, m, 0);
    lemma_own_name(v, m, 1);
    lemma_own_name(v, m, 2);
}

/// An amendment at Gate over HTTP asks for the new price and the new size.
pub proof fn law_gate_amends_over_http(px: Px, qty: Qty)
    requires
        px.0.wf(),
    ensures
        gate::rest_amend_body(px, qty) matches Some(v) && writes_px(v, px.0) && says_under(
            v,
            "size"@,
            JsonV::Text(decimal_text(qty.0)),
        ),
{
    lemma_gate_names();
    let v = gate::rest_amend_body(px, qty)->0;
    let m = v->Object_0;
    assert(m.len() == 2 && m[0].0 == "price"@ && m[1].0 == "size"@);
    lemma_own_name(v, m, 0);
    lemma_own_name(v, m, 1);
}

/// A cancellation at Gate names the order, and one of all orders the contract.
pub proof fn law_gate_cancels_what_is_meant(coid: Seq<char>, symbol: Seq<char>)
    ensures
        says_under(gate_trade::cancel_body(coid), "order_id"@, JsonV::Text("t-"@ + coid)),
        says_under(
            gate_trade::cancel_all_body(symbol),
            "contract"@,
            JsonV::Text(native_of(VenueId::Gate, symbol)),
        ),
{
    let c = gate_trade::cancel_body(coid);
    assert((c->Object_0).len() == 1);
    lemma_own_name(c, c->Object_0, 0);
    let d = gate_trade::cancel_all_body(symbol);
    assert((d->Object_0).len() == 1);
    lemma_own_name(d, d->Object_0, 0);
}

/// What a strategy asks for goes to Gate as what it is: a new order is placed, one that is taken back is
/// cancelled, one that is moved amended; anything but orders goes nowhere.
pub proof fn law_gate_gets_what_was_asked(a: ActionV, pooled: bool)
    ensures
        match a {
            ActionV::Place(req) => match gate_request(a, pooled) {
                Some(Ok(GateCallV::Rpc { channel, param })) => pooled && channel
                    == "futures.order_place"@ && gate_trade::place_body(req) == Some(param),
                Some(Ok(GateCallV::Rest(r))) => !pooled && r.method == binance::Method::Post && r.path
                    == "/api/v4/futures/usdt/orders"@ && (gate::rest_place_body(req) matches Some(b)
                    && r.body == Some(json_written(b))),
                Some(Err(_)) => (pooled ==> gate_trade::place_body(req) is None) && (!pooled
                    ==> gate::rest_place_body(req) is None),
                _ => false,
            },
            ActionV::Cancel { coid, symbol, .. } => match gate_request(a, pooled) {
                Some(Ok(GateCallV::Rpc { channel, param })) => pooled && channel
                    == "futures.order_cancel"@ && param == gate_trade::cancel_body(coid),
                Some(Ok(GateCallV::Rest(r))) => !pooled && r.method == binance::Method::Delete
                    && r.path == "/api/v4/futures/usdt/orders"@ && r.query == "contract="@ + native_of(
                    VenueId::Gate,
                    symbol,
                ) + "&text=t-"@ + coid && r.body is None,
                _ => false,
            },
            ActionV::Amend { coid, symbol, px, qty, .. } => match gate_request(a, pooled) {
                Some(Ok(GateCallV::Rpc { channel, param })) => pooled && channel
                    == "futures.order_amend"@ && gate_trade::amend_body(coid, px, qty) == Some(param),
                Some(Ok(GateCallV::LookUp { symbol: s, coid: c, px: p, qty: q })) => !pooled && s
                    == symbol && c == coid && p == px && q == qty,
                Some(Err(_)) => pooled && gate_trade::amend_body(coid, px, qty) is None,
                _ => false,
            },
            ActionV::CancelAll { symbol, .. } => match gate_request(a, pooled) {
                Some(Ok(GateCallV::Rpc { channel, param })) => pooled && channel
                    == "futures.order_cancel_cp"@ && param == gate_trade::cancel_all_body(symbol),
                Some(Ok(GateCallV::Rest(r))) => !pooled && r.method == binance::Method::Delete
                    && r.path == "/api/v4/futures/usdt/orders"@ && r.query == "contract="@ + native_of(
                    VenueId::Gate,
                    symbol,
                ) && r.body is None,
                _ => false,
            },
            _ => gate_request(a, pooled) is None,
        },
{
}

/// A parameter has a value, and no other.
pub open spec fn has(p: Seq<(Seq<char>, Seq<char>)>, k: Seq<char>, v: Seq<char>) -> bool {
    p.contains((k, v)) && forall|w: Seq<char>| #[trigger] p.contains((k, w)) ==> w == v
}

/// A parameter has no value.
pub open spec fn lacks(p: Seq<(Seq<char>, Seq<char>)>, k: Seq<char>) -> bool {
    forall|w: Seq<char>| !#[trigger] p.contains((k, w))
}

/// A parameter that was set has the value that it was set to, and every other keeps its own.
pub proof fn law_params_hold_what_was_set(
    p: Seq<(Seq<char>, Seq<char>)>,
    k: Seq<char>,
    v: Seq<char>,
)
    requires
        binance::in_order(p),
    ensures
        binance::in_order(binance::param_put(p, k, v)),
        has(binance::param_put(p, k, v), k, v),
        forall|other: Seq<char>, w: Seq<char>|
            other != k ==> (#[trigger] binance::param_put(p, k, v).contains((other, w))
                <==> p.contains((other, w))),
{
    let t = binance::param_put(p, k, v);
    binance::law_params_stay_in_order(p, k, v);
    let i = binance::param_place(p, k, 0);
    binance::lemma_param_place(p, k, 0);
    assert(t[i] == (k, v));
    assert forall|w: Seq<char>| #[trigger] t.contains((k, w)) implies w == v by {
        let j = choose|j: int| 0 <= j < t.len() && t[j] == (k, w);
        if j < i {
            assert(crate::text::text_before(t[j].0, t[i].0));
            crate::text::lemma_text_irreflexive(k);
        } else if i < j {
            assert(crate::text::text_before(t[i].0, t[j].0));
            crate::text::lemma_text_irreflexive(k);
        }
    }
    assert forall|other: Seq<char>, w: Seq<char>| other != k implies (#[trigger] t.contains(
        (other, w),
    ) <==> p.contains((other, w))) by {
        if t.contains((other, w)) {
            let j = choose|j: int| 0 <= j < t.len() && t[j] == (other, w);
            if i < p.len() && p[i].0 == k {
                assert(p[j] == (other, w));
            } else if j < i {
                assert(p[j] == (other, w));
            } else {
                assert(p[j - 1] == (other, w));
            }
        }
        if p.contains((other, w)) {
            let j = choose|j: int| 0 <= j < p.len() && p[j] == (other, w);
            if i < p.len() && p[i].0 == k {
                assert(t[j] == (other, w));
            } else if j < i {
                assert(t[j] == (other, w));
            } else {
                assert(t[j + 1] == (other, w));
            }
        }
    }
}

/// What Binance is told of how long an order may stand.
pub open spec fn binance_says_tif(tif: TimeInForce, t: Seq<char>) -> bool {
    match tif {
        TimeInForce::PostOnly => t == "GTX"@,
        TimeInForce::Ioc => t == "IOC"@,
        TimeInForce::Fok => t == "FOK"@,
        TimeInForce::Gtc => t == "GTC"@,
    }
}

proof fn lemma_binance_names()
    ensures
        "symbol"@ != "side"@ && "symbol"@ != "type"@ && "symbol"@ != "price"@ && "symbol"@
            != "timeInForce"@ && "symbol"@ != "quantity"@ && "symbol"@ != "newClientOrderId"@
            && "symbol"@ != "reduceOnly"@ && "symbol"@ != "origClientOrderId"@,
        "side"@ != "type"@ && "side"@ != "price"@ && "side"@ != "timeInForce"@ && "side"@
            != "quantity"@ && "side"@ != "newClientOrderId"@ && "side"@ != "reduceOnly"@ && "side"@
            != "origClientOrderId"@,
        "type"@ != "price"@ && "type"@ != "timeInForce"@ && "type"@ != "quantity"@ && "type"@
            != "newClientOrderId"@ && "type"@ != "reduceOnly"@,
        "price"@ != "timeInForce"@ && "price"@ != "quantity"@ && "price"@ != "newClientOrderId"@
            && "price"@ != "reduceOnly"@ && "price"@ != "origClientOrderId"@,
        "timeInForce"@ != "quantity"@ && "timeInForce"@ != "newClientOrderId"@ && "timeInForce"@
            != "reduceOnly"@,
        "quantity"@ != "newClientOrderId"@ && "quantity"@ != "reduceOnly"@ && "quantity"@
            != "origClientOrderId"@,
        "newClientOrderId"@ != "reduceOnly"@,
{
    reveal_strlit("symbol");
    reveal_strlit("side");
    reveal_strlit("type");
    reveal_strlit("price");
    reveal_strlit("timeInForce");
    reveal_strlit("quantity");
    reveal_strlit("newClientOrderId");
    reveal_strlit("reduceOnly");
    reveal_strlit("origClientOrderId");
    assert("symbol"@.len() == 6 && "side"@.len() == 4 && "type"@.len() == 4 && "price"@.len() == 5);
    assert("timeInForce"@.len() == 11 && "quantity"@.len() == 8 && "newClientOrderId"@.len() == 16);
    assert("reduceOnly"@.len() == 10 && "origClientOrderId"@.len() == 17);
    assert("side"@[0] == 's' && "type"@[0] == 't');
}

/// An order that goes out to Binance asks for what the strategy wants: for the symbol, under its id, on its
/// side, for its size, only to reduce where it says so; a limit order at its price and for as long as it may
/// stand, a market order without either.
pub proof fn law_binance_is_asked_for_the_order(req: PlaceV)
    requires
        req.qty.0.wf(),
        req.px.0.wf(),
    ensures
        binance::place_query(req) matches Some(p) && {
            &&& has(p, "symbol"@, native_of(VenueId::Binance, req.symbol))
            &&& req.side == Side::Buy ==> has(p, "side"@, "BUY"@)
            &&& req.side == Side::Sell ==> has(p, "side"@, "SELL"@)
            &&& has(p, "quantity"@, decimal_text(normal_form(req.qty.0)))
            &&& has(p, "newClientOrderId"@, req.coid)
            &&& req.reduce_only ==> has(p, "reduceOnly"@, "true"@)
            &&& !req.reduce_only ==> lacks(p, "reduceOnly"@)
            &&& req.order_type == OrderType::Market ==> has(p, "type"@, "MARKET"@) && lacks(
                p,
                "price"@,
            ) && lacks(p, "timeInForce"@)
            &&& req.order_type == OrderType::Limit ==> has(p, "type"@, "LIMIT"@) && has(
                p,
                "price"@,
                decimal_text(normal_form(req.px.0)),
            ) && exists|t: Seq<char>|
                binance_says_tif(req.tif, t) && #[trigger] has(p, "timeInForce"@, t)
        },
{
    lemma_binance_names();
    let e = Seq::<(Seq<char>, Seq<char>)>::empty();
    let market = req.order_type == OrderType::Market;
    let kind = if market {
        "MARKET"@
    } else {
        "LIMIT"@
    };
    law_params_hold_what_was_set(e, "symbol"@, native_of(VenueId::Binance, req.symbol));
    let s = binance::symbol_param(req.symbol);
    law_params_hold_what_was_set(s, "side"@, binance::side_name(req.side));
    let a = binance::param_put(s, "side"@, binance::side_name(req.side));
    law_params_hold_what_was_set(a, "type"@, kind);
    let b = binance::param_put(a, "type"@, kind);
    let price = decimal_text(normal_form(req.px.0));
    let tif = binance::tif_name(req.tif);
    law_params_hold_what_was_set(b, "price"@, price);
    let b1 = binance::param_put(b, "price"@, price);
    law_params_hold_what_was_set(b1, "timeInForce"@, tif);
    let c = if market {
        b
    } else {
        binance::param_put(b1, "timeInForce"@, tif)
    };
    let quantity = decimal_text(normal_form(req.qty.0));
    law_params_hold_what_was_set(c, "quantity"@, quantity);
    let c1 = binance::param_put(c, "quantity"@, quantity);
    law_params_hold_what_was_set(c1, "newClientOrderId"@, req.coid);
    let d = binance::param_put(c1, "newClientOrderId"@, req.coid);
    law_params_hold_what_was_set(d, "reduceOnly"@, "true"@);
    let p = binance::place_query(req)->0;
    if !market {
        assert(binance_says_tif(req.tif, tif) && has(p, "timeInForce"@, tif));
    }
}

/// An amendment at Binance asks for the new price and size of the order of that id, on the side that the
/// venue keeps it on, or a buy where that is not known.
pub proof fn law_binance_amends_what_is_meant(
    symbol: Seq<char>,
    coid: Seq<char>,
    px: Px,
    qty: Qty,
    side: Option<Side>,
)
    requires
        qty.0.wf(),
        px.0.wf(),
    ensures
        binance::amend_query(symbol, coid, px, qty, side) matches Some(p) && {
            &&& has(p, "symbol"@, native_of(VenueId::Binance, symbol))
            &&& has(p, "origClientOrderId"@, coid)
            &&& has(p, "side"@, if side == Some(Side::Sell) {
                "SELL"@
            } else {
                "BUY"@
            })
            &&& has(p, "quantity"@, decimal_text(normal_form(qty.0)))
            &&& has(p, "price"@, decimal_text(normal_form(px.0)))
        },
        has(binance::order_query(symbol, coid), "symbol"@, native_of(VenueId::Binance, symbol)),
        has(binance::order_query(symbol, coid), "origClientOrderId"@, coid),
        has(binance::symbol_param(symbol), "symbol"@, native_of(VenueId::Binance, symbol)),
{
    lemma_binance_names();
    let e = Seq::<(Seq<char>, Seq<char>)>::empty();
    law_params_hold_what_was_set(e, "symbol"@, native_of(VenueId::Binance, symbol));
    let s = binance::symbol_param(symbol);
    law_params_hold_what_was_set(s, "origClientOrderId"@, coid);
    let o = binance::order_query(symbol, coid);
    let name = binance::side_name(
        match side {
            Some(x) => x,
            None => Side::Buy,
        },
    );
    law_params_hold_what_was_set(o, "side"@, name);
    let a = binance::param_put(o, "side"@, name);
    let quantity = decimal_text(normal_form(qty.0));
    law_params_hold_what_was_set(a, "quantity"@, quantity);
    let b = binance::param_put(a, "quantity"@, quantity);
    law_params_hold_what_was_set(b, "price"@, decimal_text(normal_form(px.0)));
}

/// What a strategy asks for goes to Binance as what it is: a new order is placed, one that is taken back is
/// cancelled, one that is moved is looked up first; anything but orders goes nowhere.
pub proof fn law_binance_gets_what_was_asked(a: ActionV)
    ensures
        match a {
            ActionV::Place(req) => match binance_request(a) {
                Some(Ok(BinanceCallV::Form(f))) => f.method == binance::Method::Post && f.path
                    == "/fapi/v1/order"@ && binance::place_query(req) == Some(f.params),
                Some(Err(_)) => binance::place_query(req) is None,
                _ => false,
            },
            ActionV::Cancel { coid, symbol, .. } => match binance_request(a) {
                Some(Ok(BinanceCallV::Form(f))) => f.method == binance::Method::Delete && f.path
                    == "/fapi/v1/order"@ && f.params == binance::order_query(symbol, coid),
                _ => false,
            },
            ActionV::Amend { coid, symbol, px, qty, .. } => match binance_request(a) {
                Some(Ok(BinanceCallV::LookUp { symbol: s, coid: c, px: p, qty: q })) => s == symbol
                    && c == coid && p == px && q == qty,
                _ => false,
            },
            ActionV::CancelAll { symbol, .. } => match binance_request(a) {
                Some(Ok(BinanceCallV::Form(f))) => f.method == binance::Method::Delete && f.path
                    == "/fapi/v1/allOpenOrders"@ && f.params == binance::symbol_param(symbol),
                _ => false,
            },
            _ => binance_request(a) is None,
        },
{
}

/// A number that is written to a venue is the same number, without trailing zeros.
pub proof fn law_written_numbers_are_the_same(d: Decimal, r: Decimal)
    requires
        is_normalized(d, r),
    ensures
        normal_form(d) == r,
        r.is_same(d),
{
    crate::types::decimal::lemma_normal_unique(d, r, normal_form(d));
    let g = crate::types::decimal::pow10((d.scale - r.scale) as nat);
    let p = crate::types::decimal::pow10(r.scale as nat);
    vstd::arithmetic::power::lemma_pow_adds(10, (d.scale - r.scale) as nat, r.scale as nat);
    assert(r.mantissa * (g * p) == (r.mantissa * g) * p) by (nonlinear_arith);
}

/// A signed query is the query, its signature under the secret, and nothing else; the query holds all that was
/// set, the time and the window.
pub proof fn law_signature_covers_the_query(
    secret: Seq<char>,
    p: Seq<(Seq<char>, Seq<char>)>,
    now_ms: nat,
)
    requires
        binance::in_order(p),
        lacks(p, "timestamp"@),
        lacks(p, "recvWindow"@),
    ensures
        exists|full: Seq<(Seq<char>, Seq<char>)>| #[trigger]
            has(full, "timestamp"@, digits(now_ms)) && has(full, "recvWindow"@, "5000"@) && (forall|
                k: Seq<char>,
                v: Seq<char>,
            |
                p.contains((k, v)) ==> #[trigger] full.contains((k, v))) && binance::signed_text(
                secret,
                p,
                now_ms,
            ) == binance::query_of(full) + "&signature="@ + hmac256(secret, binance::query_of(full)),
{
    reveal_strlit("timestamp");
    reveal_strlit("recvWindow");
    assert("timestamp"@.len() == 9 && "recvWindow"@.len() == 10);
    let a = binance::param_put(p, "timestamp"@, digits(now_ms));
    law_params_hold_what_was_set(p, "timestamp"@, digits(now_ms));
    lemma_default(p, "timestamp"@, digits(now_ms));
    assert(lacks(a, "recvWindow"@));
    let full = binance::param_put(a, "recvWindow"@, "5000"@);
    law_params_hold_what_was_set(a, "recvWindow"@, "5000"@);
    lemma_default(a, "recvWindow"@, "5000"@);
    assert(has(full, "timestamp"@, digits(now_ms)));
    assert forall|k: Seq<char>, v: Seq<char>| p.contains((k, v)) implies #[trigger] full.contains(
        (k, v),
    ) by {
        assert(k != "timestamp"@ && k != "recvWindow"@);
        assert(a.contains((k, v)));
    }
}

proof fn lemma_default(p: Seq<(Seq<char>, Seq<char>)>, k: Seq<char>, v: Seq<char>)
    requires
        lacks(p, k),
    ensures
        binance::param_default(p, k, v) == binance::param_put(p, k, v),
{
    let i = binance::param_place(p, k, 0);
    binance::lemma_param_place(p, k, 0);
    if i < p.len() && p[i].0 == k {
        assert(p.contains((k, p[i].1)));
    }
}

/// What a request to Gate is signed with names, line by line, the method, the path, the query, the digest of the
/// body and the time.
pub proof fn law_gate_signs_the_request(
    method: Seq<char>,
    path: Seq<char>,
    query: Seq<char>,
    body: Seq<char>,
    ts: u64,
)
    ensures
        gate::sign_message(method, path, query, body, ts) == method + "\n"@ + path + "\n"@ + query
            + "\n"@ + sha512(body) + "\n"@ + digits(ts as nat),
        gate_trade::login_message(path, query, ts) == "api\n"@ + path + "\n"@ + query + "\n"@ + digits(
            ts as nat,
        ),
{
}

/// A request whose end is not known may have reached the venue and is never taken as refused: one that timed out
/// or whose connection broke. Any other failure is a refusal.
pub proof fn law_lost_requests_are_not_refusals(msg: Seq<char>)
    ensures
        failed_as(msg) == ReqResult::Unknown <==> holds(msg, "timeout"@) || holds(msg, "disconnect"@),
        failed_as(msg) == ReqResult::Rejected <==> !holds(msg, "timeout"@) && !holds(
            msg,
            "disconnect"@,
        ),
{
}

/// A request is sent again only if it failed in a way that shows that it was not carried out.
pub proof fn law_only_unsent_requests_are_sent_again(msg: Seq<char>)
    ensures
        gate_trade::safe_to_retry(msg) <==> {
            ||| holds(lowered(msg), "not_sent"@)
            ||| holds(lowered(msg), "too_many"@)
            ||| holds(lowered(msg), "rate limit"@)
            ||| holds(lowered(msg), "ratelimit"@)
            ||| holds(msg, "311"@)
            ||| holds(msg, "312"@)
        },
{
}

/// A request over a trading connection that has waited for more than ten seconds is given up, and no other is.
pub proof fn law_long_waits_are_given_up(since_ms: u64, now_ms: u64)
    ensures
        gate_trade::given_up(since_ms, now_ms) <==> now_ms > since_ms + 10_000,
{
}

/// A connection that was closed or failed is made again, one that nobody needs any more is not; a text is handed on,
/// a ping is answered.
pub proof fn law_broken_connections_are_made_again(ev: WireEvent)
    ensures
        wire_reaction(ev) == WireAction::Reconnect <==> ev == WireEvent::Closed || ev
            == WireEvent::ReadFailed || ev == WireEvent::SendFailed,
        wire_reaction(ev) == WireAction::Stop <==> ev == WireEvent::OutgoingDone || ev
            == WireEvent::NobodyListens,
        wire_reaction(ev) == WireAction::Deliver <==> ev == WireEvent::Text,
        wire_reaction(ev) == WireAction::AnswerPing <==> ev == WireEvent::Ping,
        wire_reaction(ev) == WireAction::Send <==> ev == WireEvent::Outgoing,
{
}

/// An account at Gate is left alone where it can trade perpetuals, is made to where it is one of many currencies that
/// cannot, and is never changed where it is a classic one.
pub proof fn law_accounts_are_changed_only_to_trade(v: Json, mode: String)
    requires
        v.field("mode"@) == Some(Json::Text(mode)),
    ensures
        ({
            let on = v.field("settings"@) matches Some(s) && s.field("usdt_futures"@) == Some(
                Json::Bool(true),
            );
            let r = gate::unified_reaction(v);
            &&& r == gate::UnifiedStep::EnableFutures <==> mode@ == "multi_currency"@ && !on
            &&& mode@ == "multi_currency"@ && on ==> r == gate::UnifiedStep::Fine
            &&& mode@ == "portfolio"@ || mode@ == "single_currency"@ ==> r == gate::UnifiedStep::Fine
            &&& mode@ == "classic"@ ==> r == gate::UnifiedStep::Classic
        }),
{
    reveal_strlit("multi_currency");
    reveal_strlit("portfolio");
    reveal_strlit("single_currency");
    reveal_strlit("classic");
    assert("multi_currency"@.len() == 14 && "portfolio"@.len() == 9 && "single_currency"@.len() == 15
        && "classic"@.len() == 7);
}

proof fn lemma_query_push(
    p: Seq<(Seq<char>, Seq<char>)>,
    k: Seq<char>,
    v: Seq<char>,
    i: int,
    acc: Seq<char>,
)
    requires
        0 <= i <= p.len(),
    ensures
        binance::query_from(p.push((k, v)), i, acc) == (if p.len() == 0 {
            k + "="@ + v
        } else {
            binance::query_from(p, i, acc) + "&"@ + (k + "="@ + v)
        }),
    decreases p.len() - i,
{
    let more = p.push((k, v));
    if i < p.len() {
        assert(more[i] == p[i]);
        let one = p[i].0 + "="@ + p[i].1;
        let next = if i == 0 {
            one
        } else {
            acc + "&"@ + one
        };
        lemma_query_push(p, k, v, i + 1, next);
    } else {
        assert(more[i] == (k, v));
        let one = k + "="@ + v;
        let next = if i == 0 {
            one
        } else {
            acc + "&"@ + one
        };
        assert(binance::query_from(more, i + 1, next) == next);
    }
}

/// A query names each parameter, an equals sign and its value, one after the other with an ampersand between.
pub proof fn law_query_names_every_parameter(
    p: Seq<(Seq<char>, Seq<char>)>,
    k: Seq<char>,
    v: Seq<char>,
)
    ensures
        binance::query_of(Seq::empty()) == ""@,
        p.len() == 0 ==> binance::query_of(p.push((k, v))) == k + "="@ + v,
        p.len() > 0 ==> binance::query_of(p.push((k, v))) == binance::query_of(p) + "&"@ + (k + "="@ + v),
{
    lemma_query_push(p, k, v, 0, ""@);
}

proof fn lemma_frame_names()
    ensures
        "time"@ != "channel"@ && "time"@ != "event"@ && "time"@ != "payload"@ && "time"@ != "auth"@,
        "channel"@ != "event"@ && "channel"@ != "payload"@ && "channel"@ != "auth"@,
        "event"@ != "payload"@ && "event"@ != "auth"@ && "payload"@ != "auth"@,
        "req_id"@ != "req_param"@,
{
    reveal_strlit("time");
    reveal_strlit("channel");
    reveal_strlit("event");
    reveal_strlit("payload");
    reveal_strlit("auth");
    reveal_strlit("req_id");
    reveal_strlit("req_param");
    assert("time"@.len() == 4 && "channel"@.len() == 7 && "event"@.len() == 5);
    assert("payload"@.len() == 7 && "auth"@.len() == 4 && "req_id"@.len() == 6 && "req_param"@.len() == 9);
    assert("time"@[0] == 't' && "auth"@[0] == 'a' && "channel"@[0] == 'c' && "payload"@[0] == 'p');
}

/// A request over a trading connection names its channel, and in its payload its own id and what is asked for.
pub proof fn law_frames_carry_the_request(
    channel: Seq<char>,
    req_id: Seq<char>,
    param: JsonV,
    ts: u64,
)
    ensures
        exists|payload: JsonV| #[trigger]
            says_under(gate_trade::request_body(channel, req_id, Some(param), ts), "payload"@, payload)
                && says_under(payload, "req_id"@, JsonV::Text(req_id)) && says_under(
                payload,
                "req_param"@,
                param,
            ),
        says_under(
            gate_trade::request_body(channel, req_id, Some(param), ts),
            "channel"@,
            JsonV::Text(channel),
        ),
        says_under(
            gate_trade::request_body(channel, req_id, Some(param), ts),
            "event"@,
            JsonV::Text("api"@),
        ),
{
    lemma_frame_names();
    let v = gate_trade::request_body(channel, req_id, Some(param), ts);
    let m = v->Object_0;
    assert(m.len() == 4 && m[0].0 == "time"@ && m[1].0 == "channel"@ && m[2].0 == "event"@ && m[3].0
        == "payload"@);
    lemma_own_name(v, m, 1);
    lemma_own_name(v, m, 2);
    lemma_own_name(v, m, 3);
    let p = m[3].1;
    let w = p->Object_0;
    assert(w.len() == 2 && w[0] == ("req_id"@, JsonV::Text(req_id)) && w[1] == ("req_param"@, param));
    lemma_own_name(p, w, 0);
    lemma_own_name(p, w, 1);
    assert(says_under(v, "payload"@, p));
}

proof fn lemma_amend_place(v: Seq<OrderRecord>, coid: Seq<char>, i: int)
    requires
        0 <= i <= v.len(),
    ensures
        i <= gate::amend_place(v, coid, i) <= v.len(),
        gate::amend_place(v, coid, i) < v.len() ==> ends(v[gate::amend_place(v, coid, i)].coid@, coid),
        forall|j: int| i <= j < gate::amend_place(v, coid, i) ==> !ends((#[trigger] v[j]).coid@, coid),
    decreases v.len() - i,
{
    if i < v.len() && !ends(v[i].coid@, coid) {
        lemma_amend_place(v, coid, i + 1);
    }
}

/// An amendment over HTTP goes to an open order whose id ends in the one meant, under the number that the venue keeps
/// it by, and asks for the new price and size; where no such order is open it fails.
pub proof fn law_amendments_find_their_order(orders: Seq<OrderRecord>, coid: Seq<char>, px: Px, qty: Qty)
    ensures
        match gate_amendment(orders, coid, px, qty) {
            Ok(c) => exists|i: int|
                0 <= i < orders.len() && ends((#[trigger] orders[i]).coid@, coid) && (
                orders[i].exchange_id matches Some(id) && c.path == "/api/v4/futures/usdt/orders/"@ + id@)
                    && c.method == binance::Method::Put && (gate::rest_amend_body(px, qty) matches Some(b)
                    && c.body == Some(json_written(b))),
            Err(_) => !px.0.wf() || exists|i: int|
                0 <= i <= orders.len() && (i < orders.len() ==> orders[i].exchange_id is None) && forall|j: int|
                    0 <= j < i ==> !ends((#[trigger] orders[j]).coid@, coid),
        },
{
    lemma_amend_place(orders, coid, 0);
    let p = gate::amend_place(orders, coid, 0);
    if p < orders.len() {
        assert(ends(orders[p].coid@, coid));
    }
}

} // verus!
