//! Binance USDT perpetuals.
use crate::exchange::gate::{dec_or, decimal_or, id_text, number_text, opt_update, volumes_said};
use crate::exchange::gate_trade::plain_text;
use crate::exchange::sign::{hmac256, hmac_sha256_hex};
use crate::exchange::venue::{msgs, native_of, native_symbol, FeedError, PrivateMsg, PrivateV};
use crate::json::{
    add_member, json_read, json_written, no_members, object_json, read_json, text_json,
    texts_json, uint_json, uint_said, write_json, Json, JsonV,
};
use crate::text::{
    cat2, cat3, chars_of, digits, digits_text, ends, ends_with, is_before, lemma_text_order,
    lemma_text_total, lower_text, lowered, part, same_text, text_before,
};
use crate::types::book::{BookUpdate, BookV, TopOfBook};
use crate::types::decimal::{dec_one, dec_zero, decimal_parsed, decimal_text, normal_form, Decimal};
use crate::types::ids::{canonical, ClientOrderId, Side, SymbolId, VenueId};
use crate::types::instrument::{insts, ContractKind, InstV, Instrument, InstrumentStatus};
use crate::types::num::{Px, Qty};
use crate::types::order::{
    records, ExecKind, ExecReport, ExecV, OrderRecord, OrderRecordV, OrderType, PlaceReq,
    PlaceV, TimeInForce,
};
use crate::types::position::{poss, PosV, PositionSnapshot};
use crate::types::time::{clamp_i64, Ts};
use vstd::prelude::*;

verus! {

/// The parameters of a request, in order of their names.
#[derive(Debug)]
pub struct Params {
    pub list: Vec<(String, String)>,
}

impl View for Params {
    type V = Seq<(Seq<char>, Seq<char>)>;

    open spec fn view(&self) -> Seq<(Seq<char>, Seq<char>)> {
        self.list@.map_values(|e: (String, String)| (e.0@, e.1@))
    }
}

/// The first place from `i` on whose name does not stand before `k`.
pub open spec fn param_place(p: Seq<(Seq<char>, Seq<char>)>, k: Seq<char>, i: int) -> int
    decreases p.len() - i,
{
    if 0 <= i < p.len() && text_before(p[i].0, k) {
        param_place(p, k, i + 1)
    } else {
        i
    }
}

/// The parameters with another value under a name.
pub open spec fn param_put(p: Seq<(Seq<char>, Seq<char>)>, k: Seq<char>, v: Seq<char>) -> Seq<
    (Seq<char>, Seq<char>),
> {
    let i = param_place(p, k, 0);
    if i < p.len() && p[i].0 == k {
        p.update(i, (k, v))
    } else {
        p.insert(i, (k, v))
    }
}

/// The parameters with a value under a name that has none yet.
pub open spec fn param_default(p: Seq<(Seq<char>, Seq<char>)>, k: Seq<char>, v: Seq<char>) -> Seq<
    (Seq<char>, Seq<char>),
> {
    let i = param_place(p, k, 0);
    if i < p.len() && p[i].0 == k {
        p
    } else {
        p.insert(i, (k, v))
    }
}

/// The names stand in order, each once.
pub open spec fn in_order(p: Seq<(Seq<char>, Seq<char>)>) -> bool {
    forall|i: int, j: int|
        0 <= i < j < p.len() ==> text_before((#[trigger] p[i]).0, (#[trigger] p[j]).0)
}

pub proof fn lemma_param_place(p: Seq<(Seq<char>, Seq<char>)>, k: Seq<char>, i: int)
    requires
        0 <= i <= p.len(),
    ensures
        i <= param_place(p, k, i) <= p.len(),
        forall|j: int| i <= j < param_place(p, k, i) ==> text_before((#[trigger] p[j]).0, k),
        param_place(p, k, i) < p.len() ==> !text_before(p[param_place(p, k, i)].0, k),
    decreases p.len() - i,
{
    if i < p.len() && text_before(p[i].0, k) {
        lemma_param_place(p, k, i + 1);
    }
}

/// Parameters stay in order of their names, each name once, whatever is set.
pub proof fn law_params_stay_in_order(
    p: Seq<(Seq<char>, Seq<char>)>,
    k: Seq<char>,
    v: Seq<char>,
)
    requires
        in_order(p),
    ensures
        in_order(param_put(p, k, v)),
        in_order(param_default(p, k, v)),
{
    let i = param_place(p, k, 0);
    lemma_param_place(p, k, 0);
    let t = param_put(p, k, v);
    if i < p.len() && p[i].0 == k {
        assert forall|a: int, b: int| 0 <= a < b < t.len() implies text_before(
            (#[trigger] t[a]).0,
            (#[trigger] t[b]).0,
        ) by {
            assert(t[a].0 == p[a].0 && t[b].0 == p[b].0);
        }
    } else {
        if i < p.len() {
            lemma_text_total(p[i].0, k, 0);
        }
        let u = p.insert(i, (k, v));
        assert forall|a: int, b: int| 0 <= a < b < u.len() implies text_before(
            (#[trigger] u[a]).0,
            (#[trigger] u[b]).0,
        ) by {
            if b < i {
                assert(u[a] == p[a] && u[b] == p[b]);
            } else if b == i {
                assert(u[a] == p[a]);
            } else if a < i {
                assert(u[a] == p[a] && u[b] == p[b - 1]);
            } else if a == i {
                assert(u[b] == p[b - 1]);
                if b - 1 > i {
                    assert(text_before(p[i].0, p[b - 1].0));
                    lemma_text_order(k, p[i].0, p[b - 1].0);
                }
            } else {
                assert(u[a] == p[a - 1] && u[b] == p[b - 1]);
            }
        }
    }
}

impl Params {
    pub fn new() -> (r: Self)
        ensures
            r@ == Seq::<(Seq<char>, Seq<char>)>::empty(),
    {
        let r = Params { list: Vec::new() };
        assert(r@ =~= Seq::<(Seq<char>, Seq<char>)>::empty());
        r
    }

    fn place(&self, key: &str) -> (r: usize)
        ensures
            r == param_place(self@, key@, 0),
            r <= self.list@.len(),
    {
        let mut i: usize = 0;
        while i < self.list.len()
            invariant
                i <= self.list.len(),
                param_place(self@, key@, 0) == param_place(self@, key@, i as int),
            decreases self.list.len() - i,
        {
            if !is_before(&self.list[i].0, key) {
                return i;
            }
            i = i + 1;
        }
        i
    }

    /// Sets the value under a name.
    pub fn put(&mut self, key: &str, v: &str)
        ensures
            final(self)@ == param_put(old(self)@, key@, v@),
    {
        let i = self.place(key);
        let e = (key.to_owned(), v.to_owned());
        if i < self.list.len() && same_text(&self.list[i].0, key) {
            self.list.set(i, e);
            assert(self@ =~= old(self)@.update(i as int, (key@, v@)));
        } else {
            self.list.insert(i, e);
            assert(self@ =~= old(self)@.insert(i as int, (key@, v@)));
        }
    }

    /// Sets the value under a name that has none yet.
    pub fn put_default(&mut self, key: &str, v: &str)
        ensures
            final(self)@ == param_default(old(self)@, key@, v@),
    {
        let i = self.place(key);
        if !(i < self.list.len() && same_text(&self.list[i].0, key)) {
            let e = (key.to_owned(), v.to_owned());
            self.list.insert(i, e);
            assert(self@ =~= old(self)@.insert(i as int, (key@, v@)));
        }
    }
}

/// `acc` and the parameters from `i` on, written as a query.
pub open spec fn query_from(p: Seq<(Seq<char>, Seq<char>)>, i: int, acc: Seq<char>) -> Seq<char>
    decreases p.len() - i,
{
    if !(0 <= i < p.len()) {
        acc
    } else {
        let one = p[i].0 + "="@ + p[i].1;
        query_from(
            p,
            i + 1,
            if i == 0 {
                one
            } else {
                acc + "&"@ + one
            },
        )
    }
}

/// The parameters written as a query.
pub open spec fn query_of(p: Seq<(Seq<char>, Seq<char>)>) -> Seq<char> {
    query_from(p, 0, ""@)
}

pub fn join_query(params: &Params) -> (r: String)
    ensures
        r@ == query_of(params@),
{
    let mut acc = "".to_owned();
    let mut i: usize = 0;
    while i < params.list.len()
        invariant
            i <= params.list.len(),
            query_of(params@) == query_from(params@, i as int, acc@),
        decreases params.list.len() - i,
    {
        let one = cat3(&params.list[i].0, "=", &params.list[i].1);
        acc = if i == 0 {
            one
        } else {
            cat3(&acc, "&", &one)
        };
        i = i + 1;
    }
    acc
}

/// A query with its time, its window and its signature.
pub open spec fn signed_text(secret: Seq<char>, p: Seq<(Seq<char>, Seq<char>)>, now_ms: nat) -> Seq<
    char,
> {
    let timed = param_default(
        param_default(p, "timestamp"@, digits(now_ms)),
        "recvWindow"@,
        "5000"@,
    );
    let qs = query_of(timed);
    qs + "&signature="@ + hmac256(secret, qs)
}

/// A query with its time, its window and its signature.
pub fn signed_query(secret: &str, params: Params, now_ms: u64) -> (r: String)
    ensures
        r@ == signed_text(secret@, params@, now_ms as nat),
{
    let mut p = params;
    p.put_default("timestamp", &digits_text(now_ms));
    p.put_default("recvWindow", "5000");
    let qs = join_query(&p);
    let sig = hmac_sha256_hex(secret, &qs);
    cat3(&qs, "&signature=", &sig)
}

#[derive(Clone, Copy, Debug, PartialEq, Eq, Structural)]
pub enum Method {
    Get,
    Post,
    Put,
    Delete,
}

/// A request as it goes out: where to, and with what body, which is then a form.
#[derive(Debug)]
pub struct SignedRequest {
    pub url: String,
    pub body: Option<String>,
}

/// The query goes into the address, or into the body of a form; one that is put with a body goes
/// nowhere.
pub open spec fn in_address(method: Method, body_empty: bool) -> bool {
    method == Method::Get || method == Method::Delete || body_empty
}

pub fn signed_request(rest: &str, method: Method, path: &str, qs: String, body_empty: bool) -> (r:
    SignedRequest)
    ensures
        r.url@ == (if in_address(method, body_empty) {
            rest@ + path@ + "?"@ + qs@
        } else {
            rest@ + path@
        }),
        crate::text::opt_view(r.body) == (if method == Method::Post && !body_empty {
            Some(qs@)
        } else {
            None
        }),
{
    let base = cat2(rest, path);
    let url = if method == Method::Get || method == Method::Delete || body_empty {
        cat3(&base, "?", &qs)
    } else {
        base
    };
    let body = if method == Method::Post && !body_empty {
        Some(qs)
    } else {
        None
    };
    SignedRequest { url, body }
}

/// The stream of a symbol's best bid and ask.
pub fn book_stream(symbol: &SymbolId) -> (r: String)
    ensures
        r@ == lowered(native_of(VenueId::Binance, symbol@)) + "@bookTicker"@,
{
    cat2(&lower_text(&native_symbol(VenueId::Binance, symbol.as_str())), "@bookTicker")
}

/// The text without the endings that are `p`.
pub open spec fn without_tail(s: Seq<char>, p: Seq<char>) -> Seq<char>
    decreases s.len(),
{
    if p.len() > 0 && ends(s, p) {
        without_tail(s.take(s.len() - p.len()), p)
    } else {
        s
    }
}

/// The address of the stream of market data, without the part for combined streams.
pub open spec fn stream_address(md_ws: Seq<char>) -> Seq<char> {
    let base = without_tail(md_ws, "/stream"@);
    if ends(base, "/ws"@) {
        base
    } else {
        base + "/ws"@
    }
}

pub fn md_url(md_ws: &str) -> (r: String)
    ensures
        r@ == stream_address(md_ws@),
{
    proof {
        reveal_strlit("/stream");
    }
    let mut base = md_ws.to_owned();
    while ends_with(&base, "/stream")
        invariant
            "/stream"@.len() == 7,
            without_tail(md_ws@, "/stream"@) == without_tail(base@, "/stream"@),
        decreases base@.len(),
    {
        let c = chars_of(&base);
        base = part(&c, 0, c.len() - 7);
        assert(c@.subrange(0, c@.len() - 7) =~= c@.take(c@.len() - 7));
    }
    if ends_with(&base, "/ws") {
        base
    } else {
        cat2(&base, "/ws")
    }
}

/// The subscription to streams.
pub open spec fn subscription(streams: Seq<String>) -> JsonV {
    JsonV::Object(
        seq![
            ("method"@, JsonV::Text("SUBSCRIBE"@)),
            ("params"@, JsonV::List(streams.map_values(|s: String| JsonV::Text(s@)))),
            ("id"@, uint_said(1)),
        ],
    )
}

pub fn md_subscription(streams: &Vec<String>) -> (r: String)
    ensures
        r@ == json_written(subscription(streams@)),
{
    let mut b = no_members();
    add_member(&mut b, "method", text_json("SUBSCRIBE"));
    add_member(&mut b, "params", texts_json(streams));
    add_member(&mut b, "id", uint_json(1));
    let body = object_json(b);
    assert(body.says()->Object_0 =~= subscription(streams@)->Object_0);
    write_json(&body)
}

/// The name of a side.
pub open spec fn side_name(side: Side) -> Seq<char> {
    match side {
        Side::Buy => "BUY"@,
        Side::Sell => "SELL"@,
    }
}

fn side_text(side: Side) -> (r: &'static str)
    ensures
        r@ == side_name(side),
{
    match side {
        Side::Buy => "BUY",
        Side::Sell => "SELL",
    }
}

/// The name of a time in force.
pub open spec fn tif_name(tif: TimeInForce) -> Seq<char> {
    match tif {
        TimeInForce::PostOnly => "GTX"@,
        TimeInForce::Ioc => "IOC"@,
        TimeInForce::Fok => "FOK"@,
        TimeInForce::Gtc => "GTC"@,
    }
}

fn tif_text(tif: TimeInForce) -> (r: &'static str)
    ensures
        r@ == tif_name(tif),
{
    match tif {
        TimeInForce::PostOnly => "GTX",
        TimeInForce::Ioc => "IOC",
        TimeInForce::Fok => "FOK",
        TimeInForce::Gtc => "GTC",
    }
}

/// The symbol parameter.
pub open spec fn symbol_param(symbol: Seq<char>) -> Seq<(Seq<char>, Seq<char>)> {
    param_put(Seq::empty(), "symbol"@, native_of(VenueId::Binance, symbol))
}

/// What an order is asked for with. A market order has no price and no time in force. `None` where
/// price or size is no decimal of 96 bits.
pub open spec fn place_query(req: PlaceV) -> Option<Seq<(Seq<char>, Seq<char>)>> {
    let market = req.order_type == OrderType::Market;
    if !req.qty.0.wf() || (!market && !req.px.0.wf()) {
        None
    } else {
        let a = param_put(symbol_param(req.symbol), "side"@, side_name(req.side));
        let b = param_put(
            a,
            "type"@,
            if market {
                "MARKET"@
            } else {
                "LIMIT"@
            },
        );
        let c = if market {
            b
        } else {
            param_put(
                param_put(b, "price"@, decimal_text(normal_form(req.px.0))),
                "timeInForce"@,
                tif_name(req.tif),
            )
        };
        let d = param_put(
            param_put(c, "quantity"@, decimal_text(normal_form(req.qty.0))),
            "newClientOrderId"@,
            req.coid,
        );
        Some(
            if req.reduce_only {
                param_put(d, "reduceOnly"@, "true"@)
            } else {
                d
            },
        )
    }
}

fn symbol_params(symbol: &SymbolId) -> (r: Params)
    ensures
        r@ == symbol_param(symbol@),
{
    let mut p = Params::new();
    p.put("symbol", &native_symbol(VenueId::Binance, symbol.as_str()));
    p
}

/// What an order is asked for with. `None` where price or size is no decimal of 96 bits.
pub fn place_params(req: &PlaceReq) -> (r: Option<Params>)
    ensures
        match r {
            Some(p) => place_query(req@) == Some(p@),
            None => place_query(req@) is None,
        },
{
    let market = req.order_type == OrderType::Market;
    let mut p = symbol_params(&req.symbol);
    p.put("side", side_text(req.side));
    p.put(
        "type",
        if market {
            "MARKET"
        } else {
            "LIMIT"
        },
    );
    if !market {
        let price = plain_text(req.px.0)?;
        p.put("price", &price);
        p.put("timeInForce", tif_text(req.tif));
    }
    let quantity = plain_text(req.qty.0)?;
    p.put("quantity", &quantity);
    p.put("newClientOrderId", req.coid.as_str());
    if req.reduce_only {
        p.put("reduceOnly", "true");
    }
    Some(p)
}

/// What one order is meant with.
pub open spec fn order_query(symbol: Seq<char>, coid: Seq<char>) -> Seq<(Seq<char>, Seq<char>)> {
    param_put(symbol_param(symbol), "origClientOrderId"@, coid)
}

/// What one order is meant with, to cancel it or to ask about it.
pub fn order_params(symbol: &SymbolId, coid: &ClientOrderId) -> (r: Params)
    ensures
        r@ == order_query(symbol@, coid@),
{
    let mut p = symbol_params(symbol);
    p.put("origClientOrderId", coid.as_str());
    p
}

/// What all orders of a symbol are meant with.
pub fn all_orders_params(symbol: &SymbolId) -> (r: Params)
    ensures
        r@ == symbol_param(symbol@),
{
    symbol_params(symbol)
}

/// What an order is amended with. Its side is the one that the venue reports, and a buy where it
/// reports none. `None` where price or size is no decimal of 96 bits.
pub open spec fn amend_query(
    symbol: Seq<char>,
    coid: Seq<char>,
    px: Px,
    qty: Qty,
    side: Option<Side>,
) -> Option<Seq<(Seq<char>, Seq<char>)>> {
    if !px.0.wf() || !qty.0.wf() {
        None
    } else {
        let s = match side {
            Some(s) => s,
            None => Side::Buy,
        };
        let a = param_put(order_query(symbol, coid), "side"@, side_name(s));
        Some(
            param_put(
                param_put(a, "quantity"@, decimal_text(normal_form(qty.0))),
                "price"@,
                decimal_text(normal_form(px.0)),
            ),
        )
    }
}

/// What an order is amended with. `None` where price or size is no decimal of 96 bits.
pub fn amend_params(
    symbol: &SymbolId,
    coid: &ClientOrderId,
    px: Px,
    qty: Qty,
    side: Option<Side>,
) -> (r: Option<Params>)
    ensures
        match r {
            Some(p) => amend_query(symbol@, coid@, px, qty, side) == Some(p@),
            None => amend_query(symbol@, coid@, px, qty, side) is None,
        },
{
    let mut p = order_params(symbol, coid);
    let s = match side {
        Some(s) => s,
        None => Side::Buy,
    };
    p.put("side", side_text(s));
    let quantity = plain_text(qty.0)?;
    p.put("quantity", &quantity);
    let price = plain_text(px.0)?;
    p.put("price", &price);
    Some(p)
}

/// What the account is set to one-way positions with.
pub fn oneway_params() -> (r: Params)
    ensures
        r@ == param_put(Seq::empty(), "dualSidePosition"@, "false"@),
{
    let mut p = Params::new();
    p.put("dualSidePosition", "false");
    p
}

/// The key under which private streams are listened to.
pub fn listen_key(v: &Json) -> (r: Option<String>)
    ensures
        crate::text::opt_view(r) == v.text_at("listenKey"@),
{
    match v.get_text("listenKey") {
        Some(s) => Some(s.clone()),
        None => None,
    }
}

/// The kind of a contract; none where it is no perpetual.
pub open spec fn contract_kind(s: Json) -> Option<ContractKind> {
    let t = lowered(s.text_or("contractType"@, ""@));
    if t == lowered("TRADIFI_PERPETUAL"@) || s.text_at("underlyingType"@) == Some("STOCK"@) {
        Some(ContractKind::Stock)
    } else if t == lowered("PERPETUAL"@) {
        Some(ContractKind::Crypto)
    } else {
        None
    }
}

fn kind_of(s: &Json) -> (r: Option<ContractKind>)
    ensures
        r == contract_kind(*s),
{
    let t = lower_text(&s.get_text_or("contractType", ""));
    let stock = match s.get_text("underlyingType") {
        Some(u) => same_text(u, "STOCK"),
        None => false,
    };
    if same_text(&t, &lower_text("TRADIFI_PERPETUAL")) || stock {
        Some(ContractKind::Stock)
    } else if same_text(&t, &lower_text("PERPETUAL")) {
        Some(ContractKind::Crypto)
    } else {
        None
    }
}

/// The steps in which a symbol is traded.
#[derive(Clone, Copy, Debug)]
pub struct Steps {
    pub tick: Decimal,
    pub lot: Decimal,
    pub min_qty: Decimal,
    pub min_notional: Decimal,
}

/// A decimal that a text writes out, and what stands before it where there is no text.
pub open spec fn step_read(text: Option<Seq<char>>, before: Decimal) -> Option<Decimal> {
    match text {
        Some(t) => decimal_parsed(t),
        None => Some(before),
    }
}

/// The notional member of a filter, under either of its names.
pub open spec fn notional_text(f: Json) -> Option<Seq<char>> {
    match f.field("notional"@) {
        Some(v) => v.text_value(),
        None => f.text_at("minNotional"@),
    }
}

/// The steps after one filter.
pub open spec fn filter_applied(s: Steps, f: Json) -> Option<Steps> {
    let t = f.text_at("filterType"@);
    if t == Some("PRICE_FILTER"@) {
        match step_read(f.text_at("tickSize"@), s.tick) {
            Some(tick) => Some(Steps { tick, ..s }),
            None => None,
        }
    } else if t == Some("LOT_SIZE"@) {
        match (
            step_read(f.text_at("stepSize"@), s.lot),
            step_read(f.text_at("minQty"@), s.min_qty),
        ) {
            (Some(lot), Some(min_qty)) => Some(Steps { lot, min_qty, ..s }),
            _ => None,
        }
    } else if t == Some("MIN_NOTIONAL"@) {
        match step_read(notional_text(f), s.min_notional) {
            Some(min_notional) => Some(Steps { min_notional, ..s }),
            None => None,
        }
    } else {
        Some(s)
    }
}

/// The steps after the filters from `i` on.
pub open spec fn filters_from(v: Seq<Json>, i: int, s: Steps) -> Option<Steps>
    decreases v.len() - i,
{
    if !(0 <= i < v.len()) {
        Some(s)
    } else {
        match filter_applied(s, v[i]) {
            None => None,
            Some(next) => filters_from(v, i + 1, next),
        }
    }
}

/// The steps where no filter says otherwise.
pub open spec fn usual_steps() -> Steps {
    Steps {
        tick: Decimal { mantissa: 1, scale: 2 },
        lot: Decimal { mantissa: 1, scale: 3 },
        min_qty: Decimal { mantissa: 1, scale: 3 },
        min_notional: dec_zero(),
    }
}

/// The steps in which a symbol is traded.
pub open spec fn steps_of(s: Json) -> Option<Steps> {
    match s.list_at("filters"@) {
        Some(v) => filters_from(v, 0, usual_steps()),
        None => Some(usual_steps()),
    }
}

/// A symbol that is passed over: one that is not traded, has no name, or is no perpetual.
pub open spec fn passed_over(s: Json) -> bool {
    ||| s.text_or("status"@, ""@) != "TRADING"@
    ||| s.text_or("symbol"@, ""@).len() == 0
    ||| contract_kind(s) is None
}

/// The instrument that a symbol is.
pub open spec fn symbol_of(s: Json) -> Result<InstV, FeedError> {
    match steps_of(s) {
        None => Err(FeedError::BadDecimal),
        Some(st) => Ok(
            InstV {
                venue: VenueId::Binance,
                symbol: canonical(s.text_or("symbol"@, ""@)),
                native_symbol: s.text_or("symbol"@, ""@),
                tick_size: st.tick,
                lot_size: st.lot,
                contract_size: dec_one(),
                min_qty: st.min_qty,
                min_notional: st.min_notional,
                quote_ccy: s.text_or("quoteAsset"@, "USDT"@),
                maker_fee: Decimal { mantissa: 2, scale: 4 },
                taker_fee: Decimal { mantissa: 5, scale: 4 },
                kind: contract_kind(s)->0,
                status: InstrumentStatus::Trading,
                volume_24h: dec_zero(),
            },
        ),
    }
}

/// `acc` and the instruments of the symbols from `i` on.
pub open spec fn symbols_from(v: Seq<Json>, i: int, acc: Seq<InstV>) -> Result<Seq<InstV>, FeedError>
    decreases v.len() - i,
{
    if !(0 <= i < v.len()) {
        Ok(acc)
    } else if passed_over(v[i]) {
        symbols_from(v, i + 1, acc)
    } else {
        match symbol_of(v[i]) {
            Err(e) => Err(e),
            Ok(inst) => symbols_from(v, i + 1, acc.push(inst)),
        }
    }
}

fn read_step(text: Option<&String>, before: Decimal) -> (r: Option<Decimal>)
    ensures
        r == (match text {
            Some(t) => decimal_parsed(t@),
            None => Some(before),
        }),
{
    match text {
        Some(t) => Decimal::parse(t),
        None => Some(before),
    }
}

fn apply_filter(s: Steps, f: &Json) -> (r: Option<Steps>)
    ensures
        r == filter_applied(s, *f),
{
    let t = match f.get_text("filterType") {
        Some(t) => t,
        None => {
            return Some(s);
        },
    };
    if same_text(t, "PRICE_FILTER") {
        let tick = read_step(f.get_text("tickSize"), s.tick)?;
        Some(Steps { tick, ..s })
    } else if same_text(t, "LOT_SIZE") {
        let lot = read_step(f.get_text("stepSize"), s.lot)?;
        let min_qty = read_step(f.get_text("minQty"), s.min_qty)?;
        Some(Steps { lot, min_qty, ..s })
    } else if same_text(t, "MIN_NOTIONAL") {
        let text = match f.get("notional") {
            Some(v) => v.as_text(),
            None => f.get_text("minNotional"),
        };
        let min_notional = read_step(text, s.min_notional)?;
        Some(Steps { min_notional, ..s })
    } else {
        Some(s)
    }
}

fn read_steps(s: &Json) -> (r: Option<Steps>)
    ensures
        r == steps_of(*s),
{
    let lot = Decimal::new(1, 3);
    let mut steps = Steps {
        tick: Decimal::new(1, 2),
        lot,
        min_qty: lot,
        min_notional: Decimal::zero(),
    };
    let list = match s.get_list("filters") {
        Some(l) => l,
        None => {
            return Some(steps);
        },
    };
    let mut i: usize = 0;
    let ghost goal = filters_from(list@, 0, steps);
    while i < list.len()
        invariant
            i <= list.len(),
            steps_of(*s) == goal,
            goal == filters_from(list@, i as int, steps),
        decreases list.len() - i,
    {
        steps = apply_filter(steps, &list[i])?;
        i = i + 1;
    }
    Some(steps)
}

fn is_passed_over(s: &Json) -> (r: bool)
    ensures
        r == passed_over(*s),
{
    let name = s.get_text_or("symbol", "");
    let unnamed = same_text(&name, "");
    proof {
        reveal_strlit("");
        if name@.len() == 0 {
            assert(name@ =~= ""@);
        }
    }
    !same_text(&s.get_text_or("status", ""), "TRADING") || unnamed || kind_of(s).is_none()
}

fn read_symbol(s: &Json) -> (r: Result<Instrument, FeedError>)
    requires
        contract_kind(*s) is Some,
    ensures
        match r {
            Ok(inst) => symbol_of(*s) == Ok::<InstV, FeedError>(inst@),
            Err(e) => symbol_of(*s) == Err::<InstV, FeedError>(e),
        },
{
    let st = match read_steps(s) {
        Some(st) => st,
        None => {
            return Err(FeedError::BadDecimal);
        },
    };
    let native = s.get_text_or("symbol", "");
    let kind = match kind_of(s) {
        Some(k) => k,
        None => ContractKind::Other,
    };
    Ok(
        Instrument {
            venue: VenueId::Binance,
            symbol: SymbolId::new(&native),
            native_symbol: native,
            tick_size: st.tick,
            lot_size: st.lot,
            contract_size: Decimal::one(),
            min_qty: st.min_qty,
            min_notional: st.min_notional,
            quote_ccy: s.get_text_or("quoteAsset", "USDT"),
            maker_fee: Decimal::new(2, 4),
            taker_fee: Decimal::new(5, 4),
            kind,
            status: InstrumentStatus::Trading,
            volume_24h: Decimal::zero(),
        },
    )
}

/// The instruments of Binance's catalogue.
pub fn list_instruments(v: &Json) -> (r: Result<Vec<Instrument>, FeedError>)
    ensures
        match v.list_at("symbols"@) {
            None => r == Err::<Vec<Instrument>, FeedError>(FeedError::NotAList),
            Some(list) => match r {
                Ok(out) => symbols_from(list, 0, Seq::empty()) == Ok::<Seq<InstV>, FeedError>(
                    insts(out@),
                ),
                Err(e) => symbols_from(list, 0, Seq::empty()) == Err::<Seq<InstV>, FeedError>(e),
            },
        },
{
    let list = match v.get_list("symbols") {
        Some(l) => l,
        None => {
            return Err(FeedError::NotAList);
        },
    };
    let mut out: Vec<Instrument> = Vec::new();
    let mut i: usize = 0;
    let ghost goal = symbols_from(list@, 0, Seq::empty());
    assert(insts(out@) =~= Seq::<InstV>::empty());
    while i < list.len()
        invariant
            i <= list.len(),
            v.list_at("symbols"@) == Some(list@),
            goal == symbols_from(list@, 0, Seq::empty()),
            goal == symbols_from(list@, i as int, insts(out@)),
        decreases list.len() - i,
    {
        let s = &list[i];
        if !is_passed_over(s) {
            let inst = match read_symbol(s) {
                Ok(inst) => inst,
                Err(e) => {
                    return Err(e);
                },
            };
            let ghost before = out@;
            out.push(inst);
            assert(insts(out@) =~= insts(before).push(inst@));
        }
        i = i + 1;
    }
    Ok(out)
}

/// The symbol and the day's volume of a ticker.
pub open spec fn ticker_volume(t: Json) -> (Seq<char>, Decimal) {
    (
        canonical(t.text_or("symbol"@, ""@)),
        decimal_or(t.text_or("quoteVolume"@, "0"@), dec_zero()),
    )
}

/// The symbols and day's volumes of Binance's tickers; none where they are no list.
pub fn volumes(v: &Json) -> (r: Vec<(SymbolId, Decimal)>)
    ensures
        volumes_said(r@) == (match v.list_value() {
            Some(list) => list.map_values(|t: Json| ticker_volume(t)),
            None => Seq::empty(),
        }),
{
    let mut out: Vec<(SymbolId, Decimal)> = Vec::new();
    assert(volumes_said(out@) =~= Seq::<(Seq<char>, Decimal)>::empty());
    let list = match v.as_list() {
        Some(l) => l,
        None => {
            return out;
        },
    };
    let mut i: usize = 0;
    while i < list.len()
        invariant
            i <= list.len(),
            out@.len() == i,
            forall|j: int| 0 <= j < i ==> ((#[trigger] out@[j]).0@, out@[j].1) == ticker_volume(
                list@[j],
            ),
        decreases list.len() - i,
    {
        let t = &list[i];
        out.push(
            (
                SymbolId::new(&t.get_text_or("symbol", "")),
                dec_or(&t.get_text_or("quoteVolume", "0"), Decimal::zero()),
            ),
        );
        i = i + 1;
    }
    assert(volumes_said(out@) =~= list@.map_values(|t: Json| ticker_volume(t)));
    out
}

/// The side that a member names: a sale where it says so, and a purchase otherwise.
pub open spec fn side_at(o: Json, key: Seq<char>) -> Side {
    if o.text_at(key) == Some("SELL"@) {
        Side::Sell
    } else {
        Side::Buy
    }
}

fn get_side(o: &Json, key: &str) -> (r: Side)
    ensures
        r == side_at(*o, key@),
{
    match o.get_text(key) {
        Some(s) => if same_text(s, "SELL") {
            Side::Sell
        } else {
            Side::Buy
        },
        None => Side::Buy,
    }
}

/// The time of a member in milliseconds; the epoch where there is none.
pub open spec fn time_at(o: Json, key: Seq<char>) -> Ts {
    Ts(clamp_i64(o.int_or(key, 0) * 1_000_000) as i64)
}

fn get_time(o: &Json, key: &str) -> (r: Ts)
    ensures
        r == time_at(*o, key@),
{
    Ts::from_millis(o.get_int_or(key, 0))
}

/// The record of an open order.
pub open spec fn open_order(o: Json, symbol: Seq<char>) -> Option<OrderRecordV> {
    match (
        decimal_parsed(o.text_or("price"@, "0"@)),
        decimal_parsed(o.text_or("origQty"@, "0"@)),
        decimal_parsed(o.text_or("executedQty"@, "0"@)),
    ) {
        (Some(px), Some(qty), Some(filled)) => Some(
            OrderRecordV {
                coid: o.text_or("clientOrderId"@, ""@),
                strategy_id: ""@,
                venue: VenueId::Binance,
                symbol,
                side: side_at(o, "side"@),
                purpose: ""@,
                px: Px(px),
                qty: Qty(qty),
                filled_qty: Qty(filled),
                status: lowered(o.text_or("status"@, "NEW"@)),
                exchange_id: number_text(o.int_at("orderId"@)),
                reduce_only: o.bool_or("reduceOnly"@, false),
                created_at: time_at(o, "time"@),
                updated_at: time_at(o, "updateTime"@),
            },
        ),
        _ => None,
    }
}

/// `acc` and the records of the open orders from `i` on.
pub open spec fn orders_from(v: Seq<Json>, i: int, symbol: Seq<char>, acc: Seq<OrderRecordV>) -> Option<
    Seq<OrderRecordV>,
>
    decreases v.len() - i,
{
    if !(0 <= i < v.len()) {
        Some(acc)
    } else {
        match open_order(v[i], symbol) {
            None => None,
            Some(o) => orders_from(v, i + 1, symbol, acc.push(o)),
        }
    }
}

fn read_open_order(o: &Json, symbol: &SymbolId) -> (r: Option<OrderRecord>)
    ensures
        match r {
            Some(x) => open_order(*o, symbol@) == Some(x@),
            None => open_order(*o, symbol@) is None,
        },
{
    let px = Decimal::parse(&o.get_text_or("price", "0"))?;
    let qty = Decimal::parse(&o.get_text_or("origQty", "0"))?;
    let filled = Decimal::parse(&o.get_text_or("executedQty", "0"))?;
    Some(
        OrderRecord {
            coid: ClientOrderId(o.get_text_or("clientOrderId", "")),
            strategy_id: "".to_owned(),
            venue: VenueId::Binance,
            symbol: symbol.clone(),
            side: get_side(o, "side"),
            purpose: "".to_owned(),
            px: Px(px),
            qty: Qty(qty),
            filled_qty: Qty(filled),
            status: lower_text(&o.get_text_or("status", "NEW")),
            exchange_id: id_text(o.get_int("orderId")),
            reduce_only: o.get_bool_or("reduceOnly", false),
            created_at: get_time(o, "time"),
            updated_at: get_time(o, "updateTime"),
        },
    )
}

/// The open orders that Binance reports.
pub fn open_orders(v: &Json, symbol: &SymbolId) -> (r: Result<Vec<OrderRecord>, FeedError>)
    ensures
        match v.list_value() {
            None => r == Err::<Vec<OrderRecord>, FeedError>(FeedError::NotAList),
            Some(list) => match orders_from(list, 0, symbol@, Seq::empty()) {
                None => r == Err::<Vec<OrderRecord>, FeedError>(FeedError::BadDecimal),
                Some(all) => r matches Ok(out) && records(out@) == all,
            },
        },
{
    let list = match v.as_list() {
        Some(l) => l,
        None => {
            return Err(FeedError::NotAList);
        },
    };
    let mut out: Vec<OrderRecord> = Vec::new();
    let mut i: usize = 0;
    let ghost goal = orders_from(list@, 0, symbol@, Seq::empty());
    assert(records(out@) =~= Seq::<OrderRecordV>::empty());
    while i < list.len()
        invariant
            i <= list.len(),
            v.list_value() == Some(list@),
            goal == orders_from(list@, 0, symbol@, Seq::empty()),
            goal == orders_from(list@, i as int, symbol@, records(out@)),
        decreases list.len() - i,
    {
        let o = match read_open_order(&list[i], symbol) {
            Some(o) => o,
            None => {
                return Err(FeedError::BadDecimal);
            },
        };
        let ghost before = out@;
        out.push(o);
        assert(records(out@) =~= records(before).push(o@));
        i = i + 1;
    }
    Ok(out)
}

/// The position that a value is; none where it is flat. `Err` where a number is no decimal.
pub open spec fn position_of(p: Json, now: Ts) -> Result<Option<PosV>, FeedError> {
    match decimal_parsed(p.text_or("positionAmt"@, "0"@)) {
        None => Err(FeedError::BadDecimal),
        Some(amt) => if amt.zero_valued() {
            Ok(None)
        } else {
            match decimal_parsed(p.text_or("entryPrice"@, "0"@)) {
                None => Err(FeedError::BadDecimal),
                Some(px) => Ok(
                    Some(
                        PosV {
                            venue: VenueId::Binance,
                            symbol: canonical(p.text_or("symbol"@, ""@)),
                            net_qty: Qty(amt),
                            avg_px: Some(Px(px)),
                            ts: now,
                        },
                    ),
                ),
            }
        },
    }
}

/// `acc` and the positions of the values from `i` on.
pub open spec fn positions_from(v: Seq<Json>, i: int, now: Ts, acc: Seq<PosV>) -> Result<
    Seq<PosV>,
    FeedError,
>
    decreases v.len() - i,
{
    if !(0 <= i < v.len()) {
        Ok(acc)
    } else {
        match position_of(v[i], now) {
            Err(e) => Err(e),
            Ok(None) => positions_from(v, i + 1, now, acc),
            Ok(Some(p)) => positions_from(v, i + 1, now, acc.push(p)),
        }
    }
}

/// The positions that Binance reports, without flat ones.
pub fn positions(v: &Json, now: Ts) -> (r: Result<Vec<PositionSnapshot>, FeedError>)
    ensures
        match v.list_value() {
            None => r == Err::<Vec<PositionSnapshot>, FeedError>(FeedError::NotAList),
            Some(list) => match r {
                Ok(out) => positions_from(list, 0, now, Seq::empty()) == Ok::<Seq<PosV>, FeedError>(
                    poss(out@),
                ),
                Err(e) => positions_from(list, 0, now, Seq::empty()) == Err::<Seq<PosV>, FeedError>(
                    e,
                ),
            },
        },
{
    let list = match v.as_list() {
        Some(l) => l,
        None => {
            return Err(FeedError::NotAList);
        },
    };
    let mut out: Vec<PositionSnapshot> = Vec::new();
    let mut i: usize = 0;
    let ghost goal = positions_from(list@, 0, now, Seq::empty());
    assert(poss(out@) =~= Seq::<PosV>::empty());
    while i < list.len()
        invariant
            i <= list.len(),
            v.list_value() == Some(list@),
            goal == positions_from(list@, 0, now, Seq::empty()),
            goal == positions_from(list@, i as int, now, poss(out@)),
        decreases list.len() - i,
    {
        let p = &list[i];
        let amt = match Decimal::parse(&p.get_text_or("positionAmt", "0")) {
            Some(d) => d,
            None => {
                return Err(FeedError::BadDecimal);
            },
        };
        if !amt.is_zero() {
            let px = match Decimal::parse(&p.get_text_or("entryPrice", "0")) {
                Some(d) => d,
                None => {
                    return Err(FeedError::BadDecimal);
                },
            };
            let snap = PositionSnapshot {
                venue: VenueId::Binance,
                symbol: SymbolId::new(&p.get_text_or("symbol", "")),
                net_qty: Qty(amt),
                avg_px: Some(Px(px)),
                ts: now,
            };
            let ghost before = out@;
            out.push(snap);
            assert(poss(out@) =~= poss(before).push(snap@));
        }
        i = i + 1;
    }
    Ok(out)
}

/// A decimal of a member as a text, read loosely.
pub open spec fn loose_at(o: Json, key: Seq<char>) -> Option<Decimal> {
    match o.field(key) {
        Some(v) => v.loose_decimal(),
        None => None,
    }
}

fn get_loose(o: &Json, key: &str) -> (r: Option<Decimal>)
    ensures
        r == loose_at(*o, key@),
{
    match o.get(key) {
        Some(v) => v.as_loose_decimal(),
        None => None,
    }
}

/// The best bid and ask of a push's data. Sizes that are missing make it none; sizes that are no
/// numbers count as one.
pub open spec fn book_of(d: Json, now: Ts) -> Option<(BookV, Option<u64>)> {
    let stamp = match d.field("E"@) {
        Some(v) => Some(v),
        None => d.field("T"@),
    };
    match (
        d.text_at("s"@),
        loose_at(d, "b"@),
        loose_at(d, "a"@),
        d.field("B"@),
        d.field("A"@),
    ) {
        (Some(native), Some(bid), Some(ask), Some(bq), Some(aq)) => Some(
            (
                BookV {
                    venue: VenueId::Binance,
                    symbol: canonical(native),
                    bid_px: Px(bid),
                    bid_qty: Qty(
                        match bq.loose_decimal() {
                            Some(q) => q,
                            None => dec_one(),
                        },
                    ),
                    ask_px: Px(ask),
                    ask_qty: Qty(
                        match aq.loose_decimal() {
                            Some(q) => q,
                            None => dec_one(),
                        },
                    ),
                    exchange_ts: match stamp {
                        Some(v) => match v.int_value() {
                            Some(ms) => Ts(clamp_i64(ms * 1_000_000) as i64),
                            None => now,
                        },
                        None => now,
                    },
                    recv_ts: now,
                },
                d.uint_at("u"@),
            ),
        ),
        _ => None,
    }
}

/// The update of the best bid and ask that a value is, by itself or as the data of a combined
/// stream.
pub open spec fn book_update(v: Json, now: Ts) -> Option<(BookV, Option<u64>)> {
    match v.field("data"@) {
        Some(d) => book_of(d, now),
        None => book_of(v, now),
    }
}

fn read_book(d: &Json, now: Ts) -> (r: Option<BookUpdate>)
    ensures
        opt_update(r) == book_of(*d, now),
{
    let native = d.get_text("s")?;
    let bid = get_loose(d, "b")?;
    let ask = get_loose(d, "a")?;
    let bid_qty = match d.get("B")?.as_loose_decimal() {
        Some(q) => q,
        None => Decimal::one(),
    };
    let ask_qty = match d.get("A")?.as_loose_decimal() {
        Some(q) => q,
        None => Decimal::one(),
    };
    let stamp = match d.get("E") {
        Some(v) => Some(v),
        None => d.get("T"),
    };
    let exchange_ts = match stamp {
        Some(v) => match v.as_int() {
            Some(ms) => Ts::from_millis(ms),
            None => now,
        },
        None => now,
    };
    Some(
        BookUpdate {
            book: TopOfBook {
                venue: VenueId::Binance,
                symbol: SymbolId::new(native),
                bid_px: Px(bid),
                bid_qty: Qty(bid_qty),
                ask_px: Px(ask),
                ask_qty: Qty(ask_qty),
                exchange_ts,
                recv_ts: now,
            },
            seq: d.get_uint("u"),
        },
    )
}

pub fn book_ticker(v: &Json, now: Ts) -> (r: Option<BookUpdate>)
    ensures
        opt_update(r) == book_update(*v, now),
{
    match v.get("data") {
        Some(d) => read_book(d, now),
        None => read_book(v, now),
    }
}

/// The update of the best bid and ask that a text writes out.
pub fn parse_book_ticker(text: &str, now: Ts) -> (r: Option<BookUpdate>)
    ensures
        opt_update(r) == (match json_read(text@) {
            Some(v) => book_update(v, now),
            None => None,
        }),
{
    let v = read_json(text)?;
    book_ticker(&v, now)
}

/// What an order's status means, where it is one that a report has.
pub open spec fn status_kind(status: Seq<char>) -> Option<ExecKind> {
    if status == "NEW"@ {
        Some(ExecKind::Ack)
    } else if status == "PARTIALLY_FILLED"@ {
        Some(ExecKind::PartialFill)
    } else if status == "FILLED"@ {
        Some(ExecKind::Fill)
    } else if status == "CANCELED"@ {
        Some(ExecKind::Canceled)
    } else if status == "EXPIRED"@ {
        Some(ExecKind::Expired)
    } else {
        None
    }
}

fn kind_of_status(status: &str) -> (r: Option<ExecKind>)
    ensures
        r == status_kind(status@),
{
    if same_text(status, "NEW") {
        Some(ExecKind::Ack)
    } else if same_text(status, "PARTIALLY_FILLED") {
        Some(ExecKind::PartialFill)
    } else if same_text(status, "FILLED") {
        Some(ExecKind::Fill)
    } else if same_text(status, "CANCELED") {
        Some(ExecKind::Canceled)
    } else if same_text(status, "EXPIRED") {
        Some(ExecKind::Expired)
    } else {
        None
    }
}

/// What an order push means: a status that is none of the known ones is a fill where something was
/// filled.
pub open spec fn push_kind(status: Seq<char>, last: Decimal) -> ExecKind {
    match status_kind(status) {
        Some(k) => k,
        None => if status == "REJECTED"@ {
            ExecKind::Reject
        } else if dec_zero().is_below(last) {
            ExecKind::PartialFill
        } else {
            ExecKind::Ack
        },
    }
}

/// The decimal of a text member, zero where it is missing.
pub open spec fn text_decimal(o: Json, key: Seq<char>) -> Option<Decimal> {
    decimal_parsed(o.text_or(key, "0"@))
}

fn get_text_decimal(o: &Json, key: &str) -> (r: Option<Decimal>)
    ensures
        r == text_decimal(*o, key@),
{
    Decimal::parse(&o.get_text_or(key, "0"))
}

/// A price that may be missing.
pub open spec fn maybe_px(d: Option<Decimal>) -> Option<Px> {
    match d {
        Some(p) => Some(Px(p)),
        None => None,
    }
}

fn opt_px(d: Option<Decimal>) -> (r: Option<Px>)
    ensures
        r == maybe_px(d),
{
    match d {
        Some(p) => Some(Px(p)),
        None => None,
    }
}

/// A size that may be missing.
pub open spec fn maybe_qty(d: Option<Decimal>) -> Option<Qty> {
    match d {
        Some(q) => Some(Qty(q)),
        None => None,
    }
}

fn opt_qty(d: Option<Decimal>) -> (r: Option<Qty>)
    ensures
        r == maybe_qty(d),
{
    match d {
        Some(q) => Some(Qty(q)),
        None => None,
    }
}

/// A decimal that may be missing, zero where it is.
pub open spec fn or_zero(d: Option<Decimal>) -> Decimal {
    match d {
        Some(x) => x,
        None => dec_zero(),
    }
}

fn dec_or_zero(d: Option<Decimal>) -> (r: Decimal)
    ensures
        r == or_zero(d),
{
    match d {
        Some(x) => x,
        None => Decimal::zero(),
    }
}

/// The report that an order push is.
pub open spec fn push_report(o: Json, root: Json) -> ExecV {
    let last = or_zero(text_decimal(o, "l"@));
    ExecV {
        coid: o.text_or("c"@, ""@),
        exchange_id: number_text(o.int_at("i"@)),
        venue: VenueId::Binance,
        symbol: canonical(o.text_or("s"@, ""@)),
        kind: push_kind(o.text_or("X"@, ""@), last),
        side: side_at(o, "S"@),
        px: maybe_px(text_decimal(o, "p"@)),
        qty: maybe_qty(text_decimal(o, "q"@)),
        filled_qty: Qty(or_zero(text_decimal(o, "z"@))),
        last_px: maybe_px(text_decimal(o, "L"@)),
        last_qty: if dec_zero().is_below(last) {
            Some(Qty(last))
        } else {
            None
        },
        reason: None,
        ts: time_at(root, "E"@),
    }
}

/// The report that an order push is.
pub fn order_trade_to_exec(o: &Json, root: &Json) -> (r: ExecReport)
    ensures
        r@ == push_report(*o, *root),
{
    let status = o.get_text_or("X", "");
    let last = dec_or_zero(get_text_decimal(o, "l"));
    let kind = match kind_of_status(&status) {
        Some(k) => k,
        None => if same_text(&status, "REJECTED") {
            ExecKind::Reject
        } else if last.is_positive() {
            ExecKind::PartialFill
        } else {
            ExecKind::Ack
        },
    };
    ExecReport {
        coid: ClientOrderId(o.get_text_or("c", "")),
        exchange_id: id_text(o.get_int("i")),
        venue: VenueId::Binance,
        symbol: SymbolId::new(&o.get_text_or("s", "")),
        kind,
        side: get_side(o, "S"),
        px: opt_px(get_text_decimal(o, "p")),
        qty: opt_qty(get_text_decimal(o, "q")),
        filled_qty: Qty(dec_or_zero(get_text_decimal(o, "z"))),
        last_px: opt_px(get_text_decimal(o, "L")),
        last_qty: if last.is_positive() {
            Some(Qty(last))
        } else {
            None
        },
        reason: None,
        ts: get_time(root, "E"),
    }
}

/// The report that an order which was asked about is.
pub open spec fn query_report(o: Json) -> ExecV {
    ExecV {
        coid: o.text_or("clientOrderId"@, ""@),
        exchange_id: number_text(o.int_at("orderId"@)),
        venue: VenueId::Binance,
        symbol: canonical(o.text_or("symbol"@, ""@)),
        kind: match status_kind(o.text_or("status"@, ""@)) {
            Some(k) => k,
            None => ExecKind::Ack,
        },
        side: side_at(o, "side"@),
        px: maybe_px(text_decimal(o, "price"@)),
        qty: maybe_qty(text_decimal(o, "origQty"@)),
        filled_qty: Qty(or_zero(text_decimal(o, "executedQty"@))),
        last_px: None,
        last_qty: None,
        reason: None,
        ts: time_at(o, "updateTime"@),
    }
}

/// The report that an order which was asked about is.
pub fn order_to_exec(o: &Json) -> (r: ExecReport)
    ensures
        r@ == query_report(*o),
{
    ExecReport {
        coid: ClientOrderId(o.get_text_or("clientOrderId", "")),
        exchange_id: id_text(o.get_int("orderId")),
        venue: VenueId::Binance,
        symbol: SymbolId::new(&o.get_text_or("symbol", "")),
        kind: match kind_of_status(&o.get_text_or("status", "")) {
            Some(k) => k,
            None => ExecKind::Ack,
        },
        side: get_side(o, "side"),
        px: opt_px(get_text_decimal(o, "price")),
        qty: opt_qty(get_text_decimal(o, "origQty")),
        filled_qty: Qty(dec_or_zero(get_text_decimal(o, "executedQty"))),
        last_px: None,
        last_qty: None,
        reason: None,
        ts: get_time(o, "updateTime"),
    }
}

/// The position that an account push carries.
pub open spec fn pushed_position(p: Json, root: Json) -> PrivateV {
    PrivateV::Position(
        PosV {
            venue: VenueId::Binance,
            symbol: canonical(p.text_or("s"@, ""@)),
            net_qty: Qty(or_zero(text_decimal(p, "pa"@))),
            avg_px: maybe_px(text_decimal(p, "ep"@)),
            ts: time_at(root, "E"@),
        },
    )
}

/// What a private push says. A push about an order that carries none says what an empty one does.
pub open spec fn private_said(v: Json) -> Seq<PrivateV> {
    let e = v.text_or("e"@, ""@);
    if e == "ORDER_TRADE_UPDATE"@ {
        seq![
            PrivateV::Exec(
                push_report(
                    match v.field("o"@) {
                        Some(o) => o,
                        None => Json::Null,
                    },
                    v,
                ),
            ),
        ]
    } else if e == "ACCOUNT_UPDATE"@ {
        match v.field("a"@) {
            Some(a) => match a.list_at("P"@) {
                Some(list) => list.map_values(|p: Json| pushed_position(p, v)),
                None => Seq::empty(),
            },
            None => Seq::empty(),
        }
    } else {
        Seq::empty()
    }
}

fn read_account(v: &Json) -> (r: Vec<PrivateMsg>)
    ensures
        msgs(r@) == (match v.field("a"@) {
            Some(a) => match a.list_at("P"@) {
                Some(list) => list.map_values(|p: Json| pushed_position(p, *v)),
                None => Seq::empty(),
            },
            None => Seq::empty(),
        }),
{
    let mut out: Vec<PrivateMsg> = Vec::new();
    assert(msgs(out@) =~= Seq::<PrivateV>::empty());
    let a = match v.get("a") {
        Some(a) => a,
        None => {
            return out;
        },
    };
    let list = match a.get_list("P") {
        Some(l) => l,
        None => {
            return out;
        },
    };
    let mut i: usize = 0;
    while i < list.len()
        invariant
            i <= list.len(),
            out@.len() == i,
            forall|j: int| 0 <= j < i ==> (#[trigger] out@[j])@ == pushed_position(list@[j], *v),
        decreases list.len() - i,
    {
        let p = &list[i];
        out.push(
            PrivateMsg::Position(
                PositionSnapshot {
                    venue: VenueId::Binance,
                    symbol: SymbolId::new(&p.get_text_or("s", "")),
                    net_qty: Qty(dec_or_zero(get_text_decimal(p, "pa"))),
                    avg_px: opt_px(get_text_decimal(p, "ep")),
                    ts: get_time(v, "E"),
                },
            ),
        );
        i = i + 1;
    }
    assert(msgs(out@) =~= list@.map_values(|p: Json| pushed_position(p, *v)));
    out
}

/// What a private push says.
pub fn user_data(v: &Json) -> (r: Vec<PrivateMsg>)
    ensures
        msgs(r@) == private_said(*v),
{
    let e = v.get_text_or("e", "");
    if same_text(&e, "ORDER_TRADE_UPDATE") {
        let rep = match v.get("o") {
            Some(o) => order_trade_to_exec(o, v),
            None => order_trade_to_exec(&Json::Null, v),
        };
        let r = vec![PrivateMsg::Exec(rep)];
        assert(msgs(r@) =~= private_said(*v));
        r
    } else if same_text(&e, "ACCOUNT_UPDATE") {
        proof {
            reveal_strlit("ORDER_TRADE_UPDATE");
            reveal_strlit("ACCOUNT_UPDATE");
        }
        read_account(v)
    } else {
        let r: Vec<PrivateMsg> = Vec::new();
        assert(msgs(r@) =~= Seq::<PrivateV>::empty());
        r
    }
}

/// What the text of a private push says; nothing where it is no JSON.
pub fn parse_user_data(text: &str) -> (r: Vec<PrivateMsg>)
    ensures
        msgs(r@) == (match json_read(text@) {
            Some(v) => private_said(v),
            None => Seq::empty(),
        }),
{
    match read_json(text) {
        Some(v) => user_data(&v),
        None => {
            let r: Vec<PrivateMsg> = Vec::new();
            assert(msgs(r@) =~= Seq::<PrivateV>::empty());
            r
        },
    }
}

} // verus!
