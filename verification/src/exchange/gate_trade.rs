//! Requests over Gate's trading connections.
use crate::exchange::sign::{hmac512, hmac_sha512_hex};
use crate::exchange::venue::{native_of, native_symbol};
use crate::json::{
    add_member, int_json, int_said, json_read, json_written, member_place, no_members, object_json,
    read_json, text_json, uint_json, uint_said, write_json, Json, JsonV,
};
use crate::text::{
    cat2, cat3, contains, digits, digits_text, holds, lower_text, lowered, opt_view, same_text,
};
use crate::types::decimal::{
    decimal_text, decimal_to_i64, is_normalized, normal_form, pow10, Decimal,
};
use crate::types::ids::{ClientOrderId, Side, SymbolId, VenueId};
use crate::types::num::{Px, Qty};
use crate::types::order::{OrderType, PlaceReq, PlaceV, TimeInForce};
use vstd::arithmetic::div_mod::{lemma_fundamental_div_mod, lemma_mod_bound};
use vstd::arithmetic::power::{lemma_pow_adds, lemma_pow_positive};
use vstd::prelude::*;

verus! {

/// How many trading connections are kept.
pub const TRADE_LANES: usize = 6;

/// How long an answer is waited for.
pub const RPC_TIMEOUT_MS: u64 = 8_000;

/// How long the answer to a login is waited for.
pub const LOGIN_TIMEOUT_MS: u64 = 8_000;

/// How long a request is remembered after its answer is overdue.
pub const PENDING_KEEP_MS: u64 = 10_000;

/// A request that failed like this was not carried out, so that it may be sent again.
pub open spec fn safe_to_retry(msg: Seq<char>) -> bool {
    let l = lowered(msg);
    ||| holds(l, "not_sent"@)
    ||| holds(l, "too_many"@)
    ||| holds(l, "rate limit"@)
    ||| holds(l, "ratelimit"@)
    ||| holds(msg, "311"@)
    ||| holds(msg, "312"@)
}

pub fn is_safe_retry(msg: &str) -> (r: bool)
    ensures
        r == safe_to_retry(msg@),
{
    let l = lower_text(msg);
    contains(&l, "not_sent") || contains(&l, "too_many") || contains(&l, "rate limit") || contains(
        &l,
        "ratelimit",
    ) || contains(msg, "311") || contains(msg, "312")
}

/// The next request id: the time and a number that counts up, and starts over after the last one
/// of 64 bits.
pub fn next_req_id(counter: &mut u64, now_millis: u64) -> (r: String)
    ensures
        r@ == digits(now_millis as nat) + "-"@ + digits(*old(counter) as nat),
        *final(counter) == (if *old(counter) == u64::MAX {
            0
        } else {
            *old(counter) + 1
        }),
{
    let n: u64 = *counter;
    *counter = if n == u64::MAX {
        0
    } else {
        n + 1
    };
    cat3(&digits_text(now_millis), "-", &digits_text(n))
}

/// What a login signs.
pub open spec fn login_message(channel: Seq<char>, req_param: Seq<char>, ts: u64) -> Seq<char> {
    "api\n"@ + channel + "\n"@ + req_param + "\n"@ + digits(ts as nat)
}

pub fn login_signature(secret: &str, channel: &str, req_param: &str, ts: u64) -> (r: String)
    ensures
        r@ == hmac512(secret@, login_message(channel@, req_param@, ts)),
        r@.len() == 128,
{
    let head = cat3("api\n", channel, "\n");
    let msg = cat3(&cat2(&head, req_param), "\n", &digits_text(ts));
    proof {
        assert(msg@ == login_message(channel@, req_param@, ts));
    }
    hmac_sha512_hex(secret, &msg)
}

/// The request that logs in.
pub open spec fn login_body(key: Seq<char>, secret: Seq<char>, req_id: Seq<char>, ts: u64) -> JsonV {
    JsonV::Object(
        seq![
            ("time"@, uint_said(ts)),
            ("channel"@, JsonV::Text("futures.login"@)),
            ("event"@, JsonV::Text("api"@)),
            (
                "payload"@,
                JsonV::Object(
                    seq![
                        ("api_key"@, JsonV::Text(key)),
                        (
                            "signature"@,
                            JsonV::Text(hmac512(secret, login_message("futures.login"@, ""@, ts))),
                        ),
                        ("timestamp"@, JsonV::Text(digits(ts as nat))),
                        ("req_id"@, JsonV::Text(req_id)),
                    ],
                ),
            ),
        ],
    )
}

pub fn login_request(key: &str, secret: &str, req_id: &str, ts: u64) -> (r: String)
    ensures
        r@ == json_written(login_body(key@, secret@, req_id@, ts)),
{
    let sign = login_signature(secret, "futures.login", "", ts);
    let mut p = no_members();
    add_member(&mut p, "api_key", text_json(key));
    add_member(&mut p, "signature", text_json(&sign));
    add_member(&mut p, "timestamp", text_json(&digits_text(ts)));
    add_member(&mut p, "req_id", text_json(req_id));
    let payload = object_json(p);
    let mut b = no_members();
    add_member(&mut b, "time", uint_json(ts));
    add_member(&mut b, "channel", text_json("futures.login"));
    add_member(&mut b, "event", text_json("api"));
    add_member(&mut b, "payload", payload);
    let body = object_json(b);
    proof {
        let want = login_body(key@, secret@, req_id@, ts);
        assert(payload.says()->Object_0 =~= (want->Object_0)[3].1->Object_0);
        assert(body.says()->Object_0 =~= want->Object_0);
    }
    write_json(&body)
}

/// A request over a trading connection.
pub open spec fn request_body(
    channel: Seq<char>,
    req_id: Seq<char>,
    param: Option<JsonV>,
    ts: u64,
) -> JsonV {
    let head = seq![("req_id"@, JsonV::Text(req_id))];
    JsonV::Object(
        seq![
            ("time"@, uint_said(ts)),
            ("channel"@, JsonV::Text(channel)),
            ("event"@, JsonV::Text("api"@)),
            (
                "payload"@,
                JsonV::Object(
                    match param {
                        Some(p) => head.push(("req_param"@, p)),
                        None => head,
                    },
                ),
            ),
        ],
    )
}

/// What an optional value says.
pub open spec fn opt_says(v: Option<Json>) -> Option<JsonV> {
    match v {
        Some(x) => Some(x.says()),
        None => None,
    }
}

pub fn api_request(channel: &str, req_id: &str, req_param: Option<Json>, ts: u64) -> (r: String)
    ensures
        r@ == json_written(request_body(channel@, req_id@, opt_says(req_param), ts)),
{
    let ghost param = opt_says(req_param);
    let mut p = no_members();
    add_member(&mut p, "req_id", text_json(req_id));
    if let Some(x) = req_param {
        add_member(&mut p, "req_param", x);
    }
    let payload = object_json(p);
    let mut b = no_members();
    add_member(&mut b, "time", uint_json(ts));
    add_member(&mut b, "channel", text_json(channel));
    add_member(&mut b, "event", text_json("api"));
    add_member(&mut b, "payload", payload);
    let body = object_json(b);
    proof {
        let want = request_body(channel@, req_id@, param, ts);
        assert(payload.says()->Object_0 =~= (want->Object_0)[3].1->Object_0);
        assert(body.says()->Object_0 =~= want->Object_0);
    }
    write_json(&body)
}

/// The name of a time in force at Gate.
pub open spec fn tif_name(tif: TimeInForce) -> Seq<char> {
    match tif {
        TimeInForce::PostOnly => "poc"@,
        TimeInForce::Ioc => "ioc"@,
        TimeInForce::Fok => "fok"@,
        TimeInForce::Gtc => "gtc"@,
    }
}

pub fn gate_tif(tif: TimeInForce) -> (r: &'static str)
    ensures
        r@ == tif_name(tif),
{
    match tif {
        TimeInForce::PostOnly => "poc",
        TimeInForce::Ioc => "ioc",
        TimeInForce::Fok => "fok",
        TimeInForce::Gtc => "gtc",
    }
}

/// The text that Gate keeps an order's id in.
pub open spec fn tag_of(coid: Seq<char>) -> Seq<char> {
    "t-"@ + coid
}

pub fn order_tag(coid: &ClientOrderId) -> (r: String)
    ensures
        r@ == tag_of(coid@),
{
    cat2("t-", coid.as_str())
}

/// A size in whole contracts; a fraction is cut off.
pub open spec fn contracts_of(qty: Qty) -> Option<i64> {
    if qty.0.wf() {
        decimal_to_i64(normal_form(qty.0))
    } else {
        None
    }
}

/// A size in whole contracts. `None` where 64 bits do not hold it.
pub fn qty_to_i64(qty: Qty) -> (r: Option<i64>)
    ensures
        r == contracts_of(qty),
        r matches Some(n) ==> cut_to(qty.0, n as int),
{
    let d = qty.0.normal()?;
    let r = d.to_i64();
    proof {
        if let Some(n) = r {
            lemma_cut(qty.0, d, n as int);
        }
    }
    r
}

/// A number with its fraction cut off: the whole number next to it on the side of zero.
pub open spec fn cut_to(d: Decimal, n: int) -> bool {
    let p = pow10(d.scale as nat);
    &&& d.mantissa >= 0 ==> n * p <= d.mantissa < (n + 1) * p
    &&& d.mantissa <= 0 ==> (n - 1) * p < d.mantissa <= n * p
}

proof fn lemma_cut(d: Decimal, r: Decimal, n: int)
    requires
        d.wf(),
        r.wf(),
        is_normalized(d, r),
        decimal_to_i64(r) matches Some(i) && i == n,
    ensures
        cut_to(d, n),
{
    let g = pow10((d.scale - r.scale) as nat);
    let q = pow10(r.scale as nat);
    let p = pow10(d.scale as nat);
    lemma_pow_positive(10, (d.scale - r.scale) as nat);
    lemma_pow_positive(10, r.scale as nat);
    lemma_pow_adds(10, (d.scale - r.scale) as nat, r.scale as nat);
    let m = r.mantissa as int;
    lemma_fundamental_div_mod(m, q);
    lemma_mod_bound(m, q);
    lemma_fundamental_div_mod(-m, q);
    lemma_mod_bound(-m, q);
    let a = m / q;
    let b = (-m) / q;
    assert(q * a == a * q && q * b == b * q && (-b) * q == -(b * q)) by (nonlinear_arith);
    assert((a + 1) * q == a * q + q && (-b - 1) * q == -(b * q) - q) by (nonlinear_arith);
    assert(m >= 0 <==> m * g >= 0) by (nonlinear_arith)
        requires
            g > 0,
    ;
    assert(m <= 0 <==> m * g <= 0) by (nonlinear_arith)
        requires
            g > 0,
    ;
    assert(m == 0 ==> 0int / q == 0) by (nonlinear_arith)
        requires
            q > 0,
    ;
    assert(n * p == (n * q) * g && (n + 1) * p == ((n + 1) * q) * g && (n - 1) * p == ((n - 1) * q)
        * g) by (nonlinear_arith)
        requires
            p == g * q,
    ;
    if m >= 0 {
        assert(n == a);
        assert((n * q) * g <= m * g && m * g < ((n + 1) * q) * g) by (nonlinear_arith)
            requires
                n * q <= m < (n + 1) * q,
                g > 0,
        ;
    }
    if m <= 0 {
        assert(n == -b);
        assert(((n - 1) * q) * g < m * g && m * g <= (n * q) * g) by (nonlinear_arith)
            requires
                (n - 1) * q < m <= n * q,
                g > 0,
        ;
    }
}

/// A price or a size as it is written to a venue. `None` where it is no decimal of 96 bits.
pub fn plain_text(d: Decimal) -> (r: Option<String>)
    ensures
        match r {
            Some(s) => d.wf() && s@ == decimal_text(normal_form(d)),
            None => !d.wf(),
        },
{
    Some(d.normal()?.text())
}

/// The size of an order at Gate: a sale counts down.
pub open spec fn signed_size(req: PlaceV) -> Option<i64> {
    match contracts_of(req.qty) {
        None => None,
        Some(n) => if req.side == Side::Sell {
            if n == i64::MIN {
                None
            } else {
                Some((-n) as i64)
            }
        } else {
            Some(n)
        },
    }
}

/// What an order is asked for with. A market order is written with price zero, to be filled at once
/// or not at all. `None` where size or price cannot be written.
pub open spec fn place_body(req: PlaceV) -> Option<JsonV> {
    let market = req.order_type == OrderType::Market;
    match signed_size(req) {
        None => None,
        Some(size) => if !req.px.0.wf() {
            None
        } else {
            Some(
                JsonV::Object(
                    seq![
                        ("contract"@, JsonV::Text(native_of(VenueId::Gate, req.symbol))),
                        ("size"@, int_said(size)),
                        (
                            "price"@,
                            JsonV::Text(
                                if market {
                                    "0"@
                                } else {
                                    decimal_text(normal_form(req.px.0))
                                },
                            ),
                        ),
                        (
                            "tif"@,
                            JsonV::Text(
                                if market {
                                    "ioc"@
                                } else {
                                    tif_name(req.tif)
                                },
                            ),
                        ),
                        ("text"@, JsonV::Text(tag_of(req.coid))),
                        ("reduce_only"@, JsonV::Bool(req.reduce_only)),
                    ],
                ),
            )
        },
    }
}

/// What an order is asked for with. `None` where size or price cannot be written.
#[verifier::rlimit(50)]
pub fn place_param(req: &PlaceReq) -> (r: Option<Json>)
    ensures
        opt_says(r) == place_body(req@),
        r matches Some(v) ==> v.int_at("size"@) == signed_size(req@),
{
    let n = qty_to_i64(req.qty)?;
    let size: i64 = if req.side == Side::Sell {
        if n == i64::MIN {
            return None;
        }
        -n
    } else {
        n
    };
    let price = plain_text(req.px.0)?;
    let market = req.order_type == OrderType::Market;
    let mut b = no_members();
    add_member(&mut b, "contract", text_json(&native_symbol(VenueId::Gate, req.symbol.as_str())));
    let ghost one = b@;
    add_member(&mut b, "size", int_json(size));
    let ghost two = b@;
    add_member(
        &mut b,
        "price",
        text_json(
            if market {
                "0"
            } else {
                price.as_str()
            },
        ),
    );
    add_member(
        &mut b,
        "tif",
        text_json(
            if market {
                "ioc"
            } else {
                gate_tif(req.tif)
            },
        ),
    );
    add_member(&mut b, "text", text_json(&order_tag(&req.coid)));
    add_member(&mut b, "reduce_only", Json::Bool(req.reduce_only));
    let body = object_json(b);
    proof {
        reveal_strlit("contract");
        reveal_strlit("size");
        assert(b@.take(2) =~= two);
        assert("contract"@.len() != "size"@.len());
        assert(b@[0] == b@.take(2)[0] && b@[1] == b@.take(2)[1]);
        assert(two[0] == two.drop_last()[0] && two[0] == one[0]);
        assert(one[0].0@ == "contract"@);
        assert(body.says()->Object_0 =~= (place_body(req@)->0)->Object_0);
        lemma_member(b@, 1, "size"@);
    }
    Some(body)
}

/// The first member of a key is the one that is found.
proof fn lemma_member(v: Seq<(String, Json)>, n: int, key: Seq<char>)
    requires
        0 <= n < v.len(),
        v[n].0@ == key,
        forall|i: int| 0 <= i < n ==> (#[trigger] v[i]).0@ != key,
    ensures
        member_place(v, key, 0) == n,
{
    lemma_member_from(v, n, key, 0);
}

proof fn lemma_member_from(v: Seq<(String, Json)>, n: int, key: Seq<char>, i: int)
    requires
        0 <= i <= n < v.len(),
        v[n].0@ == key,
        forall|j: int| 0 <= j < n ==> (#[trigger] v[j]).0@ != key,
    ensures
        member_place(v, key, i) == n,
    decreases n - i,
{
    if i < n {
        assert(v[i].0@ != key);
        lemma_member_from(v, n, key, i + 1);
    }
}

/// What an order is cancelled with.
pub open spec fn cancel_body(coid: Seq<char>) -> JsonV {
    JsonV::Object(seq![("order_id"@, JsonV::Text(tag_of(coid)))])
}

pub fn cancel_param(coid: &ClientOrderId) -> (r: Json)
    ensures
        r.says() == cancel_body(coid@),
{
    let mut b = no_members();
    add_member(&mut b, "order_id", text_json(&order_tag(coid)));
    let body = object_json(b);
    assert(body.says()->Object_0 =~= cancel_body(coid@)->Object_0);
    body
}

/// What an order is amended with.
pub open spec fn amend_body(coid: Seq<char>, px: Px, qty: Qty) -> Option<JsonV> {
    match contracts_of(qty) {
        None => None,
        Some(size) => if !px.0.wf() {
            None
        } else {
            Some(
                JsonV::Object(
                    seq![
                        ("order_id"@, JsonV::Text(tag_of(coid))),
                        ("price"@, JsonV::Text(decimal_text(normal_form(px.0)))),
                        ("size"@, int_said(size)),
                    ],
                ),
            )
        },
    }
}

pub fn amend_param(coid: &ClientOrderId, px: Px, qty: Qty) -> (r: Option<Json>)
    ensures
        opt_says(r) == amend_body(coid@, px, qty),
        r matches Some(v) ==> v.int_at("size"@) == contracts_of(qty),
{
    let size = qty_to_i64(qty)?;
    let price = plain_text(px.0)?;
    let mut b = no_members();
    add_member(&mut b, "order_id", text_json(&order_tag(coid)));
    let ghost one = b@;
    add_member(&mut b, "price", text_json(&price));
    let ghost two = b@;
    add_member(&mut b, "size", int_json(size));
    let body = object_json(b);
    proof {
        reveal_strlit("order_id");
        reveal_strlit("price");
        reveal_strlit("size");
        assert("order_id"@.len() != "size"@.len() && "price"@.len() != "size"@.len());
        assert(b@[0] == b@.drop_last()[0] && b@[1] == b@.drop_last()[1]);
        assert(two[0] == two.drop_last()[0] && two[0] == one[0]);
        assert(one[0].0@ == "order_id"@ && two[1].0@ == "price"@);
        lemma_member(b@, 2, "size"@);
    }
    assert(body.says()->Object_0 =~= (amend_body(coid@, px, qty)->0)->Object_0);
    Some(body)
}

/// What all orders of a contract are cancelled with.
pub open spec fn cancel_all_body(symbol: Seq<char>) -> JsonV {
    JsonV::Object(seq![("contract"@, JsonV::Text(native_of(VenueId::Gate, symbol)))])
}

pub fn cancel_all_param(symbol: &SymbolId) -> (r: Json)
    ensures
        r.says() == cancel_all_body(symbol@),
{
    let mut b = no_members();
    add_member(&mut b, "contract", text_json(&native_symbol(VenueId::Gate, symbol.as_str())));
    let body = object_json(b);
    assert(body.says()->Object_0 =~= cancel_all_body(symbol@)->Object_0);
    body
}

/// An answer over a trading connection.
#[derive(Debug)]
pub struct ApiFrame {
    pub request_id: Option<String>,
    pub ack: bool,
    pub result: Option<Json>,
    pub error: Option<String>,
    pub remain: Option<i64>,
}

/// What an answer says.
#[verifier::ext_equal]
pub struct FrameV {
    pub request_id: Option<Seq<char>>,
    pub ack: bool,
    pub result: Option<JsonV>,
    pub error: Option<Seq<char>>,
    pub remain: Option<i64>,
}

impl View for ApiFrame {
    type V = FrameV;

    open spec fn view(&self) -> FrameV {
        FrameV {
            request_id: opt_view(self.request_id),
            ack: self.ack,
            result: opt_says(self.result),
            error: opt_view(self.error),
            remain: self.remain,
        }
    }
}

/// The status that a header gives, as a text or as a number.
pub open spec fn status_of(header: Json) -> Option<Seq<char>> {
    match header.field("status"@) {
        None => None,
        Some(s) => match s.text_value() {
            Some(t) => Some(t),
            None => match s.uint_value() {
                Some(n) => Some(digits(n as nat)),
                None => None,
            },
        },
    }
}

/// What the error member says; nothing where it is null.
pub open spec fn error_said(e: Json) -> Option<Seq<char>> {
    if e is Null {
        None
    } else {
        let label = e.text_or("label"@, "error"@);
        let msg = e.text_or("message"@, ""@);
        Some(
            if msg.len() == 0 {
                label
            } else {
                label + ": "@ + msg
            },
        )
    }
}

/// The member of a member.
pub open spec fn inner(v: Option<Json>, key: Seq<char>) -> Option<Json> {
    match v {
        Some(x) => x.field(key),
        None => None,
    }
}

/// The error of an answer: the one it names, or a status that is not the good one.
pub open spec fn frame_error(header: Json, errs: Option<Json>) -> Option<Seq<char>> {
    let named = match errs {
        Some(e) => error_said(e),
        None => None,
    };
    match named {
        Some(e) => Some(e),
        None => match status_of(header) {
            Some(s) => if s != "200"@ {
                Some("status "@ + s)
            } else {
                None
            },
            None => None,
        },
    }
}

/// The answer that a value is; none without a header.
pub open spec fn frame_of(v: Json) -> Option<FrameV> {
    match v.field("header"@) {
        None => None,
        Some(header) => Some(
            FrameV {
                request_id: v.text_at("request_id"@),
                ack: v.bool_or("ack"@, false),
                result: opt_says(inner(v.field("data"@), "result"@)),
                error: frame_error(header, inner(v.field("data"@), "errs"@)),
                remain: header.int_at("x_gate_ratelimit_requests_remain"@),
            },
        ),
    }
}

fn read_status(header: &Json) -> (r: Option<String>)
    ensures
        opt_view(r) == status_of(*header),
{
    let s = header.get("status")?;
    match s.as_text() {
        Some(t) => Some(t.clone()),
        None => match s.as_uint() {
            Some(n) => Some(digits_text(n)),
            None => None,
        },
    }
}

fn read_error(e: &Json) -> (r: Option<String>)
    ensures
        opt_view(r) == error_said(*e),
{
    if let Json::Null = e {
        return None;
    }
    let label = e.get_text_or("label", "error");
    let msg = e.get_text_or("message", "");
    let empty = same_text(&msg, "");
    proof {
        reveal_strlit("");
        if msg@.len() == 0 {
            assert(msg@ =~= ""@);
        }
    }
    Some(
        if empty {
            label
        } else {
            cat3(&label, ": ", &msg)
        },
    )
}

/// The answer that a value is; none without a header.
pub fn api_frame(v: &Json) -> (r: Option<ApiFrame>)
    ensures
        match r {
            Some(f) => frame_of(*v) == Some(f@),
            None => frame_of(*v) is None,
        },
{
    let header = v.get("header")?;
    let request_id = match v.get_text("request_id") {
        Some(s) => Some(s.clone()),
        None => None,
    };
    let ack = v.get_bool_or("ack", false);
    let data = v.get("data");
    let errs = match data {
        Some(d) => d.get("errs"),
        None => None,
    };
    let mut error = match errs {
        Some(e) => read_error(e),
        None => None,
    };
    if error.is_none() {
        if let Some(s) = read_status(header) {
            if !same_text(&s, "200") {
                error = Some(cat2("status ", &s));
            }
        }
    }
    let result = match data {
        Some(d) => match d.get("result") {
            Some(x) => Some(x.copy()),
            None => None,
        },
        None => None,
    };
    Some(
        ApiFrame {
            request_id,
            ack,
            result,
            error,
            remain: header.get_int("x_gate_ratelimit_requests_remain"),
        },
    )
}

/// The answer that a text writes out.
pub fn parse_api_frame(text: &str) -> (r: Option<ApiFrame>)
    ensures
        match json_read(text@) {
            None => r is None,
            Some(v) => match r {
                Some(f) => frame_of(v) == Some(f@),
                None => frame_of(v) is None,
            },
        },
{
    let v = read_json(text)?;
    api_frame(&v)
}

/// What an answer means to whoever waits for a login.
#[derive(Clone, Copy, Debug, PartialEq, Eq, Structural)]
pub enum LoginStep {
    Wait,
    Accepted,
    Refused,
}

/// What an answer means to whoever waits for a login: only the final answer to the login counts.
pub open spec fn login_answer(f: Option<FrameV>, login_id: Seq<char>) -> LoginStep {
    match f {
        None => LoginStep::Wait,
        Some(f) => if f.ack || f.request_id != Some(login_id) {
            LoginStep::Wait
        } else if f.error is Some {
            LoginStep::Refused
        } else {
            LoginStep::Accepted
        },
    }
}

/// What an optional answer says.
pub open spec fn opt_frame(f: Option<ApiFrame>) -> Option<FrameV> {
    match f {
        Some(x) => Some(x@),
        None => None,
    }
}

pub fn login_step(frame: &Option<ApiFrame>, login_id: &str) -> (r: LoginStep)
    ensures
        r == login_answer(opt_frame(*frame), login_id@),
{
    match frame {
        None => LoginStep::Wait,
        Some(f) => {
            let ours = match &f.request_id {
                Some(id) => same_text(id, login_id),
                None => false,
            };
            if f.ack || !ours {
                LoginStep::Wait
            } else if f.error.is_some() {
                LoginStep::Refused
            } else {
                LoginStep::Accepted
            }
        },
    }
}

/// The id that an answer settles: the final answer to a request that has one.
pub open spec fn settles(f: Option<FrameV>) -> Option<Seq<char>> {
    match f {
        None => None,
        Some(f) => if f.ack {
            None
        } else {
            f.request_id
        },
    }
}

/// The id that an answer settles.
pub fn settled_id(frame: &Option<ApiFrame>) -> (r: Option<String>)
    ensures
        opt_view(r) == settles(opt_frame(*frame)),
{
    match frame {
        None => None,
        Some(f) => if f.ack {
            None
        } else {
            f.request_id.clone()
        },
    }
}

/// What the answer to a request comes to: its error, or its result, which is null where it has none.
pub fn frame_result(frame: ApiFrame) -> (r: Result<Json, String>)
    ensures
        match frame@.error {
            Some(e) => r matches Err(msg) && msg@ == e,
            None => r matches Ok(v) && v.says() == (match frame@.result {
                Some(x) => x,
                None => JsonV::Null,
            }),
        },
{
    match frame.error {
        Some(e) => Err(e),
        None => Ok(
            match frame.result {
                Some(v) => v,
                None => Json::Null,
            },
        ),
    }
}

/// Some trading connection is ready.
pub fn any_ready(ready: &Vec<bool>) -> (r: bool)
    ensures
        r == ready@.contains(true),
{
    let mut i: usize = 0;
    while i < ready.len()
        invariant
            i <= ready@.len(),
            forall|j: int| 0 <= j < i ==> !#[trigger] ready@[j],
        decreases ready@.len() - i,
    {
        if ready[i] {
            assert(ready@[i as int]);
            return true;
        }
        i = i + 1;
    }
    false
}

/// The first try from `i` on that goes to a lane that is ready; the number of lanes if none does.
pub open spec fn ready_try(ready: Seq<bool>, start: int, i: int) -> int
    decreases ready.len() - i,
{
    if 0 <= i < ready.len() && !ready[(start + i) % (ready.len() as int)] {
        ready_try(ready, start, i + 1)
    } else {
        i
    }
}

/// The lane for the next try of a request and the number of that try: lanes are asked in turn, from
/// `start` on, and those that are not ready are passed over.
pub fn next_lane(ready: &Vec<bool>, start: usize, from: usize) -> (r: Option<(usize, usize)>)
    requires
        from <= ready@.len(),
    ensures
        ({
            let n = ready@.len() as int;
            let k = ready_try(ready@, start as int, from as int);
            match r {
                Some((lane, i)) => i == k && k < n && lane == (start + k) % n
                    && ready@[lane as int],
                None => k >= n,
            }
        }),
{
    let n = ready.len();
    if n == 0 {
        return None;
    }
    let base = start % n;
    let mut i: usize = from;
    while i < n
        invariant
            i <= n,
            n == ready@.len(),
            0 < n,
            base == start % n,
            base < n,
            ready_try(ready@, start as int, from as int) == ready_try(
                ready@,
                start as int,
                i as int,
            ),
        decreases n - i,
    {
        let lane: usize = if base >= n - i {
            base - (n - i)
        } else {
            base + i
        };
        proof {
            lemma_lane(start as int, i as int, n as int);
        }
        if ready[lane] {
            return Some((lane, i));
        }
        i = i + 1;
    }
    None
}

proof fn lemma_lane(start: int, i: int, n: int)
    requires
        0 <= i < n,
        0 <= start,
    ensures
        ({
            let base = start % n;
            (start + i) % n == (if base >= n - i {
                base - (n - i)
            } else {
                base + i
            })
        }),
{
    let base = start % n;
    vstd::arithmetic::div_mod::lemma_add_mod_noop(start, i, n);
    vstd::arithmetic::div_mod::lemma_small_mod(i as nat, n as nat);
    let s = base + i;
    if s >= n {
        vstd::arithmetic::div_mod::lemma_mod_add_multiples_vanish(s - n, n);
        vstd::arithmetic::div_mod::lemma_small_mod((s - n) as nat, n as nat);
    } else {
        vstd::arithmetic::div_mod::lemma_small_mod(s as nat, n as nat);
    }
}

/// How many lanes are ready after one of them changed, and what the link is told: that it is up with
/// the first ready lane, and down with the last one gone.
pub open spec fn lanes_after(was: bool, up: bool, count: usize) -> (usize, Option<bool>) {
    if was == up {
        (count, None)
    } else if up {
        (
            (count + 1) as usize,
            if count == 0 {
                Some(true)
            } else {
                None
            },
        )
    } else {
        (
            (count - 1) as usize,
            if count == 1 {
                Some(false)
            } else {
                None
            },
        )
    }
}

pub fn lane_changed(was: bool, up: bool, count: usize) -> (r: (usize, Option<bool>))
    requires
        up ==> count < usize::MAX,
        was && !up ==> count > 0,
    ensures
        r == lanes_after(was, up, count),
{
    if was == up {
        (count, None)
    } else if up {
        (
            count + 1,
            if count == 0 {
                Some(true)
            } else {
                None
            },
        )
    } else {
        (
            count - 1,
            if count == 1 {
                Some(false)
            } else {
                None
            },
        )
    }
}

/// The link is told exactly when it goes up or down: when the number of ready lanes leaves zero or
/// comes back to it.
pub proof fn law_link_follows_lanes(was: bool, up: bool, count: usize)
    requires
        up ==> count < usize::MAX,
        was && !up ==> count > 0,
    ensures
        ({
            let (next, told) = lanes_after(was, up, count);
            &&& told is Some <==> (count == 0) != (next == 0)
            &&& told matches Some(t) ==> t == (next > 0)
        }),
{
}

/// A request that waits for its answer since a time in milliseconds.
#[derive(Debug)]
pub struct PendingReq {
    pub id: String,
    pub since_ms: u64,
}

/// The requests that wait for their answers.
#[derive(Debug)]
pub struct PendingTable {
    pub waiting: Vec<PendingReq>,
}

/// The ids and times of waiting requests.
pub open spec fn waits(v: Seq<PendingReq>) -> Seq<(Seq<char>, u64)> {
    v.map_values(|p: PendingReq| (p.id@, p.since_ms))
}

/// A request has waited so long that nobody waits for it any more.
pub open spec fn given_up(since_ms: u64, now_ms: u64) -> bool {
    now_ms - since_ms > PENDING_KEEP_MS
}

impl View for PendingTable {
    type V = Seq<(Seq<char>, u64)>;

    open spec fn view(&self) -> Seq<(Seq<char>, u64)> {
        waits(self.waiting@)
    }
}

impl PendingTable {
    pub fn new() -> (r: Self)
        ensures
            r@ == Seq::<(Seq<char>, u64)>::empty(),
            r.wf(),
    {
        let r = PendingTable { waiting: Vec::new() };
        assert(r@ =~= Seq::<(Seq<char>, u64)>::empty());
        r
    }

    /// No two requests share an id.
    pub open spec fn wf(self) -> bool {
        unique_waits(self@)
    }

    /// Adds a request; one of the same id gives way to it.
    pub fn add_request(&mut self, id: &str, now_ms: u64)
        ensures
            final(self)@ == with_wait(old(self)@, id@, now_ms),
            old(self).wf() ==> final(self).wf(),
    {
        let _ = self.take(id);
        let ghost rest = self@;
        self.waiting.push(PendingReq { id: id.to_owned(), since_ms: now_ms });
        assert(self@ =~= rest.push((id@, now_ms)));
        proof {
            if old(self).wf() {
                law_waits_stay_unique(old(self)@, id@, now_ms);
            }
        }
    }

    /// Takes a request out, and says whether it was there.
    pub fn take(&mut self, id: &str) -> (r: bool)
        ensures
            r == (wait_place(old(self)@, id@, 0) < old(self)@.len()),
            final(self)@ == without_wait(old(self)@, id@),
            old(self).wf() ==> final(self).wf(),
    {
        proof {
            lemma_wait_place(self@, id@, 0);
            if self.wf() {
                law_waits_stay_unique(self@, id@, 0);
            }
        }
        let mut i: usize = 0;
        while i < self.waiting.len()
            invariant
                i <= self.waiting.len(),
                *self == *old(self),
                wait_place(self@, id@, 0) == wait_place(self@, id@, i as int),
            decreases self.waiting.len() - i,
        {
            if same_text(&self.waiting[i].id, id) {
                let _ = self.waiting.remove(i);
                assert(self@ =~= old(self)@.remove(i as int));
                return true;
            }
            i = i + 1;
        }
        false
    }

    /// Takes out the requests that nobody waits for any more, and says which they are.
    pub fn purge(&mut self, now_ms: u64) -> (r: Vec<String>)
        ensures
            final(self)@ == old(self)@.filter(|w: (Seq<char>, u64)| !given_up(w.1, now_ms)),
            r@.map_values(|s: String| s@) == old(self)@.filter(
                |w: (Seq<char>, u64)| given_up(w.1, now_ms),
            ).map_values(|w: (Seq<char>, u64)| w.0),
            old(self).wf() ==> final(self).wf(),
    {
        let mut kept: Vec<PendingReq> = Vec::new();
        let mut gone: Vec<String> = Vec::new();
        let ghost all = self@;
        let ghost keep = |w: (Seq<char>, u64)| !given_up(w.1, now_ms);
        let ghost drop = |w: (Seq<char>, u64)| given_up(w.1, now_ms);
        let ghost id_of = |w: (Seq<char>, u64)| w.0;
        let ghost said = |s: String| s@;
        let mut i: usize = 0;
        proof {
            reveal(Seq::filter);
            assert(waits(kept@) =~= all.take(0).filter(keep));
            assert(gone@.map_values(said) =~= all.take(0).filter(drop).map_values(id_of));
        }
        while i < self.waiting.len()
            invariant
                i <= self.waiting.len(),
                *self == *old(self),
                all == self@,
                keep == (|w: (Seq<char>, u64)| !given_up(w.1, now_ms)),
                drop == (|w: (Seq<char>, u64)| given_up(w.1, now_ms)),
                id_of == (|w: (Seq<char>, u64)| w.0),
                said == (|s: String| s@),
                waits(kept@) == all.take(i as int).filter(keep),
                gone@.map_values(said) == all.take(i as int).filter(drop).map_values(id_of),
            decreases self.waiting.len() - i,
        {
            let p = &self.waiting[i];
            proof {
                reveal(Seq::filter);
                assert(all.take(i + 1).drop_last() =~= all.take(i as int));
                assert(all.take(i + 1).last() == (p.id@, p.since_ms));
            }
            let late = now_ms > p.since_ms && now_ms - p.since_ms > PENDING_KEEP_MS;
            if late {
                let ghost before = gone@;
                let ghost f = all.take(i as int).filter(drop);
                gone.push(p.id.clone());
                assert(gone@.map_values(said) =~= before.map_values(said).push(p.id@));
                assert(f.push((p.id@, p.since_ms)).map_values(id_of) =~= f.map_values(id_of).push(
                    p.id@,
                ));
            } else {
                let ghost before = kept@;
                let copy = PendingReq { id: p.id.clone(), since_ms: p.since_ms };
                kept.push(copy);
                assert(waits(kept@) =~= waits(before).push((p.id@, p.since_ms)));
            }
            i = i + 1;
        }
        assert(all.take(i as int) =~= all);
        proof {
            if self.wf() {
                law_fewer_waits_stay_unique(all, keep);
            }
        }
        self.waiting = kept;
        gone
    }
}

/// The place of the first waiting request of an id from `i` on; the number of requests if there is
/// none.
pub open spec fn wait_place(v: Seq<(Seq<char>, u64)>, id: Seq<char>, i: int) -> int
    decreases v.len() - i,
{
    if 0 <= i < v.len() && v[i].0 != id {
        wait_place(v, id, i + 1)
    } else {
        i
    }
}

/// No two waiting requests share an id.
pub open spec fn unique_waits(v: Seq<(Seq<char>, u64)>) -> bool {
    forall|i: int, j: int| 0 <= i < j < v.len() ==> (#[trigger] v[i]).0 != (#[trigger] v[j]).0
}

/// The requests without the first one of an id.
pub open spec fn without_wait(v: Seq<(Seq<char>, u64)>, id: Seq<char>) -> Seq<(Seq<char>, u64)> {
    let p = wait_place(v, id, 0);
    if p < v.len() {
        v.remove(p)
    } else {
        v
    }
}

/// The requests with one more, to which one of the same id gives way.
pub open spec fn with_wait(v: Seq<(Seq<char>, u64)>, id: Seq<char>, now_ms: u64) -> Seq<
    (Seq<char>, u64),
> {
    without_wait(v, id).push((id, now_ms))
}

pub proof fn lemma_wait_place(v: Seq<(Seq<char>, u64)>, id: Seq<char>, i: int)
    requires
        0 <= i <= v.len(),
    ensures
        i <= wait_place(v, id, i) <= v.len(),
        forall|j: int| i <= j < wait_place(v, id, i) ==> (#[trigger] v[j]).0 != id,
        wait_place(v, id, i) < v.len() ==> v[wait_place(v, id, i)].0 == id,
    decreases v.len() - i,
{
    if i < v.len() && v[i].0 != id {
        lemma_wait_place(v, id, i + 1);
    }
}

/// A request that is added is the only one of its id, and no two others come to share one.
pub proof fn law_waits_stay_unique(v: Seq<(Seq<char>, u64)>, id: Seq<char>, now_ms: u64)
    requires
        unique_waits(v),
    ensures
        unique_waits(without_wait(v, id)),
        unique_waits(with_wait(v, id, now_ms)),
        forall|i: int| 0 <= i < without_wait(v, id).len() ==> (#[trigger] without_wait(v, id)[i]).0 != id,
        with_wait(v, id, now_ms).last() == (id, now_ms),
{
    lemma_wait_place(v, id, 0);
    let p = wait_place(v, id, 0);
    let rest = without_wait(v, id);
    if p < v.len() {
        assert forall|i: int| 0 <= i < rest.len() implies (#[trigger] rest[i]).0 != id by {
            if i < p {
                assert(rest[i] == v[i]);
            } else {
                assert(rest[i] == v[i + 1]);
                assert(v[p].0 != v[i + 1].0);
            }
        }
        assert forall|i: int, j: int| 0 <= i < j < rest.len() implies (#[trigger] rest[i]).0 != (
        #[trigger] rest[j]).0 by {
            let x = if i < p {
                i
            } else {
                i + 1
            };
            let y = if j < p {
                j
            } else {
                j + 1
            };
            assert(rest[i] == v[x] && rest[j] == v[y]);
        }
    } else {
        assert forall|i: int| 0 <= i < rest.len() implies (#[trigger] rest[i]).0 != id by {
            assert(rest[i] == v[i]);
        }
    }
}

/// Of requests that no two share an id of, none do once some were left out.
pub proof fn law_fewer_waits_stay_unique(
    v: Seq<(Seq<char>, u64)>,
    keep: spec_fn((Seq<char>, u64)) -> bool,
)
    requires
        unique_waits(v),
    ensures
        unique_waits(v.filter(keep)),
        forall|i: int|
            0 <= i < v.filter(keep).len() ==> v.contains(#[trigger] v.filter(keep)[i]),
    decreases v.len(),
{
    reveal(Seq::filter);
    if v.len() > 0 {
        let w = v.drop_last();
        assert(unique_waits(w)) by {
            assert forall|i: int, j: int| 0 <= i < j < w.len() implies (#[trigger] w[i]).0 != (
            #[trigger] w[j]).0 by {
                assert(v[i].0 != v[j].0);
            }
        }
        law_fewer_waits_stay_unique(w, keep);
        let f = w.filter(keep);
        let g = v.filter(keep);
        assert forall|i: int| 0 <= i < g.len() implies v.contains(#[trigger] g[i]) by {
            if i < f.len() {
                assert(g[i] == f[i]);
                let k = choose|k: int| 0 <= k < w.len() && w[k] == f[i];
                assert(v[k] == g[i]);
            } else {
                assert(g[i] == v[v.len() - 1]);
            }
        }
        assert forall|i: int, j: int| 0 <= i < j < g.len() implies (#[trigger] g[i]).0 != (
        #[trigger] g[j]).0 by {
            assert(g[i] == f[i]);
            if j < f.len() {
                assert(g[j] == f[j]);
            } else {
                let k = choose|k: int| 0 <= k < w.len() && w[k] == f[i];
                assert(v[k] == f[i]);
                assert(v[k].0 != v[v.len() - 1].0);
            }
        }
    }
}

/// An answer of Gate: it is a failure where it names an error, or its status is not the good one, and a success
/// otherwise; its id, whether it only acknowledges, and its result are those of its members.
pub proof fn law_gate_answer_is_what_was_said(v: Json, header: Json)
    requires
        v.field("header"@) == Some(header),
    ensures
        frame_of(v) matches Some(f) && {
            let errs = match v.field("data"@) {
                Some(d) => d.field("errs"@),
                None => None,
            };
            let named = errs matches Some(e) && !(e is Null);
            let status = header.field("status"@);
            let bad = (status matches Some(Json::Text(s)) && s@ != "200"@) || (status matches Some(
                Json::Number(n),
            ) && (n.uint matches Some(u) && digits(u as nat) != "200"@));
            &&& f.error is Some <==> named || bad
            &&& f.request_id == (match v.field("request_id"@) {
                Some(Json::Text(s)) => Some(s@),
                _ => None,
            })
            &&& f.ack <==> v.field("ack"@) == Some(Json::Bool(true))
            &&& v.field("data"@) is None ==> f.result is None
            &&& v.field("data"@) matches Some(d) ==> f.result == (match d.field("result"@) {
                Some(x) => Some(x.says()),
                None => None,
            })
        },
{
}

/// Only the final answer to the login ends it: as refused where it is a failure, and as accepted otherwise.
pub proof fn law_login_ends_with_its_answer(f: Option<FrameV>, login_id: Seq<char>)
    ensures
        ({
            let ours = f matches Some(x) && !x.ack && x.request_id == Some(login_id);
            &&& login_answer(f, login_id) == LoginStep::Wait <==> !ours
            &&& login_answer(f, login_id) == LoginStep::Refused <==> ours && (f->0).error is Some
            &&& login_answer(f, login_id) == LoginStep::Accepted <==> ours && (f->0).error is None
        }),
{
}

/// The lane that a request tries is the first in turn that is ready: those before it are not.
pub proof fn law_first_ready_lane_is_tried(ready: Seq<bool>, start: int, i: int)
    requires
        0 <= i <= ready.len(),
    ensures
        ({
            let k = ready_try(ready, start, i);
            &&& i <= k <= ready.len()
            &&& k < ready.len() ==> ready[(start + k) % (ready.len() as int)]
            &&& forall|j: int|
                #![trigger ready[(start + j) % (ready.len() as int)]]
                i <= j < k ==> !ready[(start + j) % (ready.len() as int)]
        }),
    decreases ready.len() - i,
{
    if i < ready.len() && !ready[(start + i) % (ready.len() as int)] {
        law_first_ready_lane_is_tried(ready, start, i + 1);
    }
}

} // verus!
