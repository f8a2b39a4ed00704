//! Gate USDT perpetuals on a unified account with one-way positions.
use crate::exchange::gate_trade::{gate_tif, order_tag, plain_text, tag_of, tif_name};
use crate::exchange::sign::{hmac512, hmac_sha512_hex, sha512, sha512_hex};
use crate::exchange::venue::{msgs, native_of, native_symbol, FeedError, PrivateMsg, PrivateV};
use crate::json::{
    add_member, json_read, json_written, no_members, object_json, read_json, text_json, texts_json,
    uint_json, uint_said, write_json, Json, JsonV,
};
use crate::text::{
    cat2, cat3, digits, digits_text, ends, ends_with, opt_view, same_text, signed_digits,
    signed_text, starts, strip_prefix,
};
use crate::types::book::{BookUpdate, BookV, TopOfBook};
use crate::types::decimal::{
    dec_int, dec_one, dec_zero, decimal_parsed, decimal_sum, decimal_text, normal_form, Decimal,
};
use crate::types::ids::{canonical, ClientOrderId, Side, SymbolId, VenueId};
use crate::types::instrument::{insts, ContractKind, InstV, Instrument, InstrumentStatus};
use crate::types::num::{Px, Qty};
use crate::types::order::{
    records, ExecKind, ExecReport, ExecV, OrderRecord, OrderRecordV, OrderType, PlaceReq, PlaceV,
    };
use crate::types::position::{poss, PosV, PositionSnapshot};
use crate::types::time::{clamp_i64, Ts};
use vstd::prelude::*;

verus! {

/// What a request to Gate signs.
pub open spec fn sign_message(
    method: Seq<char>,
    path: Seq<char>,
    query: Seq<char>,
    body: Seq<char>,
    ts: u64,
) -> Seq<char> {
    method + "\n"@ + path + "\n"@ + query + "\n"@ + sha512(body) + "\n"@ + digits(ts as nat)
}

/// The signature of a request to Gate.
pub fn gate_sign(secret: &str, method: &str, path: &str, query: &str, body: &str, ts: u64) -> (r:
    String)
    ensures
        r@ == hmac512(secret@, sign_message(method@, path@, query@, body@, ts)),
{
    let hashed = sha512_hex(body);
    let a = cat3(method, "\n", path);
    let b = cat3(&a, "\n", query);
    let c = cat3(&b, "\n", &hashed);
    let msg = cat3(&c, "\n", &digits_text(ts));
    hmac_sha512_hex(secret, &msg)
}

/// The address of a request: the query follows where there is one.
pub open spec fn address(rest: Seq<char>, path: Seq<char>, query: Seq<char>) -> Seq<char> {
    if query.len() == 0 {
        rest + path
    } else {
        rest + path + "?"@ + query
    }
}

pub fn gate_url(rest: &str, path: &str, query: &str) -> (r: String)
    ensures
        r@ == address(rest@, path@, query@),
{
    let empty = same_text(query, "");
    proof {
        reveal_strlit("");
        if query@.len() == 0 {
            assert(query@ =~= ""@);
        }
    }
    if empty {
        cat2(rest, path)
    } else {
        cat3(&cat2(rest, path), "?", query)
    }
}

/// The subscription to the best bids and asks of contracts.
pub open spec fn book_subscription(natives: Seq<String>, ts: u64) -> JsonV {
    JsonV::Object(
        seq![
            ("time"@, uint_said(ts)),
            ("channel"@, JsonV::Text("futures.book_ticker"@)),
            ("event"@, JsonV::Text("subscribe"@)),
            ("payload"@, JsonV::List(natives.map_values(|s: String| JsonV::Text(s@)))),
        ],
    )
}

pub fn md_subscription(natives: &Vec<String>, ts: u64) -> (r: String)
    ensures
        r@ == json_written(book_subscription(natives@, ts)),
{
    let mut b = no_members();
    add_member(&mut b, "time", uint_json(ts));
    add_member(&mut b, "channel", text_json("futures.book_ticker"));
    add_member(&mut b, "event", text_json("subscribe"));
    add_member(&mut b, "payload", texts_json(natives));
    let body = object_json(b);
    assert(body.says()->Object_0 =~= book_subscription(natives@, ts)->Object_0);
    write_json(&body)
}

/// What a private subscription signs.
pub open spec fn channel_message(channel: Seq<char>, ts: u64) -> Seq<char> {
    "channel="@ + channel + "&event=subscribe&time="@ + digits(ts as nat)
}

/// The subscription to a private channel.
pub open spec fn private_subscription(
    key: Seq<char>,
    secret: Seq<char>,
    channel: Seq<char>,
    ts: u64,
) -> JsonV {
    JsonV::Object(
        seq![
            ("time"@, uint_said(ts)),
            ("channel"@, JsonV::Text(channel)),
            ("event"@, JsonV::Text("subscribe"@)),
            ("payload"@, JsonV::List(seq![JsonV::Text("!all"@)])),
            (
                "auth"@,
                JsonV::Object(
                    seq![
                        ("method"@, JsonV::Text("api_key"@)),
                        ("KEY"@, JsonV::Text(key)),
                        ("SIGN"@, JsonV::Text(hmac512(secret, channel_message(channel, ts)))),
                    ],
                ),
            ),
        ],
    )
}

pub fn auth_sub(key: &str, secret: &str, channel: &str, ts: u64) -> (r: String)
    ensures
        r@ == json_written(private_subscription(key@, secret@, channel@, ts)),
{
    let msg = cat2(&cat3("channel=", channel, "&event=subscribe&time="), &digits_text(ts));
    let sign = hmac_sha512_hex(secret, &msg);
    let mut a = no_members();
    add_member(&mut a, "method", text_json("api_key"));
    add_member(&mut a, "KEY", text_json(key));
    add_member(&mut a, "SIGN", text_json(&sign));
    let auth = object_json(a);
    let all = vec!["!all".to_owned()];
    let payload = texts_json(&all);
    let mut b = no_members();
    add_member(&mut b, "time", uint_json(ts));
    add_member(&mut b, "channel", text_json(channel));
    add_member(&mut b, "event", text_json("subscribe"));
    add_member(&mut b, "payload", payload);
    add_member(&mut b, "auth", auth);
    let body = object_json(b);
    proof {
        let want = private_subscription(key@, secret@, channel@, ts);
        assert(auth.says()->Object_0 =~= (want->Object_0)[4].1->Object_0);
        assert(payload.says()->List_0 =~= (want->Object_0)[3].1->List_0);
        assert(body.says()->Object_0 =~= want->Object_0);
    }
    write_json(&body)
}

/// What an order is asked for with over REST: like over the trading connection, but with the size as
/// a decimal.
pub open spec fn rest_place_body(req: PlaceV) -> Option<JsonV> {
    let market = req.order_type == OrderType::Market;
    if !req.qty.0.wf() || !req.px.0.wf() {
        None
    } else {
        let size = if req.side == Side::Sell {
            req.qty.0.negated()
        } else {
            req.qty.0
        };
        Some(
            JsonV::Object(
                seq![
                    ("contract"@, JsonV::Text(native_of(VenueId::Gate, req.symbol))),
                    ("size"@, JsonV::Text(decimal_text(size))),
                    (
                        "price"@,
                        JsonV::Text(
                            if market {
                                "0"@
                            } else {
                                decimal_text(normal_form(req.px.0))
                            },
                        ),
                    ),
                    (
                        "tif"@,
                        JsonV::Text(
                            if market {
                                "ioc"@
                            } else {
                                tif_name(req.tif)
                            },
                        ),
                    ),
                    ("text"@, JsonV::Text(tag_of(req.coid))),
                    ("reduce_only"@, JsonV::Bool(req.reduce_only)),
                ],
            ),
        )
    }
}

/// What an order is asked for with over REST. `None` where size or price is no decimal of 96 bits.
#[verifier::rlimit(50)]
pub fn rest_place(req: &PlaceReq) -> (r: Option<String>)
    ensures
        match r {
            Some(s) => rest_place_body(req@) matches Some(v) && s@ == json_written(v),
            None => rest_place_body(req@) is None,
        },
{
    if !req.qty.0.valid() {
        return None;
    }
    let size = match req.side {
        Side::Buy => req.qty.0,
        Side::Sell => req.qty.0.checked_neg()?,
    };
    let price = plain_text(req.px.0)?;
    let market = req.order_type == OrderType::Market;
    let mut b = no_members();
    add_member(&mut b, "contract", text_json(&native_symbol(VenueId::Gate, req.symbol.as_str())));
    add_member(&mut b, "size", text_json(&size.text()));
    add_member(
        &mut b,
        "price",
        text_json(
            if market {
                "0"
            } else {
                price.as_str()
            },
        ),
    );
    add_member(
        &mut b,
        "tif",
        text_json(
            if market {
                "ioc"
            } else {
                gate_tif(req.tif)
            },
        ),
    );
    add_member(&mut b, "text", text_json(&order_tag(&req.coid)));
    add_member(&mut b, "reduce_only", Json::Bool(req.reduce_only));
    let body = object_json(b);
    assert(body.says()->Object_0 =~= (rest_place_body(req@)->0)->Object_0);
    Some(write_json(&body))
}

/// What an order is amended with over REST.
pub open spec fn rest_amend_body(px: Px, qty: Qty) -> Option<JsonV> {
    if !px.0.wf() {
        None
    } else {
        Some(
            JsonV::Object(
                seq![
                    ("price"@, JsonV::Text(decimal_text(normal_form(px.0)))),
                    ("size"@, JsonV::Text(decimal_text(qty.0))),
                ],
            ),
        )
    }
}

/// What an order is amended with over REST. `None` where the price is no decimal of 96 bits.
pub fn rest_amend(px: Px, qty: Qty) -> (r: Option<String>)
    ensures
        match r {
            Some(s) => rest_amend_body(px, qty) matches Some(v) && s@ == json_written(v),
            None => rest_amend_body(px, qty) is None,
        },
{
    let price = plain_text(px.0)?;
    let mut b = no_members();
    add_member(&mut b, "price", text_json(&price));
    add_member(&mut b, "size", text_json(&qty.0.text()));
    let body = object_json(b);
    assert(body.says()->Object_0 =~= (rest_amend_body(px, qty)->0)->Object_0);
    Some(write_json(&body))
}

/// The query that cancels one order.
pub fn cancel_query(symbol: &SymbolId, coid: &ClientOrderId) -> (r: String)
    ensures
        r@ == "contract="@ + native_of(VenueId::Gate, symbol@) + "&text=t-"@ + coid@,
{
    let head = cat3("contract=", &native_symbol(VenueId::Gate, symbol.as_str()), "&text=t-");
    cat2(&head, coid.as_str())
}

/// The query that means all orders of a contract.
pub fn contract_query(symbol: &SymbolId) -> (r: String)
    ensures
        r@ == "contract="@ + native_of(VenueId::Gate, symbol@),
{
    cat2("contract=", &native_symbol(VenueId::Gate, symbol.as_str()))
}

/// The query that asks for the open orders of a contract.
pub fn open_query(symbol: &SymbolId) -> (r: String)
    ensures
        r@ == "status=open&contract="@ + native_of(VenueId::Gate, symbol@),
{
    cat2("status=open&contract=", &native_symbol(VenueId::Gate, symbol.as_str()))
}

/// The place of the order that an amendment means: the first whose id ends in the one given.
pub open spec fn amend_place(v: Seq<OrderRecord>, coid: Seq<char>, i: int) -> int
    decreases v.len() - i,
{
    if 0 <= i < v.len() && !ends(v[i].coid@, coid) {
        amend_place(v, coid, i + 1)
    } else {
        i
    }
}

/// The number under which the venue keeps the order that an amendment means.
pub fn amend_target(orders: &Vec<OrderRecord>, coid: &ClientOrderId) -> (r: Option<String>)
    ensures
        ({
            let p = amend_place(orders@, coid@, 0);
            opt_view(r) == (if p < orders@.len() {
                opt_view(orders@[p].exchange_id)
            } else {
                None
            })
        }),
{
    let mut i: usize = 0;
    while i < orders.len()
        invariant
            i <= orders.len(),
            amend_place(orders@, coid@, 0) == amend_place(orders@, coid@, i as int),
        decreases orders.len() - i,
    {
        if ends_with(orders[i].coid.as_str(), coid.as_str()) {
            return orders[i].exchange_id.clone();
        }
        i = i + 1;
    }
    None
}

/// What the account's mode asks for.
#[derive(Clone, Copy, Debug, PartialEq, Eq, Structural)]
pub enum UnifiedStep {
    /// The account can trade perpetuals.
    Fine,
    /// Trading perpetuals is to be switched on.
    EnableFutures,
    /// The account is a classic one, which is not changed.
    Classic,
    /// The mode is none that is known.
    Unknown,
}

/// What the account's mode asks for.
pub open spec fn unified_reaction(v: Json) -> UnifiedStep {
    let mode = v.text_or("mode"@, ""@);
    let futures = match v.field("settings"@) {
        Some(s) => s.bool_or("usdt_futures"@, false),
        None => false,
    };
    if mode == "multi_currency"@ {
        if futures {
            UnifiedStep::Fine
        } else {
            UnifiedStep::EnableFutures
        }
    } else if mode == "portfolio"@ || mode == "single_currency"@ {
        UnifiedStep::Fine
    } else if mode == "classic"@ || mode == ""@ {
        UnifiedStep::Classic
    } else {
        UnifiedStep::Unknown
    }
}

pub fn unified_step(v: &Json) -> (r: UnifiedStep)
    ensures
        r == unified_reaction(*v),
{
    let mode = v.get_text_or("mode", "");
    let futures = match v.get("settings") {
        Some(s) => s.get_bool_or("usdt_futures", false),
        None => false,
    };
    if same_text(&mode, "multi_currency") {
        if futures {
            UnifiedStep::Fine
        } else {
            UnifiedStep::EnableFutures
        }
    } else if same_text(&mode, "portfolio") || same_text(&mode, "single_currency") {
        UnifiedStep::Fine
    } else if same_text(&mode, "classic") || same_text(&mode, "") {
        UnifiedStep::Classic
    } else {
        UnifiedStep::Unknown
    }
}

/// The request that switches trading perpetuals on.
pub open spec fn enable_futures_body() -> JsonV {
    JsonV::Object(
        seq![
            ("mode"@, JsonV::Text("multi_currency"@)),
            ("settings"@, JsonV::Object(seq![("usdt_futures"@, JsonV::Bool(true))])),
        ],
    )
}

pub fn enable_futures() -> (r: String)
    ensures
        r@ == json_written(enable_futures_body()),
{
    let mut s = no_members();
    add_member(&mut s, "usdt_futures", Json::Bool(true));
    let settings = object_json(s);
    let mut b = no_members();
    add_member(&mut b, "mode", text_json("multi_currency"));
    add_member(&mut b, "settings", settings);
    let body = object_json(b);
    proof {
        assert(settings.says()->Object_0 =~= (enable_futures_body()->Object_0)[1].1->Object_0);
        assert(body.says()->Object_0 =~= enable_futures_body()->Object_0);
    }
    write_json(&body)
}

/// The position mode that an account is in.
pub open spec fn position_mode(account: Json) -> Seq<char> {
    match account.text_at("position_mode"@) {
        Some(m) => m,
        None => if account.bool_or("in_dual_mode"@, false) {
            "dual"@
        } else {
            "single"@
        },
    }
}

pub fn current_position_mode(account: &Json) -> (r: String)
    ensures
        r@ == position_mode(*account),
{
    match account.get_text("position_mode") {
        Some(m) => m.clone(),
        None => if account.get_bool_or("in_dual_mode", false) {
            "dual".to_owned()
        } else {
            "single".to_owned()
        },
    }
}

pub fn is_single_position_mode(account: &Json) -> (r: bool)
    ensures
        r == (position_mode(*account) == "single"@),
{
    proof {
        reveal_strlit("dual");
        reveal_strlit("single");
        assert("dual"@[0] == 'd');
        assert("single"@[0] == 's');
    }
    match account.get_text("position_mode") {
        Some(m) => same_text(m, "single"),
        None => !account.get_bool_or("in_dual_mode", false),
    }
}

/// The kind of a contract.
pub open spec fn contract_kind(c: Json) -> ContractKind {
    let t = c.text_or("contract_type"@, ""@);
    if t == "stocks"@ {
        ContractKind::Stock
    } else if t == "metals"@ || t == "indices"@ || t == "forex"@ || t == "commodities"@ {
        ContractKind::Other
    } else {
        ContractKind::Crypto
    }
}

fn kind_of(c: &Json) -> (r: ContractKind)
    ensures
        r == contract_kind(*c),
{
    let t = c.get_text_or("contract_type", "");
    if same_text(&t, "stocks") {
        ContractKind::Stock
    } else if same_text(&t, "metals") || same_text(&t, "indices") || same_text(&t, "forex")
        || same_text(&t, "commodities") {
        ContractKind::Other
    } else {
        ContractKind::Crypto
    }
}

/// A decimal that a text writes out, or what stands in for it.
pub open spec fn decimal_or(s: Seq<char>, fallback: Decimal) -> Decimal {
    match decimal_parsed(s) {
        Some(d) => d,
        None => fallback,
    }
}

/// A decimal that a text writes out, or what stands in for it.
pub fn dec_or(s: &str, fallback: Decimal) -> (r: Decimal)
    ensures
        r == decimal_or(s@, fallback),
{
    match Decimal::parse(s) {
        Some(d) => d,
        None => fallback,
    }
}

/// What a member says, null where it is missing.
pub open spec fn said_at(c: Json, key: Seq<char>) -> JsonV {
    match c.field(key) {
        Some(v) => v.says(),
        None => JsonV::Null,
    }
}

/// The quote volume of a day.
pub open spec fn volume_of(c: Json) -> Decimal {
    match decimal_parsed(c.text_or("volume_24h_quote"@, "0"@)) {
        Some(d) => d,
        None => decimal_or(json_written(said_at(c, "volume_24h_quote"@)), dec_zero()),
    }
}

fn read_volume(c: &Json) -> (r: Decimal)
    ensures
        r == volume_of(*c),
{
    match Decimal::parse(&c.get_text_or("volume_24h_quote", "0")) {
        Some(d) => d,
        None => {
            let written = match c.get("volume_24h_quote") {
                Some(v) => write_json(v),
                None => write_json(&Json::Null),
            };
            dec_or(&written, Decimal::zero())
        },
    }
}

/// The smallest order of a contract.
pub open spec fn smallest_order(c: Json) -> Decimal {
    let lot = c.int_or("order_size_min"@, 1);
    dec_int(
        if lot > 1 {
            lot as int
        } else {
            1
        },
    )
}

/// A contract that is passed over: one that is being delisted, has no name, or is an inverse one.
pub open spec fn passed_over(c: Json) -> bool {
    ||| c.bool_or("in_delisting"@, false)
    ||| c.text_or("name"@, ""@).len() == 0
    ||| c.text_or("type"@, "direct"@) == "inverse"@
}

/// The instrument that a contract is.
pub open spec fn contract_of(c: Json) -> Result<InstV, FeedError> {
    match (
        decimal_parsed(c.text_or("order_price_round"@, "0.01"@)),
        decimal_parsed(c.text_or("quanto_multiplier"@, "1"@)),
    ) {
        (Some(tick), Some(quanto)) => Ok(
            InstV {
                venue: VenueId::Gate,
                symbol: canonical(c.text_or("name"@, ""@)),
                native_symbol: c.text_or("name"@, ""@),
                tick_size: tick,
                lot_size: smallest_order(c),
                contract_size: if quanto.zero_valued() {
                    dec_one()
                } else {
                    quanto
                },
                min_qty: smallest_order(c),
                min_notional: dec_zero(),
                quote_ccy: "USDT"@,
                maker_fee: decimal_or(
                    c.text_or("maker_fee_rate"@, "0.0002"@),
                    Decimal { mantissa: 2, scale: 4 },
                ),
                taker_fee: decimal_or(
                    c.text_or("taker_fee_rate"@, "0.0005"@),
                    Decimal { mantissa: 5, scale: 4 },
                ),
                kind: contract_kind(c),
                status: if c.bool_or("in_trading"@, true) {
                    InstrumentStatus::Trading
                } else {
                    InstrumentStatus::Halt
                },
                volume_24h: volume_of(c),
            },
        ),
        _ => Err(FeedError::BadDecimal),
    }
}

/// `acc` and the instruments of the contracts from `i` on.
pub open spec fn contracts_from(v: Seq<Json>, i: int, acc: Seq<InstV>) -> Result<
    Seq<InstV>,
    FeedError,
>
    decreases v.len() - i,
{
    if !(0 <= i < v.len()) {
        Ok(acc)
    } else if passed_over(v[i]) {
        contracts_from(v, i + 1, acc)
    } else {
        match contract_of(v[i]) {
            Err(e) => Err(e),
            Ok(inst) => contracts_from(v, i + 1, acc.push(inst)),
        }
    }
}

fn is_passed_over(c: &Json) -> (r: bool)
    ensures
        r == passed_over(*c),
{
    let name = c.get_text_or("name", "");
    let unnamed = same_text(&name, "");
    proof {
        reveal_strlit("");
        if name@.len() == 0 {
            assert(name@ =~= ""@);
        }
    }
    c.get_bool_or("in_delisting", false) || unnamed || same_text(
        &c.get_text_or("type", "direct"),
        "inverse",
    )
}

fn read_contract(c: &Json) -> (r: Result<Instrument, FeedError>)
    ensures
        match r {
            Ok(inst) => contract_of(*c) == Ok::<InstV, FeedError>(inst@),
            Err(e) => contract_of(*c) == Err::<InstV, FeedError>(e),
        },
{
    let tick = match Decimal::parse(&c.get_text_or("order_price_round", "0.01")) {
        Some(d) => d,
        None => {
            return Err(FeedError::BadDecimal);
        },
    };
    let quanto = match Decimal::parse(&c.get_text_or("quanto_multiplier", "1")) {
        Some(d) => d,
        None => {
            return Err(FeedError::BadDecimal);
        },
    };
    let native = c.get_text_or("name", "");
    let lot = c.get_int_or("order_size_min", 1);
    let least = Decimal::from_int(
        if lot > 1 {
            lot
        } else {
            1
        },
    );
    Ok(
        Instrument {
            venue: VenueId::Gate,
            symbol: SymbolId::new(&native),
            native_symbol: native,
            tick_size: tick,
            lot_size: least,
            contract_size: if quanto.is_zero() {
                Decimal::one()
            } else {
                quanto
            },
            min_qty: least,
            min_notional: Decimal::zero(),
            quote_ccy: "USDT".to_owned(),
            maker_fee: dec_or(&c.get_text_or("maker_fee_rate", "0.0002"), Decimal::new(2, 4)),
            taker_fee: dec_or(&c.get_text_or("taker_fee_rate", "0.0005"), Decimal::new(5, 4)),
            kind: kind_of(c),
            status: if c.get_bool_or("in_trading", true) {
                InstrumentStatus::Trading
            } else {
                InstrumentStatus::Halt
            },
            volume_24h: read_volume(c),
        },
    )
}

/// The instruments of Gate's catalogue.
pub fn list_instruments(v: &Json) -> (r: Result<Vec<Instrument>, FeedError>)
    ensures
        match v.list_value() {
            None => r == Err::<Vec<Instrument>, FeedError>(FeedError::NotAList),
            Some(list) => match r {
                Ok(out) => contracts_from(list, 0, Seq::empty()) == Ok::<Seq<InstV>, FeedError>(
                    insts(out@),
                ),
                Err(e) => contracts_from(list, 0, Seq::empty()) == Err::<Seq<InstV>, FeedError>(e),
            },
        },
{
    let list = match v.as_list() {
        Some(l) => l,
        None => {
            return Err(FeedError::NotAList);
        },
    };
    let mut out: Vec<Instrument> = Vec::new();
    let mut i: usize = 0;
    let ghost goal = contracts_from(list@, 0, Seq::empty());
    assert(insts(out@) =~= Seq::<InstV>::empty());
    while i < list.len()
        invariant
            i <= list.len(),
            v.list_value() == Some(list@),
            goal == contracts_from(list@, 0, Seq::empty()),
            goal == contracts_from(list@, i as int, insts(out@)),
        decreases list.len() - i,
    {
        let c = &list[i];
        if !is_passed_over(c) {
            let inst = match read_contract(c) {
                Ok(inst) => inst,
                Err(e) => {
                    return Err(e);
                },
            };
            let ghost before = out@;
            out.push(inst);
            assert(insts(out@) =~= insts(before).push(inst@));
        }
        i = i + 1;
    }
    Ok(out)
}

/// What a list of volumes says.
pub open spec fn volumes_said(v: Seq<(SymbolId, Decimal)>) -> Seq<(Seq<char>, Decimal)> {
    v.map_values(|e: (SymbolId, Decimal)| (e.0@, e.1))
}

/// The symbol and the day's volume of a ticker.
pub open spec fn ticker_volume(t: Json) -> (Seq<char>, Decimal) {
    let q = match t.text_at("volume_24h_quote"@) {
        Some(s) => s,
        None => t.text_or("volume_24h_settle"@, "0"@),
    };
    (canonical(t.text_or("contract"@, ""@)), decimal_or(q, dec_zero()))
}

/// The symbols and day's volumes of Gate's tickers; none where they are no list.
pub fn volumes(v: &Json) -> (r: Vec<(SymbolId, Decimal)>)
    ensures
        volumes_said(r@) == (match v.list_value() {
            Some(list) => list.map_values(|t: Json| ticker_volume(t)),
            None => Seq::empty(),
        }),
{
    let mut out: Vec<(SymbolId, Decimal)> = Vec::new();
    assert(volumes_said(out@) =~= Seq::<(Seq<char>, Decimal)>::empty());
    let list = match v.as_list() {
        Some(l) => l,
        None => {
            return out;
        },
    };
    let mut i: usize = 0;
    while i < list.len()
        invariant
            i <= list.len(),
            out@.len() == i,
            forall|j: int| 0 <= j < i ==> ((#[trigger] out@[j]).0@, out@[j].1) == ticker_volume(
                list@[j],
            ),
        decreases list.len() - i,
    {
        let t = &list[i];
        let q = match t.get_text("volume_24h_quote") {
            Some(s) => s.clone(),
            None => t.get_text_or("volume_24h_settle", "0"),
        };
        out.push(
            (SymbolId::new(&t.get_text_or("contract", "")), dec_or(&q, Decimal::zero())),
        );
        i = i + 1;
    }
    assert(volumes_said(out@) =~= list@.map_values(|t: Json| ticker_volume(t)));
    out
}

/// A whole number of a member, or what stands in for it.
pub open spec fn whole_or(o: Json, key: Seq<char>, fallback: i64) -> i64 {
    match o.field(key) {
        Some(v) => match v.whole_value() {
            Some(n) => n,
            None => fallback,
        },
        None => fallback,
    }
}

fn get_whole_or(o: &Json, key: &str, fallback: i64) -> (r: i64)
    ensures
        r == whole_or(*o, key@, fallback),
{
    match o.get(key) {
        Some(v) => match v.as_whole() {
            Some(n) => n,
            None => fallback,
        },
        None => fallback,
    }
}

/// A decimal of a member.
pub open spec fn decimal_at(o: Json, key: Seq<char>) -> Option<Decimal> {
    match o.field(key) {
        Some(v) => v.decimal_value(),
        None => None,
    }
}

fn get_decimal(o: &Json, key: &str) -> (r: Option<Decimal>)
    ensures
        r == decimal_at(*o, key@),
{
    match o.get(key) {
        Some(v) => v.as_decimal(),
        None => None,
    }
}

/// The size of a number without its sign.
pub open spec fn size_of(n: i64) -> int {
    if n < 0 {
        -n
    } else {
        n as int
    }
}

fn magnitude(n: i64) -> (r: i128)
    ensures
        r == size_of(n),
{
    if n < 0 {
        -(n as i128)
    } else {
        n as i128
    }
}

/// How much of an order was filled.
pub open spec fn filled_of(size: i64, left: i64) -> int {
    if size_of(size) > size_of(left) {
        size_of(size) - size_of(left)
    } else {
        0
    }
}

fn filled(size: i64, left: i64) -> (r: Decimal)
    ensures
        r == dec_int(filled_of(size, left)),
{
    let a = magnitude(size);
    let b = magnitude(left);
    Decimal {
        mantissa: if a > b {
            a - b
        } else {
            0
        },
        scale: 0,
    }
}

/// The id of an order, out of the text that Gate keeps it in.
pub open spec fn id_in_tag(text: Seq<char>) -> Seq<char> {
    if starts(text, "t-"@) {
        text.skip(2)
    } else {
        text
    }
}

fn coid_in_tag(text: &str) -> (r: ClientOrderId)
    ensures
        r@ == id_in_tag(text@),
{
    proof {
        reveal_strlit("t-");
    }
    match strip_prefix(text, "t-") {
        Some(s) => ClientOrderId(s),
        None => ClientOrderId(text.to_owned()),
    }
}

/// An order's id is the one that its text at Gate leads back to.
pub proof fn law_tag_leads_back(coid: Seq<char>)
    ensures
        id_in_tag(tag_of(coid)) == coid,
{
    reveal_strlit("t-");
    let t = tag_of(coid);
    assert(t.subrange(0, 2) =~= "t-"@);
    assert(t.skip(2) =~= coid);
}

/// The side that a signed size means.
pub open spec fn side_of(size: i64) -> Side {
    if size >= 0 {
        Side::Buy
    } else {
        Side::Sell
    }
}

/// The number under which a venue keeps an order, as a text.
pub open spec fn number_text(n: Option<i64>) -> Option<Seq<char>> {
    match n {
        Some(i) => Some(signed_digits(i as int)),
        None => None,
    }
}

/// The number under which a venue keeps an order, as a text.
pub fn id_text(n: Option<i64>) -> (r: Option<String>)
    ensures
        opt_view(r) == number_text(n),
{
    match n {
        Some(i) => Some(signed_text(i)),
        None => None,
    }
}

/// The record of an open order.
pub open spec fn open_order(o: Json, symbol: Seq<char>, now: Ts) -> OrderRecordV {
    let size = whole_or(o, "size"@, 0);
    let left = whole_or(o, "left"@, size);
    OrderRecordV {
        coid: id_in_tag(o.text_or("text"@, ""@)),
        strategy_id: ""@,
        venue: VenueId::Gate,
        symbol,
        side: side_of(size),
        purpose: ""@,
        px: Px(
            match decimal_at(o, "price"@) {
                Some(p) => p,
                None => dec_zero(),
            },
        ),
        qty: Qty(dec_int(size_of(size))),
        filled_qty: Qty(dec_int(filled_of(size, left))),
        status: o.text_or("status"@, "open"@),
        exchange_id: number_text(o.int_at("id"@)),
        reduce_only: o.bool_or("is_reduce_only"@, false),
        created_at: Ts(clamp_i64(o.int_or("create_time"@, 0) * 1_000_000_000) as i64),
        updated_at: now,
    }
}

fn read_open_order(o: &Json, symbol: &SymbolId, now: Ts) -> (r: OrderRecord)
    ensures
        r@ == open_order(*o, symbol@, now),
{
    let size = get_whole_or(o, "size", 0);
    let left = get_whole_or(o, "left", size);
    OrderRecord {
        coid: coid_in_tag(&o.get_text_or("text", "")),
        strategy_id: "".to_owned(),
        venue: VenueId::Gate,
        symbol: symbol.clone(),
        side: if size >= 0 {
            Side::Buy
        } else {
            Side::Sell
        },
        purpose: "".to_owned(),
        px: Px(
            match get_decimal(o, "price") {
                Some(p) => p,
                None => Decimal::zero(),
            },
        ),
        qty: Qty(Decimal { mantissa: magnitude(size), scale: 0 }),
        filled_qty: Qty(filled(size, left)),
        status: o.get_text_or("status", "open"),
        exchange_id: id_text(o.get_int("id")),
        reduce_only: o.get_bool_or("is_reduce_only", false),
        created_at: Ts::from_secs(o.get_int_or("create_time", 0)),
        updated_at: now,
    }
}

/// The open orders that Gate reports.
pub fn open_orders(v: &Json, symbol: &SymbolId, now: Ts) -> (r: Result<Vec<OrderRecord>, FeedError>)
    ensures
        match v.list_value() {
            None => r == Err::<Vec<OrderRecord>, FeedError>(FeedError::NotAList),
            Some(list) => r matches Ok(out) && records(out@) == list.map_values(
                |o: Json| open_order(o, symbol@, now),
            ),
        },
{
    let list = match v.as_list() {
        Some(l) => l,
        None => {
            return Err(FeedError::NotAList);
        },
    };
    let mut out: Vec<OrderRecord> = Vec::new();
    let mut i: usize = 0;
    while i < list.len()
        invariant
            i <= list.len(),
            out@.len() == i,
            forall|j: int| 0 <= j < i ==> (#[trigger] out@[j])@ == open_order(
                list@[j],
                symbol@,
                now,
            ),
        decreases list.len() - i,
    {
        out.push(read_open_order(&list[i], symbol, now));
        i = i + 1;
    }
    assert(records(out@) =~= list@.map_values(|o: Json| open_order(o, symbol@, now)));
    Ok(out)
}

/// The position that a value is; none where it is flat or has no size.
pub open spec fn position_of(p: Json, now: Ts) -> Option<PosV> {
    match p.field("size"@) {
        None => None,
        Some(s) => match s.whole_value() {
            None => None,
            Some(size) => if size == 0 {
                None
            } else {
                Some(
                    PosV {
                        venue: VenueId::Gate,
                        symbol: canonical(p.text_or("contract"@, ""@)),
                        net_qty: Qty(dec_int(size as int)),
                        avg_px: match decimal_at(p, "entry_price"@) {
                            Some(d) => Some(Px(d)),
                            None => None,
                        },
                        ts: now,
                    },
                )
            },
        },
    }
}

/// What an optional position is.
pub open spec fn opt_pos(p: Option<PositionSnapshot>) -> Option<PosV> {
    match p {
        Some(x) => Some(x@),
        None => None,
    }
}

pub fn parse_gate_position(p: &Json, now: Ts) -> (r: Option<PositionSnapshot>)
    ensures
        opt_pos(r) == position_of(*p, now),
{
    let size = p.get("size")?.as_whole()?;
    if size == 0 {
        return None;
    }
    Some(
        PositionSnapshot {
            venue: VenueId::Gate,
            symbol: SymbolId::new(&p.get_text_or("contract", "")),
            net_qty: Qty(Decimal::from_int(size)),
            avg_px: match get_decimal(p, "entry_price") {
                Some(d) => Some(Px(d)),
                None => None,
            },
            ts: now,
        },
    )
}

/// The place of the position in a symbol among those of a list; its length if there is none.
pub open spec fn symbol_place(v: Seq<PosV>, symbol: Seq<char>, i: int) -> int
    decreases v.len() - i,
{
    if 0 <= i < v.len() && v[i].symbol != symbol {
        symbol_place(v, symbol, i + 1)
    } else {
        i
    }
}

/// The positions of a list with one more: added to the one in the same symbol, where there is one.
pub open spec fn position_merged(v: Seq<PosV>, p: PosV) -> Option<Seq<PosV>> {
    let k = symbol_place(v, p.symbol, 0);
    if k < v.len() {
        match decimal_sum(v[k].net_qty.0, p.net_qty.0) {
            None => None,
            Some(n) => Some(v.update(k, PosV { net_qty: Qty(n), ts: p.ts, ..v[k] })),
        }
    } else {
        Some(v.push(p))
    }
}

/// `acc` and the positions of the values from `i` on, one for each symbol.
pub open spec fn merged_from(v: Seq<Json>, i: int, now: Ts, acc: Seq<PosV>) -> Option<Seq<PosV>>
    decreases v.len() - i,
{
    if !(0 <= i < v.len()) {
        Some(acc)
    } else {
        match position_of(v[i], now) {
            None => merged_from(v, i + 1, now, acc),
            Some(p) => match position_merged(acc, p) {
                None => None,
                Some(next) => merged_from(v, i + 1, now, next),
            },
        }
    }
}

/// Positions that are not flat.
pub open spec fn held(v: Seq<PosV>) -> Seq<PosV> {
    v.filter(|p: PosV| !p.net_qty.0.zero_valued())
}

fn merge_position(v: &mut Vec<PositionSnapshot>, p: PositionSnapshot) -> (r: Option<()>)
    ensures
        match r {
            Some(_) => position_merged(poss(old(v)@), p@) == Some(poss(final(v)@)),
            None => position_merged(poss(old(v)@), p@) is None,
        },
{
    let ghost before = poss(v@);
    let mut i: usize = 0;
    while i < v.len()
        invariant
            i <= v.len(),
            *v == *old(v),
            before == poss(v@),
            symbol_place(before, p.symbol@, 0) == symbol_place(before, p.symbol@, i as int),
        decreases v.len() - i,
    {
        if v[i].symbol == p.symbol {
            let n = v[i].net_qty.0.checked_add(p.net_qty.0)?;
            let merged = PositionSnapshot {
                venue: v[i].venue,
                symbol: v[i].symbol.clone(),
                net_qty: Qty(n),
                avg_px: v[i].avg_px,
                ts: p.ts,
            };
            v.set(i, merged);
            assert(poss(v@) =~= before.update(i as int, merged@));
            return Some(());
        }
        i = i + 1;
    }
    v.push(p);
    assert(poss(v@) =~= before.push(p@));
    Some(())
}

fn keep_held(v: Vec<PositionSnapshot>) -> (r: Vec<PositionSnapshot>)
    ensures
        poss(r@) == held(poss(v@)),
{
    let ghost all = poss(v@);
    let ghost p = |p: PosV| !p.net_qty.0.zero_valued();
    let mut r: Vec<PositionSnapshot> = Vec::new();
    let mut i: usize = 0;
    assert(poss(r@) =~= all.take(0).filter(p)) by {
        reveal(Seq::filter);
    }
    while i < v.len()
        invariant
            i <= v.len(),
            all == poss(v@),
            p == (|p: PosV| !p.net_qty.0.zero_valued()),
            poss(r@) == all.take(i as int).filter(p),
        decreases v.len() - i,
    {
        let x = &v[i];
        proof {
            reveal(Seq::filter);
            assert(all.take(i + 1).drop_last() =~= all.take(i as int));
            assert(all.take(i + 1).last() == x@);
        }
        if !x.net_qty.is_zero() {
            let ghost before = r@;
            let copy = PositionSnapshot {
                venue: x.venue,
                symbol: x.symbol.clone(),
                net_qty: x.net_qty,
                avg_px: x.avg_px,
                ts: x.ts,
            };
            r.push(copy);
            assert(poss(r@) =~= poss(before).push(x@));
        }
        i = i + 1;
    }
    assert(all.take(i as int) =~= all);
    r
}

/// The positions that Gate reports, one for each symbol, without flat ones.
pub fn positions(v: &Json, now: Ts) -> (r: Result<Vec<PositionSnapshot>, FeedError>)
    ensures
        match v.list_value() {
            None => r == Err::<Vec<PositionSnapshot>, FeedError>(FeedError::NotAList),
            Some(list) => match merged_from(list, 0, now, Seq::empty()) {
                None => r == Err::<Vec<PositionSnapshot>, FeedError>(FeedError::BadDecimal),
                Some(all) => r matches Ok(out) && poss(out@) == held(all),
            },
        },
{
    let list = match v.as_list() {
        Some(l) => l,
        None => {
            return Err(FeedError::NotAList);
        },
    };
    let mut out: Vec<PositionSnapshot> = Vec::new();
    let mut i: usize = 0;
    let ghost goal = merged_from(list@, 0, now, Seq::empty());
    assert(poss(out@) =~= Seq::<PosV>::empty());
    while i < list.len()
        invariant
            i <= list.len(),
            v.list_value() == Some(list@),
            goal == merged_from(list@, 0, now, Seq::empty()),
            goal == merged_from(list@, i as int, now, poss(out@)),
        decreases list.len() - i,
    {
        if let Some(p) = parse_gate_position(&list[i], now) {
            if merge_position(&mut out, p).is_none() {
                return Err(FeedError::BadDecimal);
            }
        }
        i = i + 1;
    }
    Ok(keep_held(out))
}

/// What an order report means. A finished order is terminal whatever the reason: it is never one
/// that still works.
pub open spec fn report_kind(o: Json) -> ExecKind {
    let size = whole_or(o, "size"@, 0);
    let left = whole_or(o, "left"@, size);
    if o.text_or("status"@, ""@) == "finished"@ {
        if left == 0 || o.text_or("finish_as"@, ""@) == "filled"@ {
            ExecKind::Fill
        } else {
            ExecKind::Canceled
        }
    } else if filled_of(size, left) > 0 {
        ExecKind::PartialFill
    } else {
        ExecKind::Ack
    }
}

/// A finished order is never reported as one that works.
pub proof fn law_finished_order_is_never_live(o: Json)
    requires
        o.text_or("status"@, ""@) == "finished"@,
    ensures
        report_kind(o) == ExecKind::Fill || report_kind(o) == ExecKind::Canceled,
{
}

/// A positive price of a member.
pub open spec fn positive_px(o: Json, key: Seq<char>) -> Option<Px> {
    match decimal_at(o, key) {
        Some(d) => if dec_zero().is_below(d) {
            Some(Px(d))
        } else {
            None
        },
        None => None,
    }
}

fn get_positive_px(o: &Json, key: &str) -> (r: Option<Px>)
    ensures
        r == positive_px(*o, key@),
{
    let d = get_decimal(o, key)?;
    if d.is_positive() {
        Some(Px(d))
    } else {
        None
    }
}

/// The report that an order push is; none without an id and a text.
pub open spec fn order_report(o: Json, now: Ts) -> Option<ExecV> {
    let size = whole_or(o, "size"@, 0);
    let left = whole_or(o, "left"@, size);
    let finish = o.text_or("finish_as"@, ""@);
    if o.field("id"@) is None && o.field("text"@) is None {
        None
    } else {
        Some(
            ExecV {
                coid: id_in_tag(o.text_or("text"@, ""@)),
                exchange_id: number_text(o.int_at("id"@)),
                venue: VenueId::Gate,
                symbol: canonical(o.text_or("contract"@, ""@)),
                kind: report_kind(o),
                side: side_of(size),
                px: positive_px(o, "price"@),
                qty: Some(Qty(dec_int(size_of(size)))),
                filled_qty: Qty(dec_int(filled_of(size, left))),
                last_px: positive_px(o, "fill_price"@),
                last_qty: None,
                reason: if finish.len() == 0 {
                    None
                } else {
                    Some(finish)
                },
                ts: now,
            },
        )
    }
}

fn read_kind(o: &Json) -> (r: ExecKind)
    ensures
        r == report_kind(*o),
{
    let size = get_whole_or(o, "size", 0);
    let left = get_whole_or(o, "left", size);
    if same_text(&o.get_text_or("status", ""), "finished") {
        if left == 0 || same_text(&o.get_text_or("finish_as", ""), "filled") {
            ExecKind::Fill
        } else {
            ExecKind::Canceled
        }
    } else if magnitude(size) > magnitude(left) {
        ExecKind::PartialFill
    } else {
        ExecKind::Ack
    }
}

/// What an optional report says.
pub open spec fn opt_exec(e: Option<ExecReport>) -> Option<ExecV> {
    match e {
        Some(x) => Some(x@),
        None => None,
    }
}

pub fn parse_gate_order(o: &Json, now: Ts) -> (r: Option<ExecReport>)
    ensures
        opt_exec(r) == order_report(*o, now),
{
    if o.get("id").is_none() && o.get("text").is_none() {
        return None;
    }
    let size = get_whole_or(o, "size", 0);
    let left = get_whole_or(o, "left", size);
    let finish = o.get_text_or("finish_as", "");
    let unfinished = same_text(&finish, "");
    proof {
        reveal_strlit("");
        if finish@.len() == 0 {
            assert(finish@ =~= ""@);
        }
    }
    Some(
        ExecReport {
            coid: coid_in_tag(&o.get_text_or("text", "")),
            exchange_id: id_text(o.get_int("id")),
            venue: VenueId::Gate,
            symbol: SymbolId::new(&o.get_text_or("contract", "")),
            kind: read_kind(o),
            side: if size >= 0 {
                Side::Buy
            } else {
                Side::Sell
            },
            px: get_positive_px(o, "price"),
            qty: Some(Qty(Decimal { mantissa: magnitude(size), scale: 0 })),
            filled_qty: Qty(filled(size, left)),
            last_px: get_positive_px(o, "fill_price"),
            last_qty: None,
            reason: if unfinished {
                None
            } else {
                Some(finish)
            },
            ts: now,
        },
    )
}

/// The update of the best bid and ask that a value is.
pub open spec fn book_update(v: Json, now: Ts) -> Option<(BookV, Option<u64>)> {
    if v.text_at("channel"@) != Some("futures.book_ticker"@) {
        None
    } else {
        match v.field("result"@) {
            None => None,
            Some(r) => if r is List {
                None
            } else {
                match (r.text_at("s"@), decimal_at(r, "b"@), decimal_at(r, "a"@)) {
                    (Some(native), Some(bid), Some(ask)) => Some(
                        (
                            BookV {
                                venue: VenueId::Gate,
                                symbol: canonical(native),
                                bid_px: Px(bid),
                                bid_qty: Qty(
                                    match decimal_at(r, "B"@) {
                                        Some(q) => q,
                                        None => dec_one(),
                                    },
                                ),
                                ask_px: Px(ask),
                                ask_qty: Qty(
                                    match decimal_at(r, "A"@) {
                                        Some(q) => q,
                                        None => dec_one(),
                                    },
                                ),
                                exchange_ts: match r.int_at("t"@) {
                                    Some(ms) => Ts(clamp_i64(ms * 1_000_000) as i64),
                                    None => now,
                                },
                                recv_ts: now,
                            },
                            r.uint_at("u"@),
                        ),
                    ),
                    _ => None,
                }
            },
        }
    }
}

/// What an optional update says.
pub open spec fn opt_update(u: Option<BookUpdate>) -> Option<(BookV, Option<u64>)> {
    match u {
        Some(x) => Some((x.book@, x.seq)),
        None => None,
    }
}

pub fn book_ticker(v: &Json, now: Ts) -> (r: Option<BookUpdate>)
    ensures
        opt_update(r) == book_update(*v, now),
{
    if !same_text(v.get_text("channel")?, "futures.book_ticker") {
        return None;
    }
    let r = v.get("result")?;
    if let Json::List(_) = r {
        return None;
    }
    let native = r.get_text("s")?;
    let bid = get_decimal(r, "b")?;
    let ask = get_decimal(r, "a")?;
    let bid_qty = match get_decimal(r, "B") {
        Some(q) => q,
        None => Decimal::one(),
    };
    let ask_qty = match get_decimal(r, "A") {
        Some(q) => q,
        None => Decimal::one(),
    };
    let exchange_ts = match r.get_int("t") {
        Some(ms) => Ts::from_millis(ms),
        None => now,
    };
    Some(
        BookUpdate {
            book: TopOfBook {
                venue: VenueId::Gate,
                symbol: SymbolId::new(native),
                bid_px: Px(bid),
                bid_qty: Qty(bid_qty),
                ask_px: Px(ask),
                ask_qty: Qty(ask_qty),
                exchange_ts,
                recv_ts: now,
            },
            seq: r.get_uint("u"),
        },
    )
}

/// The update of the best bid and ask that a text writes out.
pub fn parse_book_ticker(text: &str, now: Ts) -> (r: Option<BookUpdate>)
    ensures
        opt_update(r) == (match json_read(text@) {
            Some(v) => book_update(v, now),
            None => None,
        }),
{
    let v = read_json(text)?;
    book_ticker(&v, now)
}

/// The items that a push carries: its list, or the one thing it holds.
pub open spec fn pushed_items(v: Json) -> Seq<Json> {
    match v.field("result"@) {
        Some(r) => match r {
            Json::List(l) => l@,
            _ => seq![r],
        },
        None => Seq::empty(),
    }
}

/// `acc` and the reports of the order pushes from `i` on.
pub open spec fn reports_from(v: Seq<Json>, i: int, now: Ts, acc: Seq<PrivateV>) -> Seq<PrivateV>
    decreases v.len() - i,
{
    if !(0 <= i < v.len()) {
        acc
    } else {
        match order_report(v[i], now) {
            None => reports_from(v, i + 1, now, acc),
            Some(e) => reports_from(v, i + 1, now, acc.push(PrivateV::Exec(e))),
        }
    }
}

/// `acc` and the positions of the pushes from `i` on.
pub open spec fn pushed_positions(v: Seq<Json>, i: int, now: Ts, acc: Seq<PrivateV>) -> Seq<PrivateV>
    decreases v.len() - i,
{
    if !(0 <= i < v.len()) {
        acc
    } else {
        match position_of(v[i], now) {
            None => pushed_positions(v, i + 1, now, acc),
            Some(p) => pushed_positions(v, i + 1, now, acc.push(PrivateV::Position(p))),
        }
    }
}

/// What a private push says.
pub open spec fn private_said(v: Json, now: Ts) -> Seq<PrivateV> {
    let ch = v.text_or("channel"@, ""@);
    if ch == "futures.orders"@ {
        reports_from(pushed_items(v), 0, now, Seq::empty())
    } else if ch == "futures.positions"@ {
        pushed_positions(pushed_items(v), 0, now, Seq::empty())
    } else {
        Seq::empty()
    }
}

fn add_report(o: &Json, now: Ts, out: &mut Vec<PrivateMsg>)
    ensures
        msgs(final(out)@) == (match order_report(*o, now) {
            Some(e) => msgs(old(out)@).push(PrivateV::Exec(e)),
            None => msgs(old(out)@),
        }),
{
    if let Some(e) = parse_gate_order(o, now) {
        let m = PrivateMsg::Exec(e);
        out.push(m);
        assert(msgs(out@) =~= msgs(old(out)@).push(m@));
    }
}

fn add_position(p: &Json, now: Ts, out: &mut Vec<PrivateMsg>)
    ensures
        msgs(final(out)@) == (match position_of(*p, now) {
            Some(e) => msgs(old(out)@).push(PrivateV::Position(e)),
            None => msgs(old(out)@),
        }),
{
    if let Some(e) = parse_gate_position(p, now) {
        let m = PrivateMsg::Position(e);
        out.push(m);
        assert(msgs(out@) =~= msgs(old(out)@).push(m@));
    }
}

fn read_reports(v: &Json, now: Ts) -> (r: Vec<PrivateMsg>)
    ensures
        msgs(r@) == reports_from(pushed_items(*v), 0, now, Seq::empty()),
{
    let mut out: Vec<PrivateMsg> = Vec::new();
    assert(msgs(out@) =~= Seq::<PrivateV>::empty());
    let r = match v.get("result") {
        Some(r) => r,
        None => {
            return out;
        },
    };
    match r {
        Json::List(list) => {
            let ghost goal = reports_from(list@, 0, now, Seq::empty());
            let mut i: usize = 0;
            while i < list.len()
                invariant
                    i <= list.len(),
                    goal == reports_from(list@, i as int, now, msgs(out@)),
                decreases list.len() - i,
            {
                add_report(&list[i], now, &mut out);
                i = i + 1;
            }
            out
        },
        _ => {
            proof {
                reveal_with_fuel(reports_from, 2);
            }
            add_report(r, now, &mut out);
            out
        },
    }
}

fn read_positions(v: &Json, now: Ts) -> (r: Vec<PrivateMsg>)
    ensures
        msgs(r@) == pushed_positions(pushed_items(*v), 0, now, Seq::empty()),
{
    let mut out: Vec<PrivateMsg> = Vec::new();
    assert(msgs(out@) =~= Seq::<PrivateV>::empty());
    let r = match v.get("result") {
        Some(r) => r,
        None => {
            return out;
        },
    };
    match r {
        Json::List(list) => {
            let ghost goal = pushed_positions(list@, 0, now, Seq::empty());
            let mut i: usize = 0;
            while i < list.len()
                invariant
                    i <= list.len(),
                    goal == pushed_positions(list@, i as int, now, msgs(out@)),
                decreases list.len() - i,
            {
                add_position(&list[i], now, &mut out);
                i = i + 1;
            }
            out
        },
        _ => {
            proof {
                reveal_with_fuel(pushed_positions, 2);
            }
            add_position(r, now, &mut out);
            out
        },
    }
}

/// What a private push says.
pub fn private_msgs(v: &Json, now: Ts) -> (r: Vec<PrivateMsg>)
    ensures
        msgs(r@) == private_said(*v, now),
{
    let ch = v.get_text_or("channel", "");
    if same_text(&ch, "futures.orders") {
        read_reports(v, now)
    } else if same_text(&ch, "futures.positions") {
        read_positions(v, now)
    } else {
        let r: Vec<PrivateMsg> = Vec::new();
        assert(msgs(r@) =~= Seq::<PrivateV>::empty());
        r
    }
}

/// What the text of a private push says; nothing where it is no JSON.
pub fn parse_private(text: &str, now: Ts) -> (r: Vec<PrivateMsg>)
    ensures
        msgs(r@) == (match json_read(text@) {
            Some(v) => private_said(v, now),
            None => Seq::empty(),
        }),
{
    match read_json(text) {
        Some(v) => private_msgs(&v, now),
        None => {
            let r: Vec<PrivateMsg> = Vec::new();
            assert(msgs(r@) =~= Seq::<PrivateV>::empty());
            r
        },
    }
}

/// The report that an order among the open ones is asked about with.
pub open spec fn queried(v: Seq<OrderRecord>, coid: Seq<char>, i: int) -> Option<ExecV>
    decreases v.len() - i,
{
    if !(0 <= i < v.len()) {
        None
    } else if v[i].coid@ == coid {
        Some(
            ExecV {
                coid: v[i].coid@,
                exchange_id: opt_view(v[i].exchange_id),
                venue: VenueId::Gate,
                symbol: v[i].symbol@,
                kind: ExecKind::Ack,
                side: v[i].side,
                px: Some(v[i].px),
                qty: Some(v[i].qty),
                filled_qty: v[i].filled_qty,
                last_px: None,
                last_qty: None,
                reason: None,
                ts: v[i].updated_at,
            },
        )
    } else {
        queried(v, coid, i + 1)
    }
}

/// The report of an order among the open ones.
pub fn query_report(orders: &Vec<OrderRecord>, coid: &ClientOrderId) -> (r: Option<ExecReport>)
    ensures
        opt_exec(r) == queried(orders@, coid@, 0),
{
    let mut i: usize = 0;
    while i < orders.len()
        invariant
            i <= orders.len(),
            queried(orders@, coid@, 0) == queried(orders@, coid@, i as int),
        decreases orders.len() - i,
    {
        let o = &orders[i];
        if o.coid == *coid {
            return Some(
                ExecReport {
                    coid: o.coid.clone(),
                    exchange_id: o.exchange_id.clone(),
                    venue: VenueId::Gate,
                    symbol: o.symbol.clone(),
                    kind: ExecKind::Ack,
                    side: o.side,
                    px: Some(o.px),
                    qty: Some(o.qty),
                    filled_qty: o.filled_qty,
                    last_px: None,
                    last_qty: None,
                    reason: None,
                    ts: o.updated_at,
                },
            );
        }
        i = i + 1;
    }
    None
}

} // verus!
