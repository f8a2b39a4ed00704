//! What the messages of the venues are read as.
use crate::exchange::binance;
use crate::exchange::gate;
use crate::exchange::venue::PrivateV;
use crate::json::Json;
use crate::types::decimal::{dec_one, decimal_parsed, decimal_sum, lemma_sign, Decimal};
use crate::types::ids::{canonical, Side, VenueId};
use crate::types::instrument::{ContractKind, InstV, InstrumentStatus};
use crate::types::num::{Px, Qty};
use crate::types::order::ExecKind;
use crate::types::position::PosV;
use crate::types::time::Ts;
use vstd::prelude::*;

verus! {

/// The best bid that Gate pushes is the number of member `b`, the best ask that of member `a`; the sizes are
/// those of `B` and `A`, or one where they are missing. So a push whose bid is below its ask is no crossed
/// book.
pub proof fn law_gate_book_is_what_was_pushed(
    v: Json,
    r: Json,
    s: String,
    b: String,
    a: String,
    bid: Decimal,
    ask: Decimal,
    now: Ts,
)
    requires
        v.text_at("channel"@) == Some("futures.book_ticker"@),
        v.field("result"@) == Some(r),
        r.field("s"@) == Some(Json::Text(s)),
        r.field("b"@) == Some(Json::Text(b)),
        r.field("a"@) == Some(Json::Text(a)),
        decimal_parsed(b@) == Some(bid),
        decimal_parsed(a@) == Some(ask),
    ensures
        gate::book_update(v, now) matches Some(u) && {
            &&& u.0.venue == VenueId::Gate && u.0.symbol == canonical(s@)
            &&& u.0.bid_px.0 == bid && u.0.ask_px.0 == ask
            &&& bid.is_below(ask) ==> !u.0.ask_px.0.is_at_most(u.0.bid_px.0)
            &&& r.field("B"@) matches Some(Json::Text(q)) ==> (decimal_parsed(q@) matches Some(d)
                ==> u.0.bid_qty.0 == d)
            &&& r.field("A"@) matches Some(Json::Text(q)) ==> (decimal_parsed(q@) matches Some(d)
                ==> u.0.ask_qty.0 == d)
            &&& r.field("B"@) is None ==> u.0.bid_qty.0 == dec_one()
            &&& r.field("A"@) is None ==> u.0.ask_qty.0 == dec_one()
            &&& r.field("t"@) matches Some(Json::Number(n)) ==> (n.int matches Some(ms) ==> (
            i64::MIN <= ms * 1_000_000 <= i64::MAX ==> u.0.exchange_ts.0 == ms * 1_000_000))
            &&& r.field("t"@) is None ==> u.0.exchange_ts == now
            &&& u.0.recv_ts == now
            &&& r.field("u"@) matches Some(Json::Number(n)) ==> u.1 == n.uint
        },
{
}

/// Nothing but a push of the channel of best bids and asks, with a symbol, a bid and an ask, is a book.
pub proof fn law_gate_book_needs_its_members(v: Json, now: Ts)
    requires
        gate::book_update(v, now) is Some,
    ensures
        v.field("channel"@) matches Some(Json::Text(c)) && c@ == "futures.book_ticker"@,
        v.field("result"@) matches Some(r) && r.field("s"@) is Some && r.field("b"@) is Some
            && r.field("a"@) is Some,
{
}

/// The best bid that Binance pushes, by itself or in a combined stream, is the number of member `b`, the best
/// ask that of member `a`; the sizes are those of `B` and `A`.
pub proof fn law_binance_book_is_what_was_pushed(
    v: Json,
    d: Json,
    s: String,
    b: String,
    a: String,
    bq: String,
    aq: String,
    bid: Decimal,
    ask: Decimal,
    now: Ts,
)
    requires
        match v.field("data"@) {
            Some(x) => d == x,
            None => d == v,
        },
        d.field("s"@) == Some(Json::Text(s)),
        d.field("b"@) == Some(Json::Text(b)),
        d.field("a"@) == Some(Json::Text(a)),
        d.field("B"@) == Some(Json::Text(bq)),
        d.field("A"@) == Some(Json::Text(aq)),
        decimal_parsed(b@) == Some(bid),
        decimal_parsed(a@) == Some(ask),
    ensures
        binance::book_update(v, now) matches Some(u) && {
            &&& u.0.venue == VenueId::Binance && u.0.symbol == canonical(s@)
            &&& u.0.bid_px.0 == bid && u.0.ask_px.0 == ask
            &&& bid.is_below(ask) ==> !u.0.ask_px.0.is_at_most(u.0.bid_px.0)
            &&& decimal_parsed(bq@) matches Some(q) ==> u.0.bid_qty.0 == q
            &&& decimal_parsed(aq@) matches Some(q) ==> u.0.ask_qty.0 == q
            &&& d.field("E"@) matches Some(Json::Number(n)) ==> (n.int matches Some(ms) ==> (
            i64::MIN <= ms * 1_000_000 <= i64::MAX ==> u.0.exchange_ts.0 == ms * 1_000_000))
            &&& d.field("E"@) is None && d.field("T"@) is None ==> u.0.exchange_ts == now
            &&& u.0.recv_ts == now
            &&& d.field("u"@) matches Some(Json::Number(n)) ==> u.1 == n.uint
        },
{
}

/// How large a whole number is.
pub open spec fn how_many(n: i64) -> int {
    if n < 0 {
        -n
    } else {
        n as int
    }
}

/// An order that Gate pushes, of a size with its sign: a size below nothing is a sale, the order's size is the
/// number without its sign, and filled is what is not left. A finished one is filled if nothing is left or it
/// says so, and cancelled otherwise; one that is not finished is partly filled as soon as anything is.
pub proof fn law_gate_order_is_what_was_pushed(o: Json, size: i64, left: i64, now: Ts)
    requires
        o.field("id"@) is Some || o.field("text"@) is Some,
        o.field("size"@) matches Some(x) && x.whole_value() == Some(size),
        o.field("left"@) matches Some(x) && x.whole_value() == Some(left),
        how_many(left) <= how_many(size),
    ensures
        gate::order_report(o, now) matches Some(e) && {
            let done = how_many(size) - how_many(left);
            let finished = o.field("status"@) matches Some(Json::Text(t)) && t@ == "finished"@;
            let filled = o.field("finish_as"@) matches Some(Json::Text(t)) && t@ == "filled"@;
            &&& e.venue == VenueId::Gate && e.ts == now
            &&& e.side == Side::Sell <==> size < 0
            &&& e.qty matches Some(q) && q.0.mantissa == how_many(size) && q.0.scale == 0
            &&& e.filled_qty.0.mantissa == done && e.filled_qty.0.scale == 0
            &&& e.kind == ExecKind::Fill <==> finished && (left == 0 || filled)
            &&& e.kind == ExecKind::Canceled <==> finished && !(left == 0 || filled)
            &&& e.kind == ExecKind::PartialFill <==> !finished && done > 0
            &&& e.kind == ExecKind::Ack <==> !finished && done == 0
            &&& e.last_qty is None
            &&& o.field("contract"@) matches Some(Json::Text(c)) ==> e.symbol == canonical(c@)
            &&& o.field("price"@) matches Some(Json::Text(p)) ==> (decimal_parsed(p@) matches Some(d)
                ==> e.px == (if d.mantissa > 0 {
                Some(Px(d))
            } else {
                None
            }))
            &&& o.field("fill_price"@) matches Some(Json::Text(p)) ==> (decimal_parsed(p@) matches Some(
                d,
            ) ==> e.last_px == (if d.mantissa > 0 {
                Some(Px(d))
            } else {
                None
            }))
        },
{
    reveal_strlit("finished");
    reveal_strlit("filled");
    reveal_strlit("");
    assert("finished"@.len() == 8 && "filled"@.len() == 6 && ""@.len() == 0);
    if let Some(Json::Text(p)) = o.field("price"@) {
        lemma_sign(decimal_parsed(p@)->0);
    }
    if let Some(Json::Text(p)) = o.field("fill_price"@) {
        lemma_sign(decimal_parsed(p@)->0);
    }
}

/// An order that was sent to Gate under an id is reported under that id.
pub proof fn law_gate_order_keeps_its_id(o: Json, text: String, coid: Seq<char>, now: Ts)
    requires
        o.field("text"@) == Some(Json::Text(text)),
        text@ == "t-"@ + coid,
    ensures
        gate::order_report(o, now) matches Some(e) && e.coid == coid,
        forall|symbol: Seq<char>| (#[trigger] gate::open_order(o, symbol, now)).coid == coid,
{
    gate::law_tag_leads_back(coid);
    assert(crate::exchange::gate_trade::tag_of(coid) =~= text@);
}

/// An open order at Gate: side and sizes as in a push, price and symbol as they are.
pub proof fn law_gate_open_order_is_what_was_listed(
    o: Json,
    size: i64,
    left: i64,
    symbol: Seq<char>,
    now: Ts,
)
    requires
        o.field("size"@) matches Some(x) && x.whole_value() == Some(size),
        o.field("left"@) matches Some(x) && x.whole_value() == Some(left),
        how_many(left) <= how_many(size),
    ensures
        ({
            let r = gate::open_order(o, symbol, now);
            &&& r.venue == VenueId::Gate && r.symbol == symbol
            &&& r.side == Side::Sell <==> size < 0
            &&& r.qty.0.mantissa == how_many(size) && r.qty.0.scale == 0
            &&& r.filled_qty.0.mantissa == how_many(size) - how_many(left) && r.filled_qty.0.scale == 0
            &&& o.field("price"@) matches Some(Json::Text(p)) ==> (decimal_parsed(p@) matches Some(d)
                ==> r.px.0 == d)
            &&& o.field("is_reduce_only"@) matches Some(Json::Bool(b)) ==> r.reduce_only == b
            &&& o.field("is_reduce_only"@) is None ==> !r.reduce_only
            &&& o.field("status"@) matches Some(Json::Text(t)) ==> r.status == t@
        }),
{
}

/// A position at Gate is as long as its size says, short where that is negative, and none where it is zero.
pub proof fn law_gate_position_is_what_was_said(p: Json, size: i64, now: Ts)
    requires
        p.field("size"@) matches Some(x) && x.whole_value() == Some(size),
    ensures
        match gate::position_of(p, now) {
            None => size == 0,
            Some(r) => {
                &&& size != 0 && r.net_qty.0.mantissa == size && r.net_qty.0.scale == 0
                &&& r.venue == VenueId::Gate && r.ts == now
                &&& p.field("contract"@) matches Some(Json::Text(c)) ==> r.symbol == canonical(c@)
                &&& p.field("entry_price"@) matches Some(Json::Text(e)) ==> (decimal_parsed(e@)
                    matches Some(d) ==> r.avg_px == Some(Px(d)))
                &&& p.field("entry_price"@) is None ==> r.avg_px is None
            },
        },
{
}

/// A contract of Gate trades in steps of its price rounding, in contracts of its multiplier, one where that is
/// nothing, and in no less than its smallest order.
pub proof fn law_gate_contract_is_what_was_listed(
    c: Json,
    name: String,
    round: String,
    quanto: String,
    tick: Decimal,
    size: Decimal,
)
    requires
        c.field("name"@) == Some(Json::Text(name)),
        c.field("order_price_round"@) == Some(Json::Text(round)),
        c.field("quanto_multiplier"@) == Some(Json::Text(quanto)),
        decimal_parsed(round@) == Some(tick),
        decimal_parsed(quanto@) == Some(size),
    ensures
        gate::contract_of(c) matches Ok(i) && {
            &&& i.venue == VenueId::Gate && i.native_symbol == name@ && i.symbol == canonical(name@)
            &&& i.tick_size == tick
            &&& size.mantissa != 0 ==> i.contract_size == size
            &&& size.mantissa == 0 ==> i.contract_size == dec_one()
            &&& c.field("order_size_min"@) matches Some(Json::Number(n)) ==> (n.int matches Some(m)
                ==> (m >= 1 ==> i.lot_size.mantissa == m) && (m < 1 ==> i.lot_size.mantissa == 1))
            &&& i.lot_size.scale == 0 && i.min_qty == i.lot_size
            &&& c.field("in_trading"@) matches Some(Json::Bool(b)) ==> (i.status
                == InstrumentStatus::Trading <==> b)
            &&& c.field("contract_type"@) matches Some(Json::Text(t)) ==> (t@ == "stocks"@ ==> i.kind
                == ContractKind::Stock)
            &&& i.kind == ContractKind::Stock ==> (c.field("contract_type"@) matches Some(
                Json::Text(t),
            ) && t@ == "stocks"@)
            &&& c.field("maker_fee_rate"@) matches Some(Json::Text(t)) ==> (decimal_parsed(t@)
                matches Some(d) ==> i.maker_fee == d)
            &&& c.field("taker_fee_rate"@) matches Some(Json::Text(t)) ==> (decimal_parsed(t@)
                matches Some(d) ==> i.taker_fee == d)
        },
{
    reveal_strlit("stocks");
    reveal_strlit("metals");
    reveal_strlit("");
    assert("stocks"@.len() == 6 && ""@.len() == 0);
}

/// A contract of Gate is passed over if it is being delisted, has no name or is an inverse one, and not
/// otherwise.
pub proof fn law_gate_passes_over(c: Json)
    ensures
        gate::passed_over(c) <==> {
            ||| c.field("in_delisting"@) == Some(Json::Bool(true))
            ||| !(c.field("name"@) matches Some(Json::Text(t)) && t@.len() > 0)
            ||| (c.field("type"@) matches Some(Json::Text(t)) && t@ == "inverse"@)
        },
{
    reveal_strlit("");
    reveal_strlit("direct");
    reveal_strlit("inverse");
    assert("direct"@[0] == 'd' && "inverse"@[0] == 'i');
}

/// The kind of report that a status of Binance means.
pub open spec fn means(status: Seq<char>, kind: ExecKind) -> bool {
    match kind {
        ExecKind::Ack => status == "NEW"@,
        ExecKind::PartialFill => status == "PARTIALLY_FILLED"@,
        ExecKind::Fill => status == "FILLED"@,
        ExecKind::Canceled => status == "CANCELED"@,
        ExecKind::Expired => status == "EXPIRED"@,
        ExecKind::Reject => status == "REJECTED"@,
        _ => false,
    }
}

/// An order that Binance pushes: its id, side and status, what it was for, what was filled of it and last, and
/// at what price.
pub proof fn law_binance_order_is_what_was_pushed(
    o: Json,
    root: Json,
    c: String,
    side: String,
    status: String,
    kind: ExecKind,
)
    requires
        o.field("c"@) == Some(Json::Text(c)),
        o.field("S"@) == Some(Json::Text(side)),
        o.field("X"@) == Some(Json::Text(status)),
        means(status@, kind),
    ensures
        ({
            let e = binance::push_report(o, root);
            &&& e.coid == c@ && e.venue == VenueId::Binance
            &&& e.side == Side::Sell <==> side@ == "SELL"@
            &&& e.kind == kind
            &&& o.field("p"@) matches Some(Json::Text(t)) ==> (decimal_parsed(t@) matches Some(d)
                ==> e.px == Some(Px(d)))
            &&& o.field("q"@) matches Some(Json::Text(t)) ==> (decimal_parsed(t@) matches Some(d)
                ==> e.qty == Some(Qty(d)))
            &&& o.field("z"@) matches Some(Json::Text(t)) ==> (decimal_parsed(t@) matches Some(d)
                ==> e.filled_qty.0 == d)
            &&& o.field("L"@) matches Some(Json::Text(t)) ==> (decimal_parsed(t@) matches Some(d)
                ==> e.last_px == Some(Px(d)))
            &&& o.field("l"@) matches Some(Json::Text(t)) ==> (decimal_parsed(t@) matches Some(d)
                ==> e.last_qty == (if d.mantissa > 0 {
                Some(Qty(d))
            } else {
                None
            }))
            &&& o.field("s"@) matches Some(Json::Text(t)) ==> e.symbol == canonical(t@)
        }),
{
    lemma_statuses();
    if let Some(Json::Text(t)) = o.field("l"@) {
        lemma_sign(decimal_parsed(t@)->0);
    }
}

proof fn lemma_statuses()
    ensures
        "NEW"@ != "PARTIALLY_FILLED"@ && "NEW"@ != "FILLED"@ && "NEW"@ != "CANCELED"@ && "NEW"@
            != "EXPIRED"@ && "NEW"@ != "REJECTED"@,
        "PARTIALLY_FILLED"@ != "FILLED"@ && "PARTIALLY_FILLED"@ != "CANCELED"@
            && "PARTIALLY_FILLED"@ != "EXPIRED"@ && "PARTIALLY_FILLED"@ != "REJECTED"@,
        "FILLED"@ != "CANCELED"@ && "FILLED"@ != "EXPIRED"@ && "FILLED"@ != "REJECTED"@,
        "CANCELED"@ != "EXPIRED"@ && "CANCELED"@ != "REJECTED"@,
        "EXPIRED"@ != "REJECTED"@,
{
    reveal_strlit("NEW");
    reveal_strlit("PARTIALLY_FILLED");
    reveal_strlit("FILLED");
    reveal_strlit("CANCELED");
    reveal_strlit("EXPIRED");
    reveal_strlit("REJECTED");
    assert("NEW"@.len() == 3 && "PARTIALLY_FILLED"@.len() == 16 && "FILLED"@.len() == 6);
    assert("CANCELED"@.len() == 8 && "EXPIRED"@.len() == 7 && "REJECTED"@.len() == 8);
    assert("CANCELED"@[0] == 'C' && "REJECTED"@[0] == 'R');
}

/// An order that Binance was asked about: its id, side and status, and what was filled of it.
pub proof fn law_binance_order_is_what_was_answered(
    o: Json,
    c: String,
    side: String,
    status: String,
    kind: ExecKind,
)
    requires
        o.field("clientOrderId"@) == Some(Json::Text(c)),
        o.field("side"@) == Some(Json::Text(side)),
        o.field("status"@) == Some(Json::Text(status)),
        means(status@, kind),
        kind != ExecKind::Reject,
    ensures
        ({
            let e = binance::query_report(o);
            &&& e.coid == c@ && e.venue == VenueId::Binance
            &&& e.side == Side::Sell <==> side@ == "SELL"@
            &&& e.kind == kind
            &&& o.field("price"@) matches Some(Json::Text(t)) ==> (decimal_parsed(t@) matches Some(d)
                ==> e.px == Some(Px(d)))
            &&& o.field("origQty"@) matches Some(Json::Text(t)) ==> (decimal_parsed(t@) matches Some(
                d,
            ) ==> e.qty == Some(Qty(d)))
            &&& o.field("executedQty"@) matches Some(Json::Text(t)) ==> (decimal_parsed(t@) matches Some(
                d,
            ) ==> e.filled_qty.0 == d)
            &&& e.last_qty is None && e.last_px is None
        }),
{
    lemma_statuses();
}

/// A position at Binance is its amount, short where that is negative, and none where it is zero.
pub proof fn law_binance_position_is_what_was_said(
    p: Json,
    amount: String,
    price: String,
    amt: Decimal,
    px: Decimal,
    now: Ts,
)
    requires
        p.field("positionAmt"@) == Some(Json::Text(amount)),
        p.field("entryPrice"@) == Some(Json::Text(price)),
        decimal_parsed(amount@) == Some(amt),
        decimal_parsed(price@) == Some(px),
    ensures
        match binance::position_of(p, now) {
            Err(_) => false,
            Ok(None) => amt.mantissa == 0,
            Ok(Some(r)) => {
                &&& amt.mantissa != 0 && r.net_qty.0 == amt && r.avg_px == Some(Px(px))
                &&& r.venue == VenueId::Binance && r.ts == now
                &&& p.field("symbol"@) matches Some(Json::Text(t)) ==> r.symbol == canonical(t@)
            },
        },
{
}

/// An open order at Binance is read as it was listed.
pub proof fn law_binance_open_order_is_what_was_listed(
    o: Json,
    c: String,
    side: String,
    price: String,
    asked: String,
    done: String,
    px: Decimal,
    qty: Decimal,
    filled: Decimal,
    symbol: Seq<char>,
)
    requires
        o.field("clientOrderId"@) == Some(Json::Text(c)),
        o.field("side"@) == Some(Json::Text(side)),
        o.field("price"@) == Some(Json::Text(price)),
        o.field("origQty"@) == Some(Json::Text(asked)),
        o.field("executedQty"@) == Some(Json::Text(done)),
        decimal_parsed(price@) == Some(px),
        decimal_parsed(asked@) == Some(qty),
        decimal_parsed(done@) == Some(filled),
    ensures
        binance::open_order(o, symbol) matches Some(r) && {
            &&& r.coid == c@ && r.symbol == symbol && r.venue == VenueId::Binance
            &&& r.side == Side::Sell <==> side@ == "SELL"@
            &&& r.px.0 == px && r.qty.0 == qty && r.filled_qty.0 == filled
            &&& o.field("reduceOnly"@) matches Some(Json::Bool(b)) ==> r.reduce_only == b
        },
{
}

/// A filter of Binance sets the steps that it is about and no others.
pub proof fn law_binance_filters_set_their_steps(s: binance::Steps, f: Json, kind: String)
    requires
        f.field("filterType"@) == Some(Json::Text(kind)),
    ensures
        binance::filter_applied(s, f) matches Some(n) ==> {
            &&& kind@ == "PRICE_FILTER"@ ==> n.lot == s.lot && n.min_qty == s.min_qty && n.min_notional
                == s.min_notional && (f.field("tickSize"@) matches Some(Json::Text(t))
                ==> decimal_parsed(t@) == Some(n.tick))
            &&& kind@ == "LOT_SIZE"@ ==> n.tick == s.tick && n.min_notional == s.min_notional && (
            f.field("stepSize"@) matches Some(Json::Text(t)) ==> decimal_parsed(t@) == Some(n.lot))
                && (f.field("minQty"@) matches Some(Json::Text(t)) ==> decimal_parsed(t@) == Some(
                n.min_qty,
            ))
            &&& kind@ == "MIN_NOTIONAL"@ ==> n.tick == s.tick && n.lot == s.lot && n.min_qty
                == s.min_qty && (f.field("notional"@) matches Some(Json::Text(t)) ==> decimal_parsed(
                t@,
            ) == Some(n.min_notional))
            &&& kind@ != "PRICE_FILTER"@ && kind@ != "LOT_SIZE"@ && kind@ != "MIN_NOTIONAL"@ ==> n == s
        },
{
    reveal_strlit("PRICE_FILTER");
    reveal_strlit("LOT_SIZE");
    reveal_strlit("MIN_NOTIONAL");
    assert("PRICE_FILTER"@[0] == 'P' && "MIN_NOTIONAL"@[0] == 'M');
}

/// A symbol of Binance trades in the steps of its filters, in contracts of one.
pub proof fn law_binance_symbol_is_what_was_listed(s: Json, name: String, steps: binance::Steps)
    requires
        s.field("symbol"@) == Some(Json::Text(name)),
        binance::steps_of(s) == Some(steps),
    ensures
        binance::symbol_of(s) matches Ok(i) && {
            &&& i.venue == VenueId::Binance && i.native_symbol == name@ && i.symbol == canonical(name@)
            &&& i.tick_size == steps.tick && i.lot_size == steps.lot && i.min_qty == steps.min_qty
                && i.min_notional == steps.min_notional
            &&& i.contract_size == dec_one() && i.status == InstrumentStatus::Trading
        },
{
}

proof fn lemma_reports(v: Seq<Json>, i: int, now: Ts, acc: Seq<PrivateV>)
    requires
        0 <= i <= v.len(),
    ensures
        ({
            let r = gate::reports_from(v, i, now, acc);
            &&& forall|e: PrivateV| #[trigger] acc.contains(e) ==> r.contains(e)
            &&& forall|k: int|
                i <= k < v.len() ==> (gate::order_report(#[trigger] v[k], now) matches Some(e)
                    ==> r.contains(PrivateV::Exec(e)))
            &&& r.len() <= acc.len() + (v.len() - i)
        }),
    decreases v.len() - i,
{
    if i < v.len() {
        match gate::order_report(v[i], now) {
            None => {
                lemma_reports(v, i + 1, now, acc);
            },
            Some(e) => {
                let next = acc.push(PrivateV::Exec(e));
                lemma_reports(v, i + 1, now, next);
                assert(next[acc.len() as int] == PrivateV::Exec(e));
                assert(next.contains(PrivateV::Exec(e)));
                assert forall|x: PrivateV| #[trigger] acc.contains(x) implies gate::reports_from(
                    v,
                    i,
                    now,
                    acc,
                ).contains(x) by {
                    let k = choose|k: int| 0 <= k < acc.len() && acc[k] == x;
                    assert(next[k] == x);
                    assert(next.contains(x));
                }
            },
        }
    }
}

proof fn lemma_pushed(v: Seq<Json>, i: int, now: Ts, acc: Seq<PrivateV>)
    requires
        0 <= i <= v.len(),
    ensures
        ({
            let r = gate::pushed_positions(v, i, now, acc);
            &&& forall|e: PrivateV| #[trigger] acc.contains(e) ==> r.contains(e)
            &&& forall|k: int|
                i <= k < v.len() ==> (gate::position_of(#[trigger] v[k], now) matches Some(p)
                    ==> r.contains(PrivateV::Position(p)))
            &&& r.len() <= acc.len() + (v.len() - i)
        }),
    decreases v.len() - i,
{
    if i < v.len() {
        match gate::position_of(v[i], now) {
            None => {
                lemma_pushed(v, i + 1, now, acc);
            },
            Some(p) => {
                let next = acc.push(PrivateV::Position(p));
                lemma_pushed(v, i + 1, now, next);
                assert(next[acc.len() as int] == PrivateV::Position(p));
                assert(next.contains(PrivateV::Position(p)));
                assert forall|x: PrivateV| #[trigger] acc.contains(x) implies gate::pushed_positions(
                    v,
                    i,
                    now,
                    acc,
                ).contains(x) by {
                    let k = choose|k: int| 0 <= k < acc.len() && acc[k] == x;
                    assert(next[k] == x);
                    assert(next.contains(x));
                }
            },
        }
    }
}

/// A private push of Gate about orders tells of every order in it, and one about positions of every position that is
/// not flat; no push tells of more things than it holds, and one of another channel tells of nothing.
pub proof fn law_gate_push_tells_of_all_it_holds(v: Json, items: Vec<Json>, k: int, now: Ts)
    requires
        v.field("result"@) == Some(Json::List(items)),
        0 <= k < items@.len(),
    ensures
        ({
            let r = gate::private_said(v, now);
            &&& v.text_at("channel"@) == Some("futures.orders"@) ==> (gate::order_report(items@[k], now)
                matches Some(e) ==> r.contains(PrivateV::Exec(e)))
            &&& v.text_at("channel"@) == Some("futures.positions"@) ==> (gate::position_of(items@[k], now)
                matches Some(p) ==> r.contains(PrivateV::Position(p)))
            &&& r.len() <= items@.len()
            &&& v.text_at("channel"@) != Some("futures.orders"@) && v.text_at("channel"@) != Some(
                "futures.positions"@,
            ) ==> r.len() == 0
        }),
{
    reveal_strlit("futures.orders");
    reveal_strlit("futures.positions");
    reveal_strlit("");
    assert("futures.orders"@.len() == 14 && "futures.positions"@.len() == 17 && ""@.len() == 0);
    lemma_reports(items@, 0, now, Seq::empty());
    lemma_pushed(items@, 0, now, Seq::empty());
    assert(gate::pushed_items(v) == items@);
}

/// A private push of Binance about an order tells of that order, and one about the account of each of its positions:
/// as long as it says, short where that is negative.
pub proof fn law_binance_push_tells_of_all_it_holds(v: Json, o: Json, a: Json, list: Vec<Json>, k: int)
    requires
        v.field("o"@) == Some(o),
        v.field("a"@) == Some(a),
        a.field("P"@) == Some(Json::List(list)),
        0 <= k < list@.len(),
    ensures
        ({
            let r = binance::private_said(v);
            &&& v.text_at("e"@) == Some("ORDER_TRADE_UPDATE"@) ==> r == seq![
                PrivateV::Exec(binance::push_report(o, v)),
            ]
            &&& v.text_at("e"@) == Some("ACCOUNT_UPDATE"@) ==> r.len() == list@.len() && (
            r[k] matches PrivateV::Position(p) && {
                &&& p.venue == VenueId::Binance
                &&& list@[k].field("s"@) matches Some(Json::Text(t)) ==> p.symbol == canonical(t@)
                &&& list@[k].field("pa"@) matches Some(Json::Text(t)) ==> (decimal_parsed(t@) matches Some(
                    d,
                ) ==> p.net_qty.0 == d)
                &&& list@[k].field("ep"@) matches Some(Json::Text(t)) ==> (decimal_parsed(t@) matches Some(
                    d,
                ) ==> p.avg_px == Some(Px(d)))
            })
            &&& v.text_at("e"@) != Some("ORDER_TRADE_UPDATE"@) && v.text_at("e"@) != Some(
                "ACCOUNT_UPDATE"@,
            ) ==> r.len() == 0
        }),
{
    reveal_strlit("ORDER_TRADE_UPDATE");
    reveal_strlit("ACCOUNT_UPDATE");
    reveal_strlit("");
    assert("ORDER_TRADE_UPDATE"@.len() == 18 && "ACCOUNT_UPDATE"@.len() == 14 && ""@.len() == 0);
}

proof fn lemma_contracts(v: Seq<Json>, i: int, acc: Seq<InstV>)
    requires
        0 <= i <= v.len(),
        gate::contracts_from(v, i, acc) is Ok,
    ensures
        ({
            let r = gate::contracts_from(v, i, acc)->Ok_0;
            &&& forall|e: InstV| #[trigger] acc.contains(e) ==> r.contains(e)
            &&& forall|k: int|
                i <= k < v.len() && !gate::passed_over(#[trigger] v[k]) ==> (gate::contract_of(v[k]) matches Ok(
                    c,
                ) && r.contains(c))
            &&& r.len() <= acc.len() + (v.len() - i)
        }),
    decreases v.len() - i,
{
    if i < v.len() {
        if gate::passed_over(v[i]) {
            lemma_contracts(v, i + 1, acc);
        } else {
            let c = gate::contract_of(v[i])->Ok_0;
            let next = acc.push(c);
            lemma_contracts(v, i + 1, next);
            assert(next[acc.len() as int] == c);
            assert(next.contains(c));
            assert forall|x: InstV| #[trigger] acc.contains(x) implies (gate::contracts_from(
                v,
                i,
                acc,
            )->Ok_0).contains(x) by {
                let k = choose|k: int| 0 <= k < acc.len() && acc[k] == x;
                assert(next[k] == x);
                assert(next.contains(x));
            }
        }
    }
}

/// Every contract of Gate that is not passed over is listed, and no more than there are.
pub proof fn law_gate_lists_its_contracts(v: Seq<Json>, k: int)
    requires
        gate::contracts_from(v, 0, Seq::empty()) is Ok,
        0 <= k < v.len(),
        !gate::passed_over(v[k]),
    ensures
        gate::contract_of(v[k]) matches Ok(c) && (gate::contracts_from(v, 0, Seq::empty())->Ok_0).contains(
            c,
        ),
        (gate::contracts_from(v, 0, Seq::empty())->Ok_0).len() <= v.len(),
{
    lemma_contracts(v, 0, Seq::empty());
}

/// Two positions in one symbol at Gate are added up; one in another symbol is kept beside.
pub proof fn law_gate_positions_are_added_up(v: Seq<PosV>, p: PosV, k: int)
    requires
        gate::position_merged(v, p) is Some,
        0 <= k < v.len(),
        forall|i: int, j: int| 0 <= i < j < v.len() ==> (#[trigger] v[i]).symbol != (#[trigger] v[j]).symbol,
    ensures
        ({
            let r = gate::position_merged(v, p)->0;
            &&& v[k].symbol == p.symbol ==> r.len() == v.len() && r[k].symbol == p.symbol && decimal_sum(
                v[k].net_qty.0,
                p.net_qty.0,
            ) == Some(r[k].net_qty.0)
            &&& v[k].symbol != p.symbol ==> r[k] == v[k]
        }),
{
    lemma_symbol_place(v, p.symbol, 0);
}

proof fn lemma_symbol_place(v: Seq<PosV>, symbol: Seq<char>, i: int)
    requires
        0 <= i <= v.len(),
    ensures
        i <= gate::symbol_place(v, symbol, i) <= v.len(),
        gate::symbol_place(v, symbol, i) < v.len() ==> v[gate::symbol_place(v, symbol, i)].symbol
            == symbol,
        forall|j: int| i <= j < gate::symbol_place(v, symbol, i) ==> (#[trigger] v[j]).symbol != symbol,
    decreases v.len() - i,
{
    if i < v.len() && v[i].symbol != symbol {
        lemma_symbol_place(v, symbol, i + 1);
    }
}

/// What was traded of a symbol in a day is the quote volume of its ticker at either venue.
pub proof fn law_tickers_tell_the_volume(t: Json, name: String, volume: String, d: Decimal)
    requires
        decimal_parsed(volume@) == Some(d),
    ensures
        t.field("symbol"@) == Some(Json::Text(name)) && t.field("quoteVolume"@) == Some(Json::Text(volume))
            ==> binance::ticker_volume(t) == (canonical(name@), d),
        t.field("contract"@) == Some(Json::Text(name)) && t.field("volume_24h_quote"@) == Some(
            Json::Text(volume),
        ) ==> gate::ticker_volume(t) == (canonical(name@), d),
{
}

} // verus!
