//! What becomes of an order that a strategy keeps in a slot, of its lots, and of its mode.
use crate::config::StrategyConfig;
use crate::strategy::course::law_found_slot_carries_order;
use crate::strategy::machine::{
    all_expired, all_resolved, answered, controlled, executed, held_in_slot, inventory_filled,
    jump_checked, lots_rebuilt, mode_synced, move_fraction, orphans, outcome_applied,
    spread_fraction, PriceDoubles,
};
use crate::strategy::quote::{all_withdrawn, gap_fraction, settled, swept_from, DesiredSlot, Terms};
use crate::strategy::state::{law_slot_put, slot_at, slot_of_order, SlotV, StateV};
use crate::types::action::ActionV;
use crate::types::decimal::{decimal_difference, decimal_quotient, lemma_sign};
use crate::types::double::double_above;
use crate::types::event::ControlCmd;
use crate::types::ids::{order_id_text, Purpose, Side, SlotKey, StrategyMode};
use crate::types::num::{Px, Qty};
use crate::types::order::{ExecKind, ExecV, LiveV, ReqResult, SlotStateKind};
use crate::types::position::ExitPhase;
use crate::types::time::Ts;
use vstd::prelude::*;

verus! {

/// A time that fits 64 bits, that many milliseconds later.
pub open spec fn is_after(t: Ts, now: Ts, ms: int) -> bool {
    i64::MIN <= ms * 1_000_000 <= i64::MAX && i64::MIN <= now.0 + ms * 1_000_000 <= i64::MAX ==> t.0
        == now.0 + ms * 1_000_000
}

/// Nothing of an order is at the venue, and nothing is under way.
pub open spec fn is_empty_slot(s: SlotV) -> bool {
    s.state == SlotStateKind::Empty && s.live is None && s.pending_since is None
}

/// The answer to a request: one that was taken ends a rest; a refused placement or cancellation leaves nothing
/// behind and a refused amendment the order as it was, each with a rest of a quarter of a second; one that is
/// not known leaves the order in question.
pub proof fn law_answers_settle_a_slot(s: SlotV, now: Ts, result: ReqResult)
    ensures
        ({
            let r = answered(s, now, result);
            &&& r.desired == s.desired
            &&& match result {
                ReqResult::Accepted => r == (SlotV { blocked_until: None, ..s }),
                ReqResult::Rejected => {
                    &&& r.blocked_until matches Some(t) && is_after(t, now, 250)
                    &&& s.state == SlotStateKind::PendingNew || s.state
                        == SlotStateKind::PendingCancel ==> is_empty_slot(r)
                    &&& s.state == SlotStateKind::PendingAmend ==> r.state == SlotStateKind::Live
                        && r.pending_since is None && r.live is Some == s.live is Some && (
                    s.amend_from matches Some(from) ==> (s.live matches Some(l) ==> (
                    r.live matches Some(m) && m.px == from.0 && m.qty == from.1 && m.coid == l.coid)))
                    &&& s.state == SlotStateKind::Empty || s.state == SlotStateKind::Live || s.state
                        == SlotStateKind::Unknown ==> r.state == s.state && r.live == s.live
                },
                ReqResult::Unknown => r.state == SlotStateKind::Unknown && r.live == s.live
                    && r.pending_since == Some(now) && r.blocked_until == s.blocked_until,
            }
        }),
{
}

/// The answer to a request reaches the slot that holds the order, and no other.
pub proof fn law_answers_reach_their_slot(
    st: StateV,
    now: Ts,
    coid: Seq<char>,
    result: ReqResult,
    other: SlotKey,
)
    requires
        slot_of_order(st.slots, coid) is Some,
        st.wf(),
    ensures
        ({
            let k = slot_of_order(st.slots, coid)->0;
            let n = outcome_applied(st, now, coid, result);
            &&& slot_at(st.slots, k).live matches Some(l) && l.coid == coid
            &&& slot_at(n.slots, k) == answered(slot_at(st.slots, k), now, result)
            &&& other != k ==> slot_at(n.slots, other) == slot_at(st.slots, other)
            &&& n == (StateV { slots: n.slots, ..st })
        }),
{
    law_found_slot_carries_order(st.slots, coid);
    let k = slot_of_order(st.slots, coid)->0;
    let v = answered(slot_at(st.slots, k), now, result);
    law_slot_put(st.slots, k, v, k);
    law_slot_put(st.slots, k, v, other);
}

/// A report about an order that a slot holds: an acknowledgement makes it work, with the price and size that
/// the venue says where those are positive; a refused amendment leaves it working as it was; a refusal, a
/// cancellation, an expiry or a full fill empties the slot; a partial fill leaves it working.
pub proof fn law_reports_settle_a_slot(
    st: StateV,
    cfg: StrategyConfig,
    now: Ts,
    rep: ExecV,
    out: Seq<ActionV>,
)
    requires
        st.wf(),
        slot_of_order(st.slots, rep.coid) is Some,
        executed(st, cfg, now, rep, out) is Some,
    ensures
        ({
            let k = slot_of_order(st.slots, rep.coid)->0;
            let s = slot_at(st.slots, k);
            let n = (executed(st, cfg, now, rep, out)->0).0;
            let r = slot_at(n.slots, k);
            match rep.kind {
                ExecKind::Ack | ExecKind::AmendAck => {
                    &&& r.state == SlotStateKind::Live && r.pending_since is None && r.amend_from is None
                        && r.blocked_until is None
                    &&& s.live matches Some(l) && (r.live matches Some(m) && {
                        &&& m.coid == l.coid && m.exchange_id == rep.exchange_id && m.filled_qty
                            == l.filled_qty && m.reduce_only == l.reduce_only
                        &&& m.px == (if rep.px is Some && (rep.px->0).0.mantissa > 0 {
                            rep.px->0
                        } else {
                            l.px
                        })
                        &&& m.qty == (if rep.qty is Some && (rep.qty->0).0.mantissa > 0 {
                            rep.qty->0
                        } else {
                            l.qty
                        })
                    })
                },
                ExecKind::Reject => is_empty_slot(r) && (r.blocked_until matches Some(t) && is_after(
                    t,
                    now,
                    250,
                )),
                ExecKind::AmendReject => r.state == SlotStateKind::Live && r.pending_since is None && (
                r.blocked_until matches Some(t) && is_after(t, now, 250)) && (s.amend_from matches Some(
                    from,
                ) ==> (r.live matches Some(m) && m.px == from.0 && m.qty == from.1)),
                ExecKind::Canceled | ExecKind::Expired => is_empty_slot(r) && r.blocked_until
                    == s.blocked_until,
                ExecKind::Fill => is_empty_slot(r),
                ExecKind::PartialFill => r.state == SlotStateKind::Live && (r.live matches Some(m)
                    && m.filled_qty == rep.filled_qty),
            }
        }),
{
    law_found_slot_carries_order(st.slots, rep.coid);
    let k = slot_of_order(st.slots, rep.coid)->0;
    let s = slot_at(st.slots, k);
    if let Some(p) = rep.px {
        lemma_sign(p.0);
    }
    if let Some(q) = rep.qty {
        lemma_sign(q.0);
    }
    law_slot_put(st.slots, k, crate::strategy::machine::acknowledged(s, rep), k);
    law_slot_put(st.slots, k, s.refused(now).emptied(), k);
    law_slot_put(st.slots, k, s.refused(now).rolled_back().working(), k);
    law_slot_put(st.slots, k, s.emptied(), k);
    law_slot_put(st.slots, k, crate::strategy::machine::slot_filled(s, rep), k);
    match inventory_filled(st, cfg, now, k, rep, out) {
        Some(m) => {
            assert(m.0.slots == st.slots);
        },
        None => {},
    }
}

/// A request that has waited for more than ten seconds leaves its order in question; every other slot stays as
/// it is.
pub proof fn law_unanswered_requests_are_given_up(
    s: Seq<(SlotKey, SlotV)>,
    now: Ts,
    i: int,
)
    requires
        0 <= i < s.len(),
    ensures
        ({
            let a = s[i].1;
            let r = all_expired(s, now)[i];
            let waits = a.state == SlotStateKind::PendingNew || a.state == SlotStateKind::PendingAmend
                || a.state == SlotStateKind::PendingCancel;
            &&& all_expired(s, now).len() == s.len() && r.0 == s[i].0
            &&& waits && (a.pending_since matches Some(t) && i64::MIN <= now.0 - t.0 <= i64::MAX
                && now.0 - t.0 >= 10_001_000_000) ==> r.1 == (SlotV {
                state: SlotStateKind::Unknown,
                pending_since: Some(now),
                ..a
            })
            &&& !waits || a.pending_since is None || (a.pending_since matches Some(t) && now.0 - t.0
                < 10_001_000_000) ==> r.1 == a
        }),
{
    let a = s[i].1;
    if let Some(t) = a.pending_since {
        let d = now.0 - t.0;
        assert(d >= 0 ==> (d / 1_000_000 > 10_000 <==> d >= 10_001_000_000));
    }
}

/// The commands: to start warms a strategy up, to stop stops it and takes all its orders back, to leave makes it
/// leave; an update of the settings changes nothing.
pub proof fn law_commands_are_obeyed(
    st: StateV,
    cfg: StrategyConfig,
    now: Ts,
    cmd: ControlCmd,
    out: Seq<ActionV>,
)
    ensures
        ({
            let r = controlled(st, cfg, now, cmd, out);
            let n = r.0;
            match cmd {
                ControlCmd::Start => n == (StateV {
                    started: true,
                    flatten_requested: false,
                    lifecycle: StrategyMode::Warmup,
                    ..st
                }) && r.1 == out,
                ControlCmd::Stop => {
                    &&& !n.started && n.lifecycle == StrategyMode::Stopped
                    &&& n == (StateV {
                        started: n.started,
                        lifecycle: n.lifecycle,
                        slots: n.slots,
                        ..st
                    })
                    &&& r.1.len() == out.len() + 1 && r.1.take(out.len() as int) == out
                    &&& r.1.last() == (ActionV::CancelAll {
                        venue: cfg.market.maker_venue,
                        symbol: cfg.market.maker_symbol@,
                    })
                    &&& no_order_stands(n.slots)
                },
                ControlCmd::Flatten => n == (StateV {
                    flatten_requested: true,
                    lifecycle: StrategyMode::Flattening,
                    ..st
                }) && r.1 == out,
                ControlCmd::ConfigUpdate => n == st && r.1 == out,
            }
        }),
{
    let r = controlled(st, cfg, now, cmd, out);
    if let ControlCmd::Stop = cmd {
        assert(r.1.take(out.len() as int) =~= out);
        law_all_orders_are_withdrawn(st.slots, now);
    }
}

/// No slot holds an order that works, or is about to.
pub open spec fn no_order_stands(s: Seq<(SlotKey, SlotV)>) -> bool {
    forall|i: int|
        0 <= i < s.len() ==> {
            let k = (#[trigger] s[i]).1.state;
            k != SlotStateKind::Live && k != SlotStateKind::PendingNew && k
                != SlotStateKind::PendingAmend
        }
}

/// When all orders are taken back, every one that works or is about to is being cancelled and is wanted no more,
/// and all other slots stay as they are.
pub proof fn law_all_orders_are_withdrawn(s: Seq<(SlotKey, SlotV)>, now: Ts)
    ensures
        ({
            let r = all_withdrawn(s, now);
            &&& r.len() == s.len() && no_order_stands(r)
            &&& forall|i: int|
                0 <= i < s.len() ==> {
                    let a = (#[trigger] s[i]).1;
                    let b = r[i].1;
                    &&& r[i].0 == s[i].0
                    &&& a.state == SlotStateKind::Live || a.state == SlotStateKind::PendingNew
                        || a.state == SlotStateKind::PendingAmend ==> b == (SlotV {
                        state: SlotStateKind::PendingCancel,
                        pending_since: Some(now),
                        desired: None,
                        ..a
                    })
                    &&& a.state == SlotStateKind::Empty || a.state == SlotStateKind::PendingCancel
                        || a.state == SlotStateKind::Unknown ==> b == a
                }
        }),
{
}

/// An order that should stand is placed as it should be, where its slot is empty and not left alone: on its side,
/// at its price, for its size, and as passively, under an id of the strategy's own.
pub proof fn law_wanted_order_is_placed_as_wanted(
    st: StateV,
    out: Seq<ActionV>,
    d: DesiredSlot,
    t: Terms,
    gap: Option<u64>,
)
    requires
        st.wf(),
        slot_at(st.slots, d.key).state == SlotStateKind::Empty,
        !(slot_at(st.slots, d.key).blocked_until matches Some(u) && t.now.0 < u.0),
        st.next_seq < u64::MAX,
    ensures
        settled(st, out, d, t, gap) matches Some(n) && {
            let coid = order_id_text(t.id, d.key, st.next_seq as nat);
            let s = slot_at(n.0.slots, d.key);
            &&& n.0.next_seq == st.next_seq + 1
            &&& n.1.len() == out.len() + 1 && n.1.take(out.len() as int) == out
            &&& n.1.last() matches ActionV::Place(p) && {
                &&& p.coid == coid && p.venue == t.venue && p.symbol == t.symbol
                &&& p.side == d.key.side && p.px == d.order.px && p.qty == d.order.qty
                &&& p.tif == d.order.tif && p.reduce_only == d.order.reduce_only && p.order_type
                    == d.order.order_type
            }
            &&& s.state == SlotStateKind::PendingNew && s.pending_since == Some(t.now)
            &&& s.live matches Some(l) && l.coid == coid && l.px == d.order.px && l.qty == d.order.qty
                && l.filled_qty.0.mantissa == 0
        },
{
    let s = SlotV { desired: Some(d.order), ..slot_at(st.slots, d.key) };
    let coid = order_id_text(t.id, d.key, st.next_seq as nat);
    law_slot_put(
        st.slots,
        d.key,
        crate::strategy::quote::placed(s, coid, d.order, t.now),
        d.key,
    );
    let n = settled(st, out, d, t, gap)->0;
    assert(n.1.take(out.len() as int) =~= out);
}

/// An order that works is moved to where it should be if its size is another or its price lies further off than
/// allowed, and is left alone otherwise. Where the venue cannot move orders it is cancelled.
pub proof fn law_working_order_is_moved_when_off(
    st: StateV,
    out: Seq<ActionV>,
    d: DesiredSlot,
    t: Terms,
    gap: u64,
    l: LiveV,
)
    requires
        st.wf(),
        slot_at(st.slots, d.key).state == SlotStateKind::Live,
        slot_at(st.slots, d.key).live == Some(l),
        !(slot_at(st.slots, d.key).blocked_until matches Some(u) && t.now.0 < u.0),
    ensures
        settled(st, out, d, t, Some(gap)) matches Some(n) && {
            let off = !l.qty.0.is_same(d.order.qty.0) || double_above(gap, t.requote);
            let s = slot_at(n.0.slots, d.key);
            &&& n.0.next_seq == st.next_seq
            &&& !off ==> n.1 == out && s.state == SlotStateKind::Live && s.live == Some(l)
            &&& off && t.supports_amend ==> n.1 == out.push(
                ActionV::Amend {
                    coid: l.coid,
                    venue: t.venue,
                    symbol: t.symbol,
                    px: d.order.px,
                    qty: d.order.qty,
                },
            ) && s.state == SlotStateKind::PendingAmend && s.amend_from == Some((l.px, l.qty))
                && s.live == Some(LiveV { px: d.order.px, qty: d.order.qty, ..l })
            &&& off && !t.supports_amend ==> n.1 == out.push(
                ActionV::Cancel { coid: l.coid, venue: t.venue, symbol: t.symbol },
            ) && s.state == SlotStateKind::PendingCancel
        },
{
    let s = SlotV { desired: Some(d.order), ..slot_at(st.slots, d.key) };
    law_slot_put(st.slots, d.key, s, d.key);
    law_slot_put(st.slots, d.key, crate::strategy::quote::moved(s, l, d.order, t).0, d.key);
}

/// How far an order lies off is how far its price is from the one wanted, over the fair price; how far the
/// reference price moved is how far it is from the one before, over that; and the spread is how far the maker's
/// price lies above the reference price, over the latter.
pub proof fn law_distances_are_relative(target: Px, live: Px, base: Px)
    ensures
        gap_fraction(target, live, base) == relative(target, live, base, true),
        move_fraction(live, target) == relative(target, live, live, true),
        spread_fraction(target, live) == relative(target, live, live, false),
{
}

/// How far a price lies above another, or from it, over a third.
pub open spec fn relative(a: Px, b: Px, base: Px, either_way: bool) -> Option<
    crate::types::decimal::Decimal,
> {
    match decimal_difference(a.0, b.0) {
        None => None,
        Some(d) => if !either_way {
            decimal_quotient(d, base.0)
        } else if !d.wf() {
            None
        } else if d.mantissa < 0 {
            decimal_quotient(d.negated(), base.0)
        } else {
            decimal_quotient(d, base.0)
        },
    }
}

/// A reference price that moved by more than it may makes a started strategy rest for 800 milliseconds; anything
/// else leaves a rest as it was.
pub proof fn law_only_jumps_start_a_rest(st: StateV, now: Ts, norm: Px, p: PriceDoubles)
    requires
        jump_checked(st, now, norm, p) is Some,
    ensures
        ({
            let n = jump_checked(st, now, norm, p)->0;
            let jumps = st.started && (st.last_ref_mid matches Some(prev) && prev.0.mantissa > 0)
                && double_above(p.moved, p.limit);
            &&& n.last_ref_mid == Some(norm)
            &&& jumps ==> (n.cooldown_until matches Some(t) && is_after(t, now, 800))
            &&& !jumps ==> n.cooldown_until == st.cooldown_until
        }),
{
    if let Some(prev) = st.last_ref_mid {
        lemma_sign(prev.0);
    }
}

proof fn lemma_swept_cancels(
    slots: Seq<(SlotKey, SlotV)>,
    out: Seq<ActionV>,
    desired: Seq<DesiredSlot>,
    i: int,
    t: Terms,
    j: int,
)
    requires
        0 <= i <= j < slots.len(),
        slots[j].1.state == SlotStateKind::Live,
        slots[j].1.live is Some,
        forall|k: int| 0 <= k < desired.len() ==> (#[trigger] desired[k]).key != slots[j].0,
    ensures
        ({
            let r = swept_from(slots, out, desired, i, t);
            &&& r.0[j].1.state == SlotStateKind::PendingCancel && r.0[j].0 == slots[j].0
            &&& r.1.contains(
                ActionV::Cancel {
                    coid: (slots[j].1.live->0).coid,
                    venue: t.venue,
                    symbol: t.symbol,
                },
            )
        }),
    decreases slots.len() - i,
{
    let a = ActionV::Cancel {
        coid: (slots[j].1.live->0).coid,
        venue: t.venue,
        symbol: t.symbol,
    };
    if crate::strategy::quote::stray(slots[i], desired) {
        let next = slots.update(i, (slots[i].0, slots[i].1.withdrawn(t.now)));
        let b = ActionV::Cancel {
            coid: slots[i].1.live->0.coid,
            venue: t.venue,
            symbol: t.symbol,
        };
        if i == j {
            assert(out.push(b).last() == a);
            lemma_swept_keeps(next, out.push(b), desired, i + 1, t, i, a);
        } else {
            lemma_swept_cancels(next, out.push(b), desired, i + 1, t, j);
        }
    } else {
        assert(i != j);
        lemma_swept_cancels(slots, out, desired, i + 1, t, j);
    }
}

proof fn lemma_swept_keeps(
    slots: Seq<(SlotKey, SlotV)>,
    out: Seq<ActionV>,
    desired: Seq<DesiredSlot>,
    i: int,
    t: Terms,
    j: int,
    a: ActionV,
)
    requires
        0 <= j < i <= slots.len(),
        out.contains(a),
    ensures
        swept_from(slots, out, desired, i, t).0[j] == slots[j],
        swept_from(slots, out, desired, i, t).1.contains(a),
    decreases slots.len() - i,
{
    if i < slots.len() {
        if crate::strategy::quote::stray(slots[i], desired) {
            let next = slots.update(i, (slots[i].0, slots[i].1.withdrawn(t.now)));
            let b = ActionV::Cancel {
                coid: slots[i].1.live->0.coid,
                venue: t.venue,
                symbol: t.symbol,
            };
            let k = choose|k: int| 0 <= k < out.len() && out[k] == a;
            assert(out.push(b)[k] == a);
            lemma_swept_keeps(next, out.push(b), desired, i + 1, t, j, a);
        } else {
            lemma_swept_keeps(slots, out, desired, i + 1, t, j, a);
        }
    }
}

/// An order that works in a slot for which nothing is wanted is cancelled, by its id.
pub proof fn law_unwanted_orders_are_cancelled(
    slots: Seq<(SlotKey, SlotV)>,
    out: Seq<ActionV>,
    desired: Seq<DesiredSlot>,
    t: Terms,
    j: int,
    l: LiveV,
)
    requires
        0 <= j < slots.len(),
        slots[j].1.state == SlotStateKind::Live,
        slots[j].1.live == Some(l),
        forall|k: int| 0 <= k < desired.len() ==> (#[trigger] desired[k]).key != slots[j].0,
    ensures
        ({
            let r = swept_from(slots, out, desired, 0, t);
            &&& r.0[j].1.state == SlotStateKind::PendingCancel && r.0[j].0 == slots[j].0
            &&& r.1.contains(ActionV::Cancel { coid: l.coid, venue: t.venue, symbol: t.symbol })
        }),
{
    lemma_swept_cancels(slots, out, desired, 0, t, j);
}

/// What the venue says of its open orders settles those in question: one that is open works, one that is not is
/// gone. Slots whose orders are not in question stay as they are.
pub proof fn law_questions_are_settled(s: Seq<(SlotKey, SlotV)>, open: Seq<Seq<char>>, i: int)
    requires
        0 <= i < s.len(),
    ensures
        ({
            let a = s[i].1;
            let r = all_resolved(s, open)[i];
            let listed = a.live matches Some(l) && open.contains(l.coid);
            &&& r.0 == s[i].0
            &&& a.state != SlotStateKind::Unknown ==> r.1 == a
            &&& a.state == SlotStateKind::Unknown && listed ==> r.1.state == SlotStateKind::Live
                && r.1.live == a.live && r.1.pending_since is None && r.1.blocked_until is None
            &&& a.state == SlotStateKind::Unknown && !listed ==> is_empty_slot(r.1)
        }),
{
}

/// An open order is given back as an orphan if it is one of the strategy's own, its id being the strategy's up to
/// the first hyphen, and no slot holds it, and not otherwise.
pub proof fn law_orphans_are_own_and_unheld(
    s: Seq<(SlotKey, SlotV)>,
    id: Seq<char>,
    open: Seq<Seq<char>>,
    c: Seq<char>,
)
    ensures
        orphans(s, id, open).contains(c) <==> {
            &&& open.contains(c)
            &&& crate::text::before_first(c, '-') == id
            &&& !exists|i: int|
                0 <= i < s.len() && ((#[trigger] s[i]).1.live matches Some(l) && l.coid == c)
        },
{
    let p = |x: Seq<char>| crate::strategy::machine::orphaned(s, id, x);
    let f = open.filter(p);
    assert(held_in_slot(s, c) <==> exists|i: int|
        0 <= i < s.len() && ((#[trigger] s[i]).1.live matches Some(l) && l.coid == c));
    if f.contains(c) {
        open.lemma_filter_contains_rev(p, c);
        let j = choose|j: int| 0 <= j < f.len() && f[j] == c;
        open.lemma_filter_pred(p, j);
        assert(p(f[j]));
    }
    if open.contains(c) && p(c) {
        let j = choose|j: int| 0 <= j < open.len() && open[j] == c;
        open.lemma_filter_contains(p, j);
    }
}

/// A fill of a grid order opens a lot of its size on its side, bought or sold at the price of the fill, that is to
/// leave with its maker until the first of its deadlines and with the taker from the second on, both counted from
/// now; two timers are set for them.
pub proof fn law_fill_opens_a_lot(
    st: StateV,
    cfg: StrategyConfig,
    now: Ts,
    key: SlotKey,
    rep: ExecV,
    out: Seq<ActionV>,
)
    requires
        key.purpose == Purpose::GridEntry,
        rep.last_qty is Some && (rep.last_qty->0).0.mantissa > 0,
        inventory_filled(st, cfg, now, key, rep, out) is Some,
        cfg.exit.fast_exit_timeout_ms <= i64::MAX,
        cfg.exit.force_exit_timeout_ms <= i64::MAX,
    ensures
        ({
            let r = inventory_filled(st, cfg, now, key, rep, out)->0;
            let lot = r.0.lots.last();
            &&& r.0.lots.len() == st.lots.len() + 1 && r.0.lots.drop_last() == st.lots
            &&& lot.side == key.side && lot.qty == rep.last_qty->0 && lot.remaining == rep.last_qty->0
            &&& rep.last_px matches Some(p) ==> lot.entry_px == p
            &&& rep.last_px is None ==> (rep.px matches Some(p) ==> lot.entry_px == p)
            &&& lot.phase == ExitPhase::MakerTp && lot.opened_at == now
            &&& is_after(lot.fast_deadline, now, cfg.exit.fast_exit_timeout_ms as int)
            &&& is_after(lot.force_deadline, now, cfg.exit.force_exit_timeout_ms as int)
            &&& lot.id.0 == st.next_lot && r.0.next_lot == st.next_lot + 1
            &&& r.1.len() == out.len() + 2
            &&& r.1[out.len() as int] matches ActionV::SetTimer { at, .. } && at == lot.fast_deadline
            &&& r.1[(out.len() + 1) as int] matches ActionV::SetTimer { at, .. } && at == lot.force_deadline
        }),
{
    lemma_sign((rep.last_qty->0).0);
    let r = inventory_filled(st, cfg, now, key, rep, out)->0;
    assert(r.0.lots.drop_last() =~= st.lots);
}

/// A position that the venue reports replaces the lots by one of its size, long or short as it is, at the price
/// that the venue gives, or else the fair price, which is to leave at once with its maker and with the taker after
/// its time; a flat one leaves none.
pub proof fn law_reported_position_replaces_lots(
    st: StateV,
    cfg: StrategyConfig,
    now: Ts,
    net: Qty,
    avg: Option<Px>,
)
    requires
        lots_rebuilt(st, cfg, now, net, avg) is Some,
        cfg.exit.force_exit_timeout_ms <= i64::MAX,
    ensures
        ({
            let n = lots_rebuilt(st, cfg, now, net, avg)->0;
            &&& n.net_qty == net
            &&& net.0.mantissa == 0 ==> n.lots.len() == 0
            &&& net.0.mantissa != 0 ==> n.lots.len() == 1 && {
                let lot = n.lots[0];
                &&& lot.side == Side::Buy <==> net.0.mantissa > 0
                &&& lot.remaining == lot.qty && lot.qty.0.scale == net.0.scale && lot.qty.0.mantissa
                    == (if net.0.mantissa > 0 {
                    net.0.mantissa as int
                } else {
                    -net.0.mantissa
                })
                &&& avg matches Some(p) ==> lot.entry_px == p
                &&& avg is None ==> (st.last_fair matches Some(p) ==> lot.entry_px == p)
                &&& lot.phase == ExitPhase::FastMaker && lot.fast_deadline == now
                &&& is_after(lot.force_deadline, now, cfg.exit.force_exit_timeout_ms as int)
            }
        }),
{
    lemma_sign(net.0);
}

/// The mode that a strategy is in follows from what it is told and may do: stopped if it is not started, or once
/// it has left; leaving as long as it has anything to close; warming up, degraded where it may quote neither side,
/// and running otherwise.
pub proof fn law_mode_follows(st: StateV)
    ensures
        ({
            let n = mode_synced(st);
            let flat = st.net_qty.0.mantissa == 0 && st.lots.len() == 0;
            let warming = st.permission.reason == Some("warmup"@);
            let shut = !st.permission.allow_new_buy && !st.permission.allow_new_sell;
            &&& n == (StateV { started: n.started, lifecycle: n.lifecycle, ..st })
            &&& n.started <==> st.started && !(st.flatten_requested && flat)
            &&& n.lifecycle == StrategyMode::Stopped <==> !n.started
            &&& n.lifecycle == StrategyMode::Flattening <==> n.started && st.flatten_requested
            &&& n.lifecycle == StrategyMode::Warmup <==> n.started && !st.flatten_requested && warming
            &&& n.lifecycle == StrategyMode::Degraded <==> n.started && !st.flatten_requested
                && !warming && shut
            &&& n.lifecycle == StrategyMode::Running <==> n.started && !st.flatten_requested
                && !warming && !shut
        }),
{
}

} // verus!
