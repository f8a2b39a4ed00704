//! What holds of the strategy over the course of events.
use crate::config::StrategyConfig;
use crate::strategy::laws::law_state_stays_sound;
use crate::strategy::machine::{
    advanced_from, all_expired, all_wanted, answered, before_quoting, begun, cancel_everything, event_applied,
    fair_set, finished, inventory_filled, jumped, mode_synced, norm_px, prices_seen, quoted,
    rest_note, resting, stepped, takes_part, terms_of, Doubles, PriceDoubles,
    QuoteDoubles, Step, JUMP_COOLDOWN_MS,
};
use crate::strategy::quote::{
    all_withdrawn, placing, settled, settled_from, stray, swept_from, wanted, DesiredSlot, Terms,
};
use crate::strategy::risk::{missing_link, permitted};
use crate::strategy::state::{
    carries, count_state, key_place, law_slot_put, lemma_key_place, order_place, slot_at,
    slot_of_order, unique_keys, SlotV, StateV, REJECT_BACKOFF_MS,
};
use crate::types::action::{ActionV, TelemetryV};
use crate::types::event::Event;
use crate::types::ids::{law_order_ids_distinct, order_id_text, SlotKey, StrategyMode};
use crate::types::instrument::{Instrument, InstrumentStatus};
use crate::types::order::{ReqResult, SlotStateKind};
use crate::types::position::Lot;
use crate::types::time::Ts;
use vstd::prelude::*;

verus! {

/// What a strategy asks of a venue goes to the maker's venue and symbol; an order that it places
/// carries an id of the strategy's, and is not for the slot that rests, where one does.
pub open spec fn well_asked(a: ActionV, cfg: StrategyConfig, rests: Option<SlotKey>) -> bool {
    let venue = cfg.market.maker_venue;
    let symbol = cfg.market.maker_symbol@;
    match a {
        ActionV::Place(p) => {
            &&& p.venue == venue && p.symbol == symbol
            &&& exists|key: SlotKey, n: nat|
                p.coid == #[trigger] order_id_text(cfg.id@, key, n) && p.side == key.side && rests
                    != Some(key)
        },
        ActionV::Cancel { venue: v, symbol: s, .. } => v == venue && s == symbol,
        ActionV::Amend { venue: v, symbol: s, .. } => v == venue && s == symbol,
        ActionV::CancelAll { venue: v, symbol: s } => v == venue && s == symbol,
        _ => true,
    }
}

/// The list of actions only grew, by what is asked well.
pub open spec fn grew_well(
    before: Seq<ActionV>,
    now: Seq<ActionV>,
    cfg: StrategyConfig,
    rests: Option<SlotKey>,
) -> bool {
    &&& before.len() <= now.len()
    &&& forall|i: int| 0 <= i < before.len() ==> #[trigger] now[i] == before[i]
    &&& forall|i: int| before.len() <= i < now.len() ==> well_asked(#[trigger] now[i], cfg, rests)
}

/// A slot holds nothing and is left alone until a time.
pub open spec fn rests_until(s: SlotV, until: Ts) -> bool {
    s.state == SlotStateKind::Empty && s.live is None && s.blocked_until == Some(until)
}

/// The slot of a key, where one is given, holds nothing and is left alone until a time.
pub open spec fn key_rests(s: Seq<(SlotKey, SlotV)>, rests: Option<SlotKey>, until: Ts) -> bool {
    rests matches Some(k) ==> rests_until(slot_at(s, k), until)
}

proof fn lemma_grew(
    start: Seq<ActionV>,
    out: Seq<ActionV>,
    a: ActionV,
    cfg: StrategyConfig,
    rests: Option<SlotKey>,
)
    requires
        grew_well(start, out, cfg, rests),
        well_asked(a, cfg, rests),
    ensures
        grew_well(start, out.push(a), cfg, rests),
{
    let next = out.push(a);
    assert forall|i: int| start.len() <= i < next.len() implies well_asked(
        #[trigger] next[i],
        cfg,
        rests,
    ) by {
        if i < out.len() {
            assert(next[i] == out[i]);
        }
    }
}

/// Slots that change in place leave those alone that do not change.
proof fn lemma_in_place(s: Seq<(SlotKey, SlotV)>, t: Seq<(SlotKey, SlotV)>, k: SlotKey, i: int)
    requires
        0 <= i <= s.len(),
        s.len() == t.len(),
        forall|j: int| 0 <= j < s.len() ==> (#[trigger] t[j]).0 == s[j].0,
    ensures
        key_place(s, k, i) == key_place(t, k, i),
    decreases s.len() - i,
{
    if i < s.len() {
        assert(t[i].0 == s[i].0);
        if s[i].0 != k {
            lemma_in_place(s, t, k, i + 1);
        }
    }
}

/// Slots that change in place keep a slot that rests, if a slot without an order does not change.
proof fn lemma_keeps_rest(
    s: Seq<(SlotKey, SlotV)>,
    t: Seq<(SlotKey, SlotV)>,
    rests: Option<SlotKey>,
    until: Ts,
)
    requires
        key_rests(s, rests, until),
        s.len() == t.len(),
        forall|j: int| 0 <= j < s.len() ==> (#[trigger] t[j]).0 == s[j].0,
        forall|j: int|
            0 <= j < s.len() && s[j].1.state == SlotStateKind::Empty ==> #[trigger] t[j] == s[j],
    ensures
        key_rests(t, rests, until),
{
    if let Some(k) = rests {
        lemma_in_place(s, t, k, 0);
        lemma_key_place(s, k, 0);
        let p = key_place(s, k, 0);
        if p < s.len() {
            assert(t[p] == s[p]);
        }
    }
}

proof fn lemma_order_place(s: Seq<(SlotKey, SlotV)>, coid: Seq<char>, i: int)
    requires
        0 <= i <= s.len(),
    ensures
        i <= order_place(s, coid, i) <= s.len(),
        order_place(s, coid, i) < s.len() ==> carries(s[order_place(s, coid, i)].1, coid),
    decreases s.len() - i,
{
    if i < s.len() && !carries(s[i].1, coid) {
        lemma_order_place(s, coid, i + 1);
    }
}

/// The slot that is found for an order carries it.
pub proof fn law_found_slot_carries_order(s: Seq<(SlotKey, SlotV)>, coid: Seq<char>)
    requires
        unique_keys(s),
    ensures
        slot_of_order(s, coid) matches Some(k) ==> carries(slot_at(s, k), coid),
{
    lemma_order_place(s, coid, 0);
    let p = order_place(s, coid, 0);
    if p < s.len() {
        let k = s[p].0;
        lemma_key_place(s, k, 0);
        let q = key_place(s, k, 0);
        if q < p {
            assert(s[q].0 != s[p].0);
        }
        if p < q {
            assert(s[p].0 != k);
        }
    }
}

proof fn lemma_put_rest(st: StateV, k: SlotKey, v: SlotV, rests: Option<SlotKey>, until: Ts)
    requires
        key_rests(st.slots, rests, until),
        rests == Some(k) ==> rests_until(v, until),
    ensures
        key_rests(st.put(k, v).slots, rests, until),
{
    if let Some(key) = rests {
        law_slot_put(st.slots, k, v, key);
    }
}

proof fn lemma_event_asks(
    st: StateV,
    cfg: StrategyConfig,
    now: Ts,
    ev: Event,
    out: Seq<ActionV>,
    rests: Option<SlotKey>,
    until: Ts,
)
    requires
        st.wf(),
        key_rests(st.slots, rests, until),
    ensures
        event_applied(st, cfg, now, ev, out) matches Some(n) ==> grew_well(out, n.1, cfg, rests)
            && key_rests(n.0.slots, rests, until),
{
    match ev {
        Event::Exec(rep) => {
            law_found_slot_carries_order(st.slots, rep@.coid);
            match slot_of_order(st.slots, rep@.coid) {
                None => {},
                Some(k) => {
                    let s = slot_at(st.slots, k);
                    assert(rests != Some(k));
                    lemma_put_rest(
                        st,
                        k,
                        crate::strategy::machine::acknowledged(s, rep@),
                        rests,
                        until,
                    );
                    lemma_put_rest(st, k, s.refused(now).emptied(), rests, until);
                    lemma_put_rest(st, k, s.refused(now).rolled_back().working(), rests, until);
                    lemma_put_rest(st, k, s.emptied(), rests, until);
                    match inventory_filled(st, cfg, now, k, rep@, out) {
                        Some(m) => {
                            assert(m.0.slots == st.slots);
                            lemma_put_rest(
                                m.0,
                                k,
                                crate::strategy::machine::slot_filled(s, rep@),
                                rests,
                                until,
                            );
                            assert(grew_well(out, m.1, cfg, rests));
                        },
                        None => {},
                    }
                },
            }
        },
        Event::ReqOutcome { coid, result, .. } => {
            law_found_slot_carries_order(st.slots, coid@);
            match slot_of_order(st.slots, coid@) {
                None => {},
                Some(k) => {
                    lemma_put_rest(
                        st,
                        k,
                        answered(slot_at(st.slots, k), now, result),
                        rests,
                        until,
                    );
                },
            }
        },
        Event::Control(_) => {
            lemma_keeps_rest(st.slots, all_withdrawn(st.slots, now), rests, until);
            lemma_grew(out, out, cancel_everything(cfg), cfg, rests);
        },
        _ => {},
    }
}

proof fn lemma_advanced_asks(
    lots: Seq<Lot>,
    i: int,
    kept: Seq<Lot>,
    fair: Option<crate::types::num::Px>,
    losses: Seq<Option<u64>>,
    most: u64,
    now: Ts,
    start: Seq<ActionV>,
    out: Seq<ActionV>,
    cfg: StrategyConfig,
    rests: Option<SlotKey>,
)
    requires
        0 <= i <= lots.len(),
        grew_well(start, out, cfg, rests),
        only_notes(start, out),
    ensures
        advanced_from(lots, i, kept, fair, losses, most, now, out) matches Some(n) ==> grew_well(
            start,
            n.1,
            cfg,
            rests,
        ) && only_notes(start, n.1),
    decreases lots.len() - i,
{
    if i < lots.len() {
        match crate::strategy::machine::lot_advanced(lots[i], fair, losses[i], most, now) {
            None => {},
            Some(n) => {
                let a = crate::strategy::machine::fast_note(lots[i].id);
                lemma_grew(start, out, a, cfg, rests);
                assert(only_notes(start, out.push(a)));
                lemma_advanced_asks(
                    lots,
                    i + 1,
                    if n.0.phase == crate::types::position::ExitPhase::Closed {
                        kept
                    } else {
                        kept.push(n.0)
                    },
                    fair,
                    losses,
                    most,
                    now,
                    start,
                    if n.1 {
                        out.push(a)
                    } else {
                        out
                    },
                    cfg,
                    rests,
                );
            },
        }
    }
}

/// Actions that were added are notes.
pub open spec fn only_notes(before: Seq<ActionV>, now: Seq<ActionV>) -> bool {
    &&& before.len() <= now.len()
    &&& forall|i: int| 0 <= i < before.len() ==> #[trigger] now[i] == before[i]
    &&& forall|i: int| before.len() <= i < now.len() ==> (#[trigger] now[i]) is Emit
}

/// The terms are those on which a strategy places its orders.
pub open spec fn terms_fit(t: Terms, cfg: StrategyConfig) -> bool {
    t.id == cfg.id@ && t.venue == cfg.market.maker_venue && t.symbol == cfg.market.maker_symbol@
}

proof fn lemma_settled_asks(
    st: StateV,
    start: Seq<ActionV>,
    out: Seq<ActionV>,
    desired: Seq<DesiredSlot>,
    i: int,
    t: Terms,
    gaps: Seq<Option<u64>>,
    cfg: StrategyConfig,
    rests: Option<SlotKey>,
    until: Ts,
)
    requires
        0 <= i <= desired.len(),
        terms_fit(t, cfg),
        rests is Some ==> t.now.0 < until.0,
        grew_well(start, out, cfg, rests),
        key_rests(st.slots, rests, until),
    ensures
        settled_from(st, out, desired, i, t, gaps) matches Some(n) ==> grew_well(
            start,
            n.1,
            cfg,
            rests,
        ) && key_rests(n.0.slots, rests, until),
    decreases desired.len() - i,
{
    if i < desired.len() {
        let d = desired[i];
        match settled(st, out, d, t, gaps[i]) {
            None => {},
            Some(n) => {
                let s = SlotV { desired: Some(d.order), ..slot_at(st.slots, d.key) };
                let coid = order_id_text(t.id, d.key, st.next_seq as nat);
                let p = crate::strategy::quote::placed(s, coid, d.order, t.now);
                law_slot_put(st.slots, d.key, s, d.key);
                law_slot_put(st.slots, d.key, p, d.key);
                if s.live is Some {
                    let m = crate::strategy::quote::moved(s, s.live->0, d.order, t);
                    law_slot_put(st.slots, d.key, m.0, d.key);
                    if rests != Some(d.key) {
                        lemma_put_rest(st, d.key, m.0, rests, until);
                    }
                    lemma_grew(start, out, m.1, cfg, rests);
                }
                if rests != Some(d.key) {
                    lemma_put_rest(st, d.key, p, rests, until);
                    let a = placing(coid, d.key, d.order, t);
                    assert(well_asked(a, cfg, rests)) by {
                        assert(coid == order_id_text(cfg.id@, d.key, st.next_seq as nat));
                    }
                    lemma_grew(start, out, a, cfg, rests);
                    lemma_put_rest(st, d.key, s, rests, until);
                } else {
                    assert(s.blocked(t.now));
                    lemma_put_rest(st, d.key, s, rests, until);
                }
                lemma_settled_asks(n.0, start, n.1, desired, i + 1, t, gaps, cfg, rests, until);
            },
        }
    }
}

proof fn lemma_swept_asks(
    slots: Seq<(SlotKey, SlotV)>,
    start: Seq<ActionV>,
    out: Seq<ActionV>,
    desired: Seq<DesiredSlot>,
    i: int,
    t: Terms,
    cfg: StrategyConfig,
    rests: Option<SlotKey>,
    until: Ts,
)
    requires
        0 <= i <= slots.len(),
        terms_fit(t, cfg),
        grew_well(start, out, cfg, rests),
        key_rests(slots, rests, until),
    ensures
        grew_well(start, swept_from(slots, out, desired, i, t).1, cfg, rests),
        key_rests(swept_from(slots, out, desired, i, t).0, rests, until),
    decreases slots.len() - i,
{
    if i < slots.len() {
        if stray(slots[i], desired) {
            let a = ActionV::Cancel {
                coid: slots[i].1.live->0.coid,
                venue: t.venue,
                symbol: t.symbol,
            };
            let next = slots.update(i, (slots[i].0, slots[i].1.withdrawn(t.now)));
            lemma_grew(start, out, a, cfg, rests);
            lemma_keeps_rest(slots, next, rests, until);
            lemma_swept_asks(next, start, out.push(a), desired, i + 1, t, cfg, rests, until);
        } else {
            lemma_swept_asks(slots, start, out, desired, i + 1, t, cfg, rests, until);
        }
    }
}

proof fn lemma_quoted_asks(
    st: StateV,
    cfg: StrategyConfig,
    maker: Instrument,
    now: Ts,
    requote: u64,
    gaps: Seq<Option<u64>>,
    start: Seq<ActionV>,
    out: Seq<ActionV>,
    rests: Option<SlotKey>,
    until: Ts,
)
    requires
        rests is Some ==> now.0 < until.0,
        grew_well(start, out, cfg, rests),
        key_rests(st.slots, rests, until),
    ensures
        quoted(st, cfg, maker, now, requote, gaps, out) matches Some(n) ==> grew_well(
            start,
            n.1,
            cfg,
            rests,
        ) && key_rests(n.0.slots, rests, until),
{
    if resting(st, now) {
        lemma_keeps_rest(st.slots, all_withdrawn(st.slots, now), rests, until);
        lemma_grew(start, out, cancel_everything(cfg), cfg, rests);
        lemma_grew(start, out.push(cancel_everything(cfg)), rest_note(st), cfg, rests);
    } else {
        match all_wanted(st, cfg, maker) {
            None => {},
            Some(d) => {
                let t = terms_of(st, cfg, now, requote);
                let noted = match st.permission.reason {
                    Some(reason) => out.push(ActionV::Emit(TelemetryV::Guard { reason })),
                    None => out,
                };
                if let Some(reason) = st.permission.reason {
                    lemma_grew(
                        start,
                        out,
                        ActionV::Emit(TelemetryV::Guard { reason }),
                        cfg,
                        rests,
                    );
                }
                lemma_settled_asks(st, start, noted, d, 0, t, gaps, cfg, rests, until);
                match settled_from(st, noted, d, 0, t, gaps) {
                    None => {},
                    Some(n) => {
                        lemma_swept_asks(n.0.slots, start, n.1, d, 0, t, cfg, rests, until);
                    },
                }
            },
        }
    }
}

proof fn lemma_finished_asks(
    st: StateV,
    cfg: StrategyConfig,
    maker: Instrument,
    now: Ts,
    step: Step,
    q: QuoteDoubles,
    start: Seq<ActionV>,
    out: Seq<ActionV>,
    rests: Option<SlotKey>,
    until: Ts,
)
    requires
        rests is Some ==> now.0 < until.0,
        grew_well(start, out, cfg, rests),
        key_rests(st.slots, rests, until),
    ensures
        finished(st, cfg, maker, now, step, q, out) matches Some(n) ==> grew_well(
            start,
            n.1,
            cfg,
            rests,
        ) && key_rests(n.0.slots, rests, until),
{
    if step.proceed {
        match fair_set(st, step.norm, step.sampled, q.figures) {
            None => {},
            Some(priced) => {
                let empty = Seq::<Lot>::empty();
                assert(grew_well(out, out, cfg, rests));
                lemma_advanced_asks(
                    priced.lots,
                    0,
                    empty,
                    priced.last_fair,
                    q.losses,
                    q.max_loss,
                    now,
                    out,
                    out,
                    cfg,
                    rests,
                );
                match advanced_from(
                    priced.lots,
                    0,
                    empty,
                    priced.last_fair,
                    q.losses,
                    q.max_loss,
                    now,
                    out,
                ) {
                    None => {},
                    Some(exits) => {
                        let m = StateV { lots: exits.0, ..priced };
                        assert(grew_well(start, exits.1, cfg, rests)) by {
                            assert forall|i: int| start.len() <= i < exits.1.len() implies well_asked(
                                #[trigger] exits.1[i],
                                cfg,
                                rests,
                            ) by {
                                if i < out.len() {
                                    assert(exits.1[i] == out[i]);
                                }
                            }
                            assert forall|i: int| 0 <= i < start.len() implies #[trigger] exits.1[i]
                                == start[i] by {
                                assert(exits.1[i] == out[i]);
                            }
                        }
                        match permitted(
                            cfg,
                            m,
                            maker,
                            now,
                            q.figures.gap,
                            q.figures.band,
                            q.most,
                        ) {
                            None => {},
                            Some(permission) => {
                                let s = mode_synced(StateV { permission, ..m });
                                assert(s.slots == st.slots);
                                lemma_quoted_asks(
                                    s,
                                    cfg,
                                    maker,
                                    now,
                                    q.requote,
                                    q.gaps,
                                    start,
                                    exits.1,
                                    rests,
                                    until,
                                );
                                match quoted(s, cfg, maker, now, q.requote, q.gaps, exits.1) {
                                    None => {},
                                    Some(n) => {
                                        lemma_grew(
                                            start,
                                            n.1,
                                            ActionV::SetTimer {
                                                id: crate::types::ids::TimerId(2),
                                                at: now.later(
                                                    crate::strategy::machine::EXIT_SCAN_MS as int,
                                                ),
                                            },
                                            cfg,
                                            rests,
                                        );
                                    },
                                }
                            },
                        }
                    },
                }
            },
        }
    }
}

/// What follows an event that was taken in asks well, and leaves a slot alone that rests.
proof fn lemma_rest_of_step(
    st: StateV,
    cfg: StrategyConfig,
    maker: Instrument,
    now: Ts,
    ev: Event,
    f: Doubles,
    out: Seq<ActionV>,
    rests: Option<SlotKey>,
    until: Ts,
)
    requires
        rests is Some ==> now.0 < until.0,
        event_applied(st, cfg, now, ev, out) matches Some(a) ==> grew_well(out, a.1, cfg, rests)
            && key_rests(a.0.slots, rests, until),
    ensures
        stepped(st, cfg, maker, now, ev, f, out) matches Some(n) ==> grew_well(
            out,
            n.1,
            cfg,
            rests,
        ) && key_rests(n.0.slots, rests, until),
{
    match event_applied(st, cfg, now, ev, out) {
        None => {},
        Some(a) => {
            let x = StateV { slots: all_expired(a.0.slots, now), ..a.0 };
            lemma_keeps_rest(a.0.slots, x.slots, rests, until);
            match begun(st, cfg, now, ev, f.price, out) {
                None => {},
                Some(b) => {
                    assert(key_rests(b.0.slots, rests, until));
                    lemma_finished_asks(
                        b.0,
                        cfg,
                        maker,
                        now,
                        b.2,
                        f.quote,
                        out,
                        b.1,
                        rests,
                        until,
                    );
                },
            }
        },
    }
}

/// Whatever event comes, a strategy asks only its maker's venue for something, and only of its
/// maker's symbol, and an order that it places carries an id of its own.
pub proof fn law_only_the_maker_is_asked(
    st: StateV,
    cfg: StrategyConfig,
    maker: Instrument,
    now: Ts,
    ev: Event,
    f: Doubles,
    out: Seq<ActionV>,
)
    requires
        st.wf(),
    ensures
        stepped(st, cfg, maker, now, ev, f, out) matches Some(n) ==> grew_well(
            out,
            n.1,
            cfg,
            None,
        ),
{
    lemma_event_asks(st, cfg, now, ev, out, None, now);
    lemma_rest_of_step(st, cfg, maker, now, ev, f, out, None, now);
}

/// One event after the other: the time of each, the event and the doubles that go into it.
pub open spec fn ran(
    st: StateV,
    cfg: StrategyConfig,
    maker: Instrument,
    evs: Seq<(Ts, Event, Doubles)>,
    out: Seq<ActionV>,
) -> Option<(StateV, Seq<ActionV>)>
    decreases evs.len(),
{
    if evs.len() == 0 {
        Some((st, out))
    } else {
        match ran(st, cfg, maker, evs.drop_last(), out) {
            None => None,
            Some(n) => stepped(
                n.0,
                cfg,
                maker,
                evs.last().0,
                evs.last().1,
                evs.last().2,
                n.1,
            ),
        }
    }
}

/// However many events come before the back-off of a slot is over, no order is placed for it, and
/// it stays as it is.
pub proof fn law_nothing_is_placed_during_back_off(
    st: StateV,
    cfg: StrategyConfig,
    maker: Instrument,
    evs: Seq<(Ts, Event, Doubles)>,
    out: Seq<ActionV>,
    key: SlotKey,
    until: Ts,
)
    requires
        st.wf(),
        rests_until(slot_at(st.slots, key), until),
        forall|i: int| 0 <= i < evs.len() ==> (#[trigger] evs[i]).0.0 < until.0,
    ensures
        ran(st, cfg, maker, evs, out) matches Some(n) ==> n.0.wf() && rests_until(
            slot_at(n.0.slots, key),
            until,
        ) && grew_well(out, n.1, cfg, Some(key)),
    decreases evs.len(),
{
    if evs.len() > 0 {
        let less = evs.drop_last();
        assert forall|i: int| 0 <= i < less.len() implies (#[trigger] less[i]).0.0 < until.0 by {
            assert(less[i] == evs[i]);
        }
        law_nothing_is_placed_during_back_off(st, cfg, maker, less, out, key, until);
        match ran(st, cfg, maker, less, out) {
            None => {},
            Some(m) => {
                let (now, ev, f) = evs.last();
                assert(evs[evs.len() - 1].0.0 < until.0);
                lemma_event_asks(m.0, cfg, now, ev, m.1, Some(key), until);
                lemma_rest_of_step(m.0, cfg, maker, now, ev, f, m.1, Some(key), until);
                law_state_stays_sound(m.0, cfg, maker, now, ev, f, m.1);
                match stepped(m.0, cfg, maker, now, ev, f, m.1) {
                    None => {},
                    Some(n) => {
                        assert forall|i: int| out.len() <= i < n.1.len() implies well_asked(
                            #[trigger] n.1[i],
                            cfg,
                            Some(key),
                        ) by {
                            if i < m.1.len() {
                                assert(n.1[i] == m.1[i]);
                            }
                        }
                        assert forall|i: int| 0 <= i < out.len() implies #[trigger] n.1[i]
                            == out[i] by {
                            assert(n.1[i] == m.1[i]);
                        }
                    },
                }
            },
        }
    }
}

/// A placement that is refused leaves its slot with nothing, to be left alone for the whole
/// back-off, and places nothing for it at once.
pub proof fn law_refused_place_backs_off(
    st: StateV,
    cfg: StrategyConfig,
    maker: Instrument,
    now: Ts,
    ev: Event,
    f: Doubles,
    out: Seq<ActionV>,
    key: SlotKey,
)
    requires
        st.wf(),
        now.0 + REJECT_BACKOFF_MS * 1_000_000 <= i64::MAX,
        ev matches Event::ReqOutcome { coid, result, .. } && result == ReqResult::Rejected
            && slot_of_order(st.slots, coid@) == Some(key),
        slot_at(st.slots, key).state == SlotStateKind::PendingNew,
    ensures
        stepped(st, cfg, maker, now, ev, f, out) matches Some(n) ==> rests_until(
            slot_at(n.0.slots, key),
            now.later(REJECT_BACKOFF_MS as int),
        ) && grew_well(out, n.1, cfg, Some(key)),
{
    let until = now.later(REJECT_BACKOFF_MS as int);
    let v = answered(slot_at(st.slots, key), now, ReqResult::Rejected);
    law_slot_put(st.slots, key, v, key);
    assert(event_applied(st, cfg, now, ev, out) == Some((st.put(key, v), out)));
    lemma_rest_of_step(st, cfg, maker, now, ev, f, out, Some(key), until);
}

/// An action places an order for a slot.
pub open spec fn places_for(a: ActionV, id: Seq<char>, key: SlotKey) -> bool {
    a matches ActionV::Place(p) && exists|n: nat| p.coid == #[trigger] order_id_text(id, key, n)
}

/// The actions that place an order for a slot.
pub open spec fn placements(out: Seq<ActionV>, id: Seq<char>, key: SlotKey) -> Seq<ActionV> {
    out.filter(|a: ActionV| places_for(a, id, key))
}

/// The list of actions only grew, by none that places an order.
pub open spec fn grew_without_placing(before: Seq<ActionV>, now: Seq<ActionV>) -> bool {
    &&& before.len() <= now.len()
    &&& forall|i: int| 0 <= i < before.len() ==> #[trigger] now[i] == before[i]
    &&& forall|i: int| before.len() <= i < now.len() ==> !((#[trigger] now[i]) is Place)
}

proof fn lemma_push_placements(out: Seq<ActionV>, a: ActionV, id: Seq<char>, key: SlotKey)
    ensures
        placements(out.push(a), id, key).len() == placements(out, id, key).len() + (if places_for(
            a,
            id,
            key,
        ) {
            1int
        } else {
            0int
        }),
{
    reveal(Seq::filter);
    assert(out.push(a).drop_last() =~= out);
}

proof fn lemma_nothing_placed(
    before: Seq<ActionV>,
    now: Seq<ActionV>,
    id: Seq<char>,
    key: SlotKey,
)
    requires
        grew_without_placing(before, now),
    ensures
        placements(now, id, key).len() == placements(before, id, key).len(),
    decreases now.len() - before.len(),
{
    if before.len() == now.len() {
        assert(now =~= before);
    } else {
        let less = now.drop_last();
        assert forall|i: int| 0 <= i < before.len() implies #[trigger] less[i] == before[i] by {
            assert(less[i] == now[i]);
        }
        assert forall|i: int| before.len() <= i < less.len() implies !((#[trigger] less[i]) is Place) by {
            assert(less[i] == now[i]);
        }
        lemma_nothing_placed(before, less, id, key);
        assert(now =~= less.push(now.last()));
        assert(!(now[now.len() - 1] is Place));
        lemma_push_placements(less, now.last(), id, key);
    }
}

/// While a slot rests no order is placed for it.
proof fn lemma_rest_places_nothing(
    before: Seq<ActionV>,
    now: Seq<ActionV>,
    cfg: StrategyConfig,
    key: SlotKey,
)
    requires
        grew_well(before, now, cfg, Some(key)),
    ensures
        placements(now, cfg.id@, key).len() == placements(before, cfg.id@, key).len(),
    decreases now.len() - before.len(),
{
    if before.len() == now.len() {
        assert(now =~= before);
    } else {
        let less = now.drop_last();
        let a = now.last();
        assert forall|i: int| 0 <= i < before.len() implies #[trigger] less[i] == before[i] by {
            assert(less[i] == now[i]);
        }
        assert forall|i: int| before.len() <= i < less.len() implies well_asked(
            #[trigger] less[i],
            cfg,
            Some(key),
        ) by {
            assert(less[i] == now[i]);
        }
        lemma_rest_places_nothing(before, less, cfg, key);
        assert(now =~= less.push(a));
        assert(well_asked(now[now.len() - 1], cfg, Some(key)));
        assert(!places_for(a, cfg.id@, key)) by {
            if let ActionV::Place(p) = a {
                let (own, n) = choose|own: SlotKey, n: nat|
                    p.coid == #[trigger] order_id_text(cfg.id@, own, n) && p.side == own.side && Some(
                        key,
                    ) != Some(own);
                if places_for(a, cfg.id@, key) {
                    let k = choose|k: nat| p.coid == #[trigger] order_id_text(cfg.id@, key, k);
                    law_order_ids_distinct(cfg.id@, own, n, cfg.id@, key, k);
                }
            }
        }
        lemma_push_placements(less, a, cfg.id@, key);
    }
}

proof fn lemma_event_places_nothing(
    st: StateV,
    cfg: StrategyConfig,
    now: Ts,
    ev: Event,
    out: Seq<ActionV>,
)
    ensures
        event_applied(st, cfg, now, ev, out) matches Some(n) ==> grew_without_placing(out, n.1),
{
    if let Event::Exec(rep) = ev {
        match slot_of_order(st.slots, rep@.coid) {
            None => {},
            Some(k) => {
                match inventory_filled(st, cfg, now, k, rep@, out) {
                    Some(m) => {
                        assert(grew_without_placing(out, m.1));
                    },
                    None => {},
                }
            },
        }
    }
}

/// Once a slot is not empty no order is placed for it.
proof fn lemma_settled_places_none(
    st: StateV,
    out: Seq<ActionV>,
    desired: Seq<DesiredSlot>,
    i: int,
    t: Terms,
    gaps: Seq<Option<u64>>,
    key: SlotKey,
)
    requires
        0 <= i <= desired.len(),
        slot_at(st.slots, key).state != SlotStateKind::Empty,
    ensures
        settled_from(st, out, desired, i, t, gaps) matches Some(n) ==> placements(
            n.1,
            t.id,
            key,
        ).len() == placements(out, t.id, key).len(),
    decreases desired.len() - i,
{
    if i < desired.len() {
        let d = desired[i];
        match settled(st, out, d, t, gaps[i]) {
            None => {},
            Some(n) => {
                lemma_settled_other(st, out, d, t, gaps[i], key);
                lemma_settled_places_none(n.0, n.1, desired, i + 1, t, gaps, key);
            },
        }
    }
}

/// An order that is brought about is placed only where its own slot is empty and not left alone; another
/// slot stays as it was.
proof fn lemma_settled_other(
    st: StateV,
    out: Seq<ActionV>,
    d: DesiredSlot,
    t: Terms,
    gap: Option<u64>,
    key: SlotKey,
)
    ensures
        settled(st, out, d, t, gap) matches Some(n) ==> {
            let s = slot_at(st.slots, key);
            &&& d.key != key ==> slot_at(n.0.slots, key) == s
            &&& d.key == key && s.state != SlotStateKind::Empty ==> slot_at(n.0.slots, key).state
                != SlotStateKind::Empty
            &&& d.key == key && s.state == SlotStateKind::Empty && !s.blocked(t.now) ==> slot_at(
                n.0.slots,
                key,
            ).state != SlotStateKind::Empty
            &&& placements(n.1, t.id, key).len() == placements(out, t.id, key).len() + (if d.key
                == key && s.state == SlotStateKind::Empty && !s.blocked(t.now) {
                1int
            } else {
                0int
            })
        },
{
    match settled(st, out, d, t, gap) {
        None => {},
        Some(n) => {
            let own = SlotV { desired: Some(d.order), ..slot_at(st.slots, d.key) };
            let coid = order_id_text(t.id, d.key, st.next_seq as nat);
            let p = crate::strategy::quote::placed(own, coid, d.order, t.now);
            let a = placing(coid, d.key, d.order, t);
            law_slot_put(st.slots, d.key, own, key);
            law_slot_put(st.slots, d.key, p, key);
            lemma_push_placements(out, a, t.id, key);
            if d.key != key {
                assert(!places_for(a, t.id, key)) by {
                    if places_for(a, t.id, key) {
                        let k = choose|k: nat| coid == #[trigger] order_id_text(t.id, key, k);
                        law_order_ids_distinct(t.id, d.key, st.next_seq as nat, t.id, key, k);
                    }
                }
            } else {
                assert(places_for(a, t.id, key)) by {
                    assert(coid == order_id_text(t.id, key, st.next_seq as nat));
                }
            }
            if own.live is Some {
                let m = crate::strategy::quote::moved(own, own.live->0, d.order, t);
                law_slot_put(st.slots, d.key, m.0, key);
                lemma_push_placements(out, m.1, t.id, key);
            }
        },
    }
}

/// An order that should stand in an empty slot that is not left alone is placed, and placed once.
proof fn lemma_settled_places_once(
    st: StateV,
    out: Seq<ActionV>,
    desired: Seq<DesiredSlot>,
    i: int,
    t: Terms,
    gaps: Seq<Option<u64>>,
    key: SlotKey,
)
    requires
        0 <= i <= desired.len(),
        exists|j: int| i <= j < desired.len() && (#[trigger] desired[j]).key == key,
        slot_at(st.slots, key).state == SlotStateKind::Empty,
        !slot_at(st.slots, key).blocked(t.now),
    ensures
        settled_from(st, out, desired, i, t, gaps) matches Some(n) ==> placements(
            n.1,
            t.id,
            key,
        ).len() == placements(out, t.id, key).len() + 1,
    decreases desired.len() - i,
{
    let d = desired[i];
    match settled(st, out, d, t, gaps[i]) {
        None => {},
        Some(n) => {
            lemma_settled_other(st, out, d, t, gaps[i], key);
            if d.key == key {
                lemma_settled_places_none(n.0, n.1, desired, i + 1, t, gaps, key);
            } else {
                let j = choose|j: int| i <= j < desired.len() && (
                #[trigger] desired[j]).key == key;
                assert(i + 1 <= j);
                lemma_settled_places_once(n.0, n.1, desired, i + 1, t, gaps, key);
            }
        },
    }
}

proof fn lemma_swept_places_nothing(
    slots: Seq<(SlotKey, SlotV)>,
    start: Seq<ActionV>,
    out: Seq<ActionV>,
    desired: Seq<DesiredSlot>,
    i: int,
    t: Terms,
)
    requires
        0 <= i <= slots.len(),
        grew_without_placing(start, out),
    ensures
        grew_without_placing(start, swept_from(slots, out, desired, i, t).1),
    decreases slots.len() - i,
{
    if i < slots.len() {
        if stray(slots[i], desired) {
            let a = ActionV::Cancel {
                coid: slots[i].1.live->0.coid,
                venue: t.venue,
                symbol: t.symbol,
            };
            assert(grew_without_placing(start, out.push(a)));
            lemma_swept_places_nothing(
                slots.update(i, (slots[i].0, slots[i].1.withdrawn(t.now))),
                start,
                out.push(a),
                desired,
                i + 1,
                t,
            );
        } else {
            lemma_swept_places_nothing(slots, start, out, desired, i + 1, t);
        }
    }
}

/// Quoting places one order for an empty slot that is not left alone and for which an order should
/// stand.
pub proof fn law_wanted_order_is_placed_once(
    st: StateV,
    cfg: StrategyConfig,
    maker: Instrument,
    now: Ts,
    requote: u64,
    gaps: Seq<Option<u64>>,
    out: Seq<ActionV>,
    key: SlotKey,
)
    requires
        !resting(st, now),
        all_wanted(st, cfg, maker) matches Some(desired) && wanted(desired, key),
        slot_at(st.slots, key).state == SlotStateKind::Empty,
        !slot_at(st.slots, key).blocked(now),
    ensures
        quoted(st, cfg, maker, now, requote, gaps, out) matches Some(n) ==> placements(
            n.1,
            cfg.id@,
            key,
        ).len() == placements(out, cfg.id@, key).len() + 1,
{
    let d = all_wanted(st, cfg, maker)->0;
    let t = terms_of(st, cfg, now, requote);
    let noted = match st.permission.reason {
        Some(reason) => out.push(ActionV::Emit(TelemetryV::Guard { reason })),
        None => out,
    };
    assert(grew_without_placing(out, noted));
    lemma_nothing_placed(out, noted, cfg.id@, key);
    let w = choose|w: int| 0 <= w < d.len() && (#[trigger] d[w]).key == key;
    assert(d[w].key == key);
    lemma_settled_places_once(st, noted, d, 0, t, gaps, key);
    match settled_from(st, noted, d, 0, t, gaps) {
        None => {},
        Some(n) => {
            lemma_swept_places_nothing(n.0.slots, n.1, n.1, d, 0, t);
            lemma_nothing_placed(
                n.1,
                swept_from(n.0.slots, n.1, d, 0, t).1,
                cfg.id@,
                key,
            );
        },
    }
}

/// After an event the strategy is about to quote, rests after no jump, and wants an order to stand in a
/// slot.
pub open spec fn comes_to_want(
    st: StateV,
    cfg: StrategyConfig,
    maker: Instrument,
    now: Ts,
    ev: Event,
    f: Doubles,
    out: Seq<ActionV>,
    key: SlotKey,
) -> bool {
    begun(st, cfg, now, ev, f.price, out) matches Some(b) && b.2.proceed && (before_quoting(
        b.0,
        cfg,
        maker,
        now,
        b.2,
        f.quote,
        b.1,
    ) matches Some(s) && !resting(s.0, now) && (all_wanted(s.0, cfg, maker) matches Some(desired)
        && wanted(desired, key)))
}

/// An event that comes when the back-off of a slot is over, and after which an order should stand there,
/// places one order for it.
pub proof fn law_rested_slot_is_placed_again(
    st: StateV,
    cfg: StrategyConfig,
    maker: Instrument,
    now: Ts,
    ev: Event,
    f: Doubles,
    out: Seq<ActionV>,
    key: SlotKey,
    until: Ts,
)
    requires
        st.wf(),
        rests_until(slot_at(st.slots, key), until),
        now.0 >= until.0,
        comes_to_want(st, cfg, maker, now, ev, f, out, key),
    ensures
        stepped(st, cfg, maker, now, ev, f, out) matches Some(n) ==> placements(
            n.1,
            cfg.id@,
            key,
        ).len() == placements(out, cfg.id@, key).len() + 1,
{
    lemma_event_asks(st, cfg, now, ev, out, Some(key), until);
    lemma_event_places_nothing(st, cfg, now, ev, out);
    let a = event_applied(st, cfg, now, ev, out)->0;
    let b = begun(st, cfg, now, ev, f.price, out)->0;
    let x = StateV { slots: all_expired(a.0.slots, now), ..a.0 };
    lemma_keeps_rest(a.0.slots, x.slots, Some(key), until);
    assert(b.0.slots == x.slots && b.1 == a.1);
    let s = before_quoting(b.0, cfg, maker, now, b.2, f.quote, b.1)->0;
    assert(s.0.slots == b.0.slots);
    let priced = fair_set(b.0, b.2.norm, b.2.sampled, f.quote.figures)->0;
    assert(grew_well(b.1, b.1, cfg, None));
    lemma_advanced_asks(
        priced.lots,
        0,
        Seq::empty(),
        priced.last_fair,
        f.quote.losses,
        f.quote.max_loss,
        now,
        b.1,
        b.1,
        cfg,
        None,
    );
    assert(only_notes(b.1, s.1));
    lemma_nothing_placed(out, b.1, cfg.id@, key);
    lemma_nothing_placed(b.1, s.1, cfg.id@, key);
    law_wanted_order_is_placed_once(
        s.0,
        cfg,
        maker,
        now,
        f.quote.requote,
        f.quote.gaps,
        s.1,
        key,
    );
    match quoted(s.0, cfg, maker, now, f.quote.requote, f.quote.gaps, s.1) {
        None => {},
        Some(n) => {
            lemma_push_placements(
                n.1,
                ActionV::SetTimer {
                    id: crate::types::ids::TimerId(2),
                    at: now.later(crate::strategy::machine::EXIT_SCAN_MS as int),
                },
                cfg.id@,
                key,
            );
        },
    }
}

/// A placement that is refused leaves its slot empty; whatever events come before the back-off is over,
/// none places an order for it; and the first one later after which an order should stand there places
/// one.
pub proof fn law_refused_place_comes_back(
    st: StateV,
    cfg: StrategyConfig,
    maker: Instrument,
    refusal: (Ts, Event, Doubles),
    evs: Seq<(Ts, Event, Doubles)>,
    last: (Ts, Event, Doubles),
    key: SlotKey,
    out: Seq<ActionV>,
)
    requires
        st.wf(),
        refusal.0.0 + REJECT_BACKOFF_MS * 1_000_000 <= i64::MAX,
        refusal.1 matches Event::ReqOutcome { coid, result, .. } && result == ReqResult::Rejected
            && slot_of_order(st.slots, coid@) == Some(key),
        slot_at(st.slots, key).state == SlotStateKind::PendingNew,
        forall|i: int|
            0 <= i < evs.len() ==> (#[trigger] evs[i]).0.0 < refusal.0.0 + REJECT_BACKOFF_MS
                * 1_000_000,
        last.0.0 >= refusal.0.0 + REJECT_BACKOFF_MS * 1_000_000,
    ensures
        stepped(st, cfg, maker, refusal.0, refusal.1, refusal.2, out) matches Some(first) ==> {
            &&& slot_at(first.0.slots, key).state == SlotStateKind::Empty
            &&& ran(first.0, cfg, maker, evs, first.1) matches Some(n) ==> {
                &&& slot_at(n.0.slots, key).state == SlotStateKind::Empty
                &&& placements(n.1, cfg.id@, key).len() == placements(out, cfg.id@, key).len()
                &&& comes_to_want(n.0, cfg, maker, last.0, last.1, last.2, n.1, key) ==> (stepped(
                    n.0,
                    cfg,
                    maker,
                    last.0,
                    last.1,
                    last.2,
                    n.1,
                ) matches Some(m) ==> placements(m.1, cfg.id@, key).len() == placements(
                    n.1,
                    cfg.id@,
                    key,
                ).len() + 1)
            }
        },
{
    let until = refusal.0.later(REJECT_BACKOFF_MS as int);
    law_refused_place_backs_off(st, cfg, maker, refusal.0, refusal.1, refusal.2, out, key);
    law_state_stays_sound(st, cfg, maker, refusal.0, refusal.1, refusal.2, out);
    match stepped(st, cfg, maker, refusal.0, refusal.1, refusal.2, out) {
        None => {},
        Some(first) => {
            law_nothing_is_placed_during_back_off(
                first.0,
                cfg,
                maker,
                evs,
                first.1,
                key,
                until,
            );
            match ran(first.0, cfg, maker, evs, first.1) {
                None => {},
                Some(n) => {
                    assert forall|i: int| out.len() <= i < n.1.len() implies well_asked(
                        #[trigger] n.1[i],
                        cfg,
                        Some(key),
                    ) by {
                        if i < first.1.len() {
                            assert(n.1[i] == first.1[i]);
                        }
                    }
                    assert forall|i: int| 0 <= i < out.len() implies #[trigger] n.1[i] == out[i] by {
                        assert(n.1[i] == first.1[i]);
                    }
                    lemma_rest_places_nothing(out, n.1, cfg, key);
                    if comes_to_want(n.0, cfg, maker, last.0, last.1, last.2, n.1, key) {
                        law_rested_slot_is_placed_again(
                            n.0,
                            cfg,
                            maker,
                            last.0,
                            last.1,
                            last.2,
                            n.1,
                            key,
                            until,
                        );
                    }
                },
            }
        },
    }
}

/// The reference price of a started strategy jumped: it moved by more than it may.
pub open spec fn ref_jumped(st: StateV, cfg: StrategyConfig, p: PriceDoubles) -> bool {
    st.started && (st.ref_book matches Some(b) && b.two_sided() && (norm_px(
        b,
        st.fx,
        cfg.market.multiplier,
    ) matches Some(norm) && (st.last_ref_mid matches Some(prev) && crate::config::positive(prev.0)
        && jumped(prev, norm, p) == Some(true))))
}

/// A jump of the reference price starts a rest.
pub proof fn law_jump_starts_a_rest(st: StateV, cfg: StrategyConfig, now: Ts, p: PriceDoubles)
    requires
        ref_jumped(st, cfg, p),
    ensures
        prices_seen(st, cfg, now, p) matches Some(n) ==> n.0.cooldown_until == Some(
            now.later(JUMP_COOLDOWN_MS as int),
        ),
{
}

/// Nothing but a rest keeps a strategy from quoting as far as its course, its instrument, its links
/// and its requests go.
pub open spec fn fit_to_quote(st: StateV, cfg: StrategyConfig, maker: Instrument) -> bool {
    &&& st.started && st.lifecycle != StrategyMode::Stopped && !st.flatten_requested
    &&& maker.status == InstrumentStatus::Trading
    &&& missing_link(st.links, cfg.mode) is None
    &&& count_state(st.slots, SlotStateKind::Unknown) == 0
}

/// Of the actions that were added one takes all orders back, and no other asks the venue for
/// anything.
pub open spec fn only_takes_back(
    before: Seq<ActionV>,
    now: Seq<ActionV>,
    cfg: StrategyConfig,
) -> bool {
    &&& before.len() + 3 <= now.len()
    &&& forall|i: int| 0 <= i < before.len() ==> #[trigger] now[i] == before[i]
    &&& now[now.len() - 3] == cancel_everything(cfg)
    &&& forall|i: int|
        before.len() <= i < now.len() && i != now.len() - 3 ==> ((#[trigger] now[i]) is Emit
            || now[i] is SetTimer)
}

/// A strategy that rests after a jump takes all orders back by one request, asks the venue for
/// nothing else, and may quote neither side.
pub proof fn law_resting_takes_all_orders_back(
    st: StateV,
    cfg: StrategyConfig,
    maker: Instrument,
    now: Ts,
    step: Step,
    q: QuoteDoubles,
    out: Seq<ActionV>,
)
    requires
        step.proceed,
        fit_to_quote(st, cfg, maker),
        st.cooldown_until matches Some(until) && now.0 < until.0,
    ensures
        finished(st, cfg, maker, now, step, q, out) matches Some(n) ==> {
            &&& only_takes_back(out, n.1, cfg)
            &&& n.0.slots == all_withdrawn(st.slots, now)
            &&& n.0.cooldown_until == st.cooldown_until
            &&& !n.0.permission.allow_new_buy && !n.0.permission.allow_new_sell
            &&& n.0.permission.reason == Some("jump_cooldown"@)
        },
{
    match fair_set(st, step.norm, step.sampled, q.figures) {
        None => {},
        Some(priced) => {
            let empty = Seq::<Lot>::empty();
            assert(grew_well(out, out, cfg, None));
            lemma_advanced_asks(
                priced.lots,
                0,
                empty,
                priced.last_fair,
                q.losses,
                q.max_loss,
                now,
                out,
                out,
                cfg,
                None,
            );
            match advanced_from(
                priced.lots,
                0,
                empty,
                priced.last_fair,
                q.losses,
                q.max_loss,
                now,
                out,
            ) {
                None => {},
                Some(exits) => {
                    let m = StateV { lots: exits.0, ..priced };
                    match permitted(
                        cfg,
                        m,
                        maker,
                        now,
                        q.figures.gap,
                        q.figures.band,
                        q.most,
                    ) {
                        None => {},
                        Some(permission) => {
                            let s = mode_synced(StateV { permission, ..m });
                            assert(permission.force_cancel_all);
                            assert(resting(s, now));
                        },
                    }
                },
            }
        },
    }
}

/// A book that makes the reference price jump makes the strategy take all its orders back by one
/// request and ask for nothing else; no side may be quoted until the rest is over.
pub proof fn law_jump_takes_all_orders_back(
    st: StateV,
    cfg: StrategyConfig,
    maker: Instrument,
    now: Ts,
    book: crate::types::book::BookUpdate,
    f: Doubles,
    out: Seq<ActionV>,
)
    requires
        now.0 < i64::MAX,
        ({
            let seen = StateV {
                ref_book: Some(book.book),
                slots: all_expired(st.slots, now),
                ..st
            };
            &&& takes_part(seen, Event::RefBook(book))
            &&& fit_to_quote(seen, cfg, maker)
            &&& ref_jumped(seen, cfg, f.price)
        }),
    ensures
        stepped(st, cfg, maker, now, Event::RefBook(book), f, out) matches Some(n) ==> {
            &&& only_takes_back(out, n.1, cfg)
            &&& n.0.slots == all_withdrawn(all_expired(st.slots, now), now)
            &&& n.0.cooldown_until == Some(now.later(JUMP_COOLDOWN_MS as int))
            &&& !n.0.permission.allow_new_buy && !n.0.permission.allow_new_sell
        },
{
    let ev = Event::RefBook(book);
    let seen = StateV { ref_book: Some(book.book), slots: all_expired(st.slots, now), ..st };
    law_jump_starts_a_rest(seen, cfg, now, f.price);
    match begun(st, cfg, now, ev, f.price, out) {
        None => {},
        Some(b) => {
            assert(prices_seen(seen, cfg, now, f.price) matches Some(n) && n.0 == b.0);
            assert(b.1 == out);
            assert(b.0.slots == seen.slots && b.0.links == seen.links);
            assert(fit_to_quote(b.0, cfg, maker));
            law_resting_takes_all_orders_back(b.0, cfg, maker, now, b.2, f.quote, b.1);
        },
    }
}

} // verus!
