//! What goes into an event and what comes of it as a whole.
use crate::config::StrategyConfig;
use crate::strategy::conduct::{
    acts, counts, law_fair_price_follows_the_reference, lemma_applied, lemma_begun, lemma_sound_book,
    lemma_stages, lemma_take, lots_count, sound_book,
};
use crate::strategy::machine::{
    all_expired, all_wanted, before_quoting, begun, event_applied, exits_from, fair_set,
    fill_subtracts, filled_from, goes_in, grid_capped, is_snapshot, prices_read_as, prices_seen,
    quoted, stepped, takes_part, thresholds_read_as, Doubles, PriceDoubles, SpreadMath,
};
use crate::strategy::quote::{grid_from, uncrossed};
use crate::strategy::risk::permitted;
use crate::strategy::slots::{is_after, relative};
use crate::strategy::state::StateV;
use crate::types::action::ActionV;
use crate::types::decimal::{
    dec_int, decimal_difference, decimal_quotient, decimal_sum, law_order_is_by_worth, lemma_sign,
    reads_as, Decimal,
};
use crate::types::event::Event;
use crate::types::ids::{Side, StrategyMode, TimerId};
use crate::types::instrument::Instrument;
use crate::types::num::{Px, Qty};
use crate::types::position::{ExitPhase, Lot, PositionSnapshot};
use crate::types::snapshot::StateSnapshot;
use crate::types::time::Ts;
use vstd::prelude::*;

verus! {

/// Whatever is compared with a threshold in an event on which a strategy acts is compared with that of its settings:
/// the move of the reference price with the jump threshold, losses with the largest loss, distances of working orders
/// with the requote threshold, and the spread with its largest deviation, where there is one.
pub proof fn law_thresholds_are_those_of_the_settings<M: SpreadMath>(
    math: M,
    st: StateV,
    cfg: StrategyConfig,
    maker: Instrument,
    now: Ts,
    ev: Event,
    f: Doubles,
    out: Seq<ActionV>,
)
    requires
        goes_in(math, st, cfg, maker, now, ev, f, out),
        stepped(st, cfg, maker, now, ev, f, out) is Some,
        acts(st, ev),
    ensures
        reads_as(cfg.exit.max_loss, f.quote.max_loss),
        reads_as(cfg.pricing.requote_threshold, f.quote.requote),
        cfg.risk.max_abs_spread_dev matches Some(most) ==> reads_as(most, f.quote.most),
        ({
            let n = (stepped(st, cfg, maker, now, ev, f, out)->0).0;
            (n.ref_book matches Some(b) && sound_book(b)) ==> {
                &&& (st.last_ref_mid matches Some(prev) && prev.0.mantissa > 0) ==> (relative(
                    n.last_ref_mid->0,
                    st.last_ref_mid->0,
                    st.last_ref_mid->0,
                    true,
                ) matches Some(q) ==> reads_as(q, f.price.moved) && reads_as(
                    cfg.pricing.jump_threshold,
                    f.price.limit,
                ))
                &&& (n.maker_book matches Some(m) && sound_book(m)) && (n.last_ref_mid->0).0.mantissa > 0
                    ==> (decimal_sum((n.maker_book->0).bid_px.0, (n.maker_book->0).ask_px.0) matches Some(
                    both,
                ) && (decimal_quotient(both, dec_int(2)) matches Some(mid) && (relative(
                    Px(mid),
                    n.last_ref_mid->0,
                    n.last_ref_mid->0,
                    false,
                ) matches Some(q) && reads_as(q, f.price.spread))))
            }
        }),
{
    law_fair_price_follows_the_reference(st, cfg, maker, now, ev, f, out);
    lemma_begun(st, cfg, now, ev, f.price, out);
    lemma_stages(st, cfg, maker, now, ev, f, out);
    lemma_applied(st, cfg, now, ev, out);
    lemma_goes_in(math, st, cfg, maker, now, ev, f, out);
    let n = (stepped(st, cfg, maker, now, ev, f, out)->0).0;
    let a = event_applied(st, cfg, now, ev, out)->0;
    let x = StateV { slots: all_expired(a.0.slots, now), ..a.0 };
    let b = begun(st, cfg, now, ev, f.price, out)->0;
    if let Some(k) = n.ref_book {
        lemma_sound_book(k);
        if sound_book(k) {
            assert(b.0.ref_book == n.ref_book && b.0.maker_book == n.maker_book);
            assert(b.2.norm is Some);
            lemma_prices_read(x, cfg, now, f.price);
            assert(n.last_ref_mid == b.2.norm);
            assert(x.last_ref_mid == st.last_ref_mid && x.maker_book == n.maker_book);
        }
    }
}

proof fn lemma_goes_in<M: SpreadMath>(
    math: M,
    st: StateV,
    cfg: StrategyConfig,
    maker: Instrument,
    now: Ts,
    ev: Event,
    f: Doubles,
    out: Seq<ActionV>,
)
    requires
        goes_in(math, st, cfg, maker, now, ev, f, out),
        begun(st, cfg, now, ev, f.price, out) is Some,
        event_applied(st, cfg, now, ev, out) is Some,
        takes_part((event_applied(st, cfg, now, ev, out)->0).0, ev),
    ensures
        thresholds_read_as(cfg, f.quote),
        ({
            let a = event_applied(st, cfg, now, ev, out)->0;
            let x = StateV { slots: all_expired(a.0.slots, now), ..a.0 };
            let b = begun(st, cfg, now, ev, f.price, out)->0;
            &&& prices_read_as(x, cfg, f.price)
            &&& prices_seen(x, cfg, now, f.price) == Some((b.0, b.2.norm, b.2.sampled))
        }),
{
}

/// What the prices of a state are read as.
proof fn lemma_prices_read(x: StateV, cfg: StrategyConfig, now: Ts, p: PriceDoubles)
    requires
        prices_read_as(x, cfg, p),
        prices_seen(x, cfg, now, p) is Some,
        (prices_seen(x, cfg, now, p)->0).1 is Some,
    ensures
        ({
            let norm = (prices_seen(x, cfg, now, p)->0).1->0;
            &&& (x.last_ref_mid matches Some(prev) && prev.0.mantissa > 0) ==> (relative(
                norm,
                x.last_ref_mid->0,
                x.last_ref_mid->0,
                true,
            ) matches Some(q) ==> reads_as(q, p.moved) && reads_as(
                cfg.pricing.jump_threshold,
                p.limit,
            ))
            &&& (x.maker_book matches Some(m) && sound_book(m)) && norm.0.mantissa > 0 ==> (decimal_sum(
                (x.maker_book->0).bid_px.0,
                (x.maker_book->0).ask_px.0,
            ) matches Some(both) && (decimal_quotient(both, dec_int(2)) matches Some(mid) && (relative(
                Px(mid),
                norm,
                norm,
                false,
            ) matches Some(q) && reads_as(q, p.spread))))
        }),
{
    let norm = (prices_seen(x, cfg, now, p)->0).1->0;
    if let Some(b) = x.maker_book {
        lemma_sound_book(b);
    }
    if let Some(prev) = x.last_ref_mid {
        lemma_sign(prev.0);
    }
    lemma_sign(norm.0);
}

/// The window takes one look at the spread in an event on which a strategy acts with two sound books and a positive
/// reference price, and none otherwise.
pub proof fn law_spread_is_looked_at_once(
    st: StateV,
    cfg: StrategyConfig,
    maker: Instrument,
    now: Ts,
    ev: Event,
    f: Doubles,
    out: Seq<ActionV>,
)
    requires
        stepped(st, cfg, maker, now, ev, f, out) is Some,
    ensures
        ({
            let n = (stepped(st, cfg, maker, now, ev, f, out)->0).0;
            let looks = acts(st, ev) && (n.ref_book matches Some(b) && sound_book(b)) && (
            n.maker_book matches Some(m) && sound_book(m)) && (n.last_ref_mid->0).0.mantissa > 0;
            n.window == (if looks {
                st.window.pushed(now, f.price.spread)
            } else {
                st.window
            })
        }),
{
    law_fair_price_follows_the_reference(st, cfg, maker, now, ev, f, out);
    lemma_begun(st, cfg, now, ev, f.price, out);
    lemma_stages(st, cfg, maker, now, ev, f, out);
    let n = (stepped(st, cfg, maker, now, ev, f, out)->0).0;
    if let Some(b) = n.ref_book {
        lemma_sound_book(b);
    }
    if let Some(b) = n.maker_book {
        lemma_sound_book(b);
    }
    if let Some(p) = n.last_ref_mid {
        lemma_sign(p.0);
    }
    lemma_window(st, cfg, now, ev, f, out);
}

proof fn lemma_window(
    st: StateV,
    cfg: StrategyConfig,
    now: Ts,
    ev: Event,
    f: Doubles,
    out: Seq<ActionV>,
)
    ensures
        begun(st, cfg, now, ev, f.price, out) matches Some(b) ==> b.0.window == (if b.2.sampled {
            st.window.pushed(now, f.price.spread)
        } else {
            st.window
        }),
{
    if let Event::Exec(rep) = ev {
        crate::strategy::conduct::lemma_executed_keeps(st, cfg, now, rep@, out);
    }
}

/// What may be quoted after an event on which a strategy acts was worked out in it: from the fair price, the lots and
/// the figures of the event, the distance of the spread against its band and its limit.
pub proof fn law_permission_is_worked_out_afresh(
    st: StateV,
    cfg: StrategyConfig,
    maker: Instrument,
    now: Ts,
    ev: Event,
    f: Doubles,
    out: Seq<ActionV>,
)
    requires
        stepped(st, cfg, maker, now, ev, f, out) is Some,
        acts(st, ev),
    ensures
        ({
            let n = (stepped(st, cfg, maker, now, ev, f, out)->0).0;
            let b = begun(st, cfg, now, ev, f.price, out)->0;
            let seen = StateV {
                slots: b.0.slots,
                next_seq: b.0.next_seq,
                permission: b.0.permission,
                started: b.0.started,
                lifecycle: b.0.lifecycle,
                ..n
            };
            permitted(
                cfg,
                seen,
                maker,
                now,
                f.quote.figures.gap,
                f.quote.figures.band,
                f.quote.most,
            ) == Some(n.permission)
        }),
{
    lemma_begun(st, cfg, now, ev, f.price, out);
    lemma_stages(st, cfg, maker, now, ev, f, out);
    let n = (stepped(st, cfg, maker, now, ev, f, out)->0).0;
    let b = begun(st, cfg, now, ev, f.price, out)->0;
    let s = before_quoting(b.0, cfg, maker, now, b.2, f.quote, b.1)->0;
    crate::strategy::conduct::law_quoting_changes_only_slots(
        s.0,
        cfg,
        maker,
        now,
        f.quote.requote,
        f.quote.gaps,
        s.1,
    );
    let priced = fair_set(b.0, b.2.norm, b.2.sampled, f.quote.figures)->0;
    let seen = StateV {
        slots: b.0.slots,
        next_seq: b.0.next_seq,
        permission: b.0.permission,
        started: b.0.started,
        lifecycle: b.0.lifecycle,
        ..n
    };
    assert(seen =~= (StateV { lots: n.lots, ..priced }));
}

/// An event on which a strategy acts ends with a look at exits being set for a quarter of a second later.
pub proof fn law_exits_are_looked_at_again(
    st: StateV,
    cfg: StrategyConfig,
    maker: Instrument,
    now: Ts,
    ev: Event,
    f: Doubles,
    out: Seq<ActionV>,
)
    requires
        stepped(st, cfg, maker, now, ev, f, out) is Some,
        acts(st, ev),
    ensures
        ({
            let a = (stepped(st, cfg, maker, now, ev, f, out)->0).1;
            a.len() > 0 && (a.last() matches ActionV::SetTimer { id, at } && id == TimerId(2)
                && is_after(at, now, 250))
        }),
{
    lemma_begun(st, cfg, now, ev, f.price, out);
    let b = begun(st, cfg, now, ev, f.price, out)->0;
    let s = before_quoting(b.0, cfg, maker, now, b.2, f.quote, b.1)->0;
    assert(quoted(s.0, cfg, maker, now, f.quote.requote, f.quote.gaps, s.1) is Some);
}

/// As long as a strategy does not leave, knows a fair price and may quote a side, it wants the grid round that price,
/// capped by its limits, beside the orders that let its lots leave, without those that would cross.
pub proof fn law_grid_is_wanted_while_quoting(
    st: StateV,
    cfg: StrategyConfig,
    maker: Instrument,
    fair: Px,
)
    requires
        all_wanted(st, cfg, maker) is Some,
        !st.flatten_requested,
        st.last_fair == Some(fair),
        st.permission.allow_new_buy || st.permission.allow_new_sell,
    ensures
        grid_from(
            fair,
            cfg.pricing.grid@,
            0,
            maker,
            st.permission.allow_new_buy,
            st.permission.allow_new_sell,
            st.maker_book,
            Seq::empty(),
        ) matches Some(g) && (grid_capped(st, cfg, maker, g) matches Some(kept) && (exits_from(
            st.lots,
            0,
            cfg,
            maker,
            st.maker_book,
            Seq::empty(),
        ) matches Some(exits) && all_wanted(st, cfg, maker) == Some(uncrossed(exits + kept)))),
{
}

/// Lots leave in the order in which they came: an exit touches a lot only once every lot before it that it could
/// close holds nothing any more.
pub proof fn law_oldest_lots_leave_first(
    lots: Seq<Lot>,
    n: int,
    exit_side: Side,
    left: Decimal,
    s: u32,
    i: int,
    j: int,
)
    requires
        0 <= n <= i < j < lots.len(),
        lots_count(lots, s),
        counts(left, s),
        fill_subtracts(lots, n, exit_side, left),
        filled_from(lots, n, exit_side, left) is Some,
        lots[i].side != exit_side,
        (filled_from(lots, n, exit_side, left)->0)[j] != lots[j],
    ensures
        (filled_from(lots, n, exit_side, left)->0)[i].remaining.0.mantissa == 0,
    decreases lots.len() - n,
{
    let lot = lots[n];
    let rem = lot.remaining.0;
    law_order_is_by_worth(rem, left);
    law_order_is_by_worth(left, rem);
    lemma_sign(rem);
    lemma_sign(left);
    if lot.side.other() != exit_side || rem.zero_valued() {
        if n == i {
            crate::strategy::laws::lemma_untouched_before(lots, n + 1, exit_side, left, n);
        } else {
            law_oldest_lots_leave_first(lots, n + 1, exit_side, left, s, i, j);
        }
    } else {
        let take = rem.smaller(left);
        lemma_take(rem, take, s);
        lemma_take(left, take, s);
        let rest = decimal_difference(rem, take)->0;
        let over = decimal_difference(left, take)->0;
        law_order_is_by_worth(rest, over);
        law_order_is_by_worth(over, rest);
        lemma_sign(over);
        let x = Lot {
            remaining: Qty(rest),
            phase: if rest.zero_valued() {
                ExitPhase::Closed
            } else {
                lot.phase
            },
            ..lot
        };
        let next = lots.update(n, x);
        if crate::config::positive(over) {
            assert(rest.mantissa == 0);
            if n == i {
                crate::strategy::laws::lemma_untouched_before(next, n + 1, exit_side, over, n);
            } else {
                assert(lots_count(next, s)) by {
                    assert forall|k: int| 0 <= k < next.len() implies counts(
                        (#[trigger] next[k]).remaining.0,
                        s,
                    ) && (next[k].phase == ExitPhase::Closed ==> next[k].remaining.0.mantissa == 0) by {
                        if k != n {
                            assert(next[k] == lots[k]);
                        }
                    }
                }
                crate::strategy::conduct::lemma_subtracts_ahead(lots, n, n + 1, x, exit_side, over);
                assert(next[i] == lots[i] && next[j] == lots[j]);
                law_oldest_lots_leave_first(next, n + 1, exit_side, over, s, i, j);
            }
        }
    }
}

/// What a strategy shows of itself is what it knows and how it is set.
pub proof fn law_snapshot_shows_the_state(r: StateSnapshot, cfg: StrategyConfig, st: StateV)
    requires
        is_snapshot(r, cfg, st),
    ensures
        r.strategy_id == cfg.id && r.name == cfg.name && r.run_mode == cfg.mode && r.enabled
            == cfg.enabled,
        r.maker_venue == cfg.market.maker_venue && r.maker_symbol == cfg.market.maker_symbol,
        r.ref_venue == cfg.market.ref_venue && r.ref_symbol == cfg.market.ref_symbol,
        r.lifecycle == st.lifecycle && r.links == st.links && r.permission@ == st.permission,
        r.fair_price == st.last_fair && r.natural_spread == st.last_natural && r.spread_vol
            == st.last_vol && r.spread_t == st.last_spread,
        r.ref_book == st.ref_book && r.maker_book == st.maker_book,
        r.net_qty == st.net_qty && r.lots@ == st.lots,
        r.warmup_samples == st.window.samples.len() && r.warmup_needed == cfg.pricing.min_samples,
        r.slots@.len() == st.slots.len(),
        forall|i: int|
            0 <= i < r.slots@.len() ==> {
                let v = #[trigger] r.slots@[i];
                let s = st.slots[i].1;
                &&& v.key == st.slots[i].0 && v.side == st.slots[i].0.side && v.state == s.state
                &&& s.live matches Some(l) ==> v.px == Some(l.px) && v.qty == Some(l.qty)
                    && v.filled_qty == l.filled_qty && (v.coid matches Some(c) && c@ == l.coid)
                &&& s.live is None ==> v.coid is None && v.px is None && v.qty is None
                &&& s.desired matches Some(d) ==> v.desired_px == Some(d.px) && v.desired_qty == Some(
                    d.qty,
                )
            },
{
}

/// A strategy that has just been made knows nothing, holds nothing, is not started, and may quote nothing.
pub proof fn law_fresh_strategy_knows_nothing(window_ms: u64, bucket_ms: u64, fx: Decimal)
    ensures
        ({
            let s = StateV::fresh(window_ms, bucket_ms, fx);
            &&& !s.started && s.lifecycle == StrategyMode::Init && !s.flatten_requested && s.fx == fx
            &&& s.ref_book is None && s.maker_book is None && s.last_fair is None && s.last_ref_mid is None
            &&& s.last_natural is None && s.cooldown_until is None
            &&& s.slots.len() == 0 && s.lots.len() == 0 && s.net_qty.0.mantissa == 0
                && s.window.samples.len() == 0
            &&& !s.links.ref_md && !s.links.maker_md && !s.links.private && !s.links.trading
            &&& !s.permission.allow_new_buy && !s.permission.allow_new_sell
        }),
{
}

/// A position that the venue reports as it is known changes nothing that the strategy holds; one that differs replaces
/// the lots.
pub proof fn law_agreeing_reports_change_nothing(
    st: StateV,
    cfg: StrategyConfig,
    now: Ts,
    p: PositionSnapshot,
    out: Seq<ActionV>,
)
    ensures
        p.net_qty.0.is_same(st.net_qty.0) ==> event_applied(st, cfg, now, Event::PositionSync(p), out)
            == Some((st, out)),
        !p.net_qty.0.is_same(st.net_qty.0) ==> (event_applied(
            st,
            cfg,
            now,
            Event::PositionSync(p),
            out,
        ) matches Some(n) ==> n.1 == out && n.0.net_qty == p.net_qty && n.0.slots == st.slots),
{
}

} // verus!
