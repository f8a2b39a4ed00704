//! What holds of the strategy whatever happens.
use crate::config::{positive, GridLevel, StrategyConfig};
use crate::strategy::machine::{
    advanced_from, all_expired, all_wanted, answered, begun, capped_from, event_applied,
    executed, exits_from, fair_set, filled_from, finished, fits_room, grid_wanted,
    inventory_filled, jump_checked, leaving_order, leaving_px, mode_synced, norm_px,
    outcome_applied, prices_seen, quoted, resting, spread_sampled, stepped, terms_of, Doubles, GridRoom,
    PriceDoubles, QuoteDoubles,
};
use crate::strategy::quote::{
    all_withdrawn, grid_from, law_reconcile_keeps_state_sound, law_uncrossed, level_orders, moved,
    no_cross, settled, settled_from, stray, swept_from, uncrossed, DesiredSlot, Terms,
};
use crate::strategy::risk::{notional_of, permitted, unit_px, unit_size};
use crate::strategy::rolling::law_push_keeps_window_sound;
use crate::strategy::state::{
    law_slot_put, slot_at, slot_of_order, unique_keys, SlotV, StateV, REJECT_BACKOFF_MS,
};
use crate::types::action::ActionV;
use crate::types::book::TopOfBook;
use crate::types::decimal::{dec_zero, decimal_difference, decimal_sum, Decimal};
use crate::types::event::{ControlCmd, Event};
use crate::types::ids::{Purpose, Side, SlotKey};
use crate::types::instrument::Instrument;
use crate::types::num::{Px, Qty};
use crate::types::order::{DesiredOrder, ExecV, LiveV, ReqResult, SlotStateKind};
use crate::types::position::{ExitPhase, Lot};
use crate::types::time::Ts;
use vstd::prelude::*;

verus! {

/// Slots that change one by one under their keys keep their keys.
proof fn lemma_same_keys(s: Seq<(SlotKey, SlotV)>, t: Seq<(SlotKey, SlotV)>)
    requires
        unique_keys(s),
        s.len() == t.len(),
        forall|i: int| 0 <= i < s.len() ==> (#[trigger] t[i]).0 == s[i].0,
    ensures
        unique_keys(t),
{
    assert forall|i: int, j: int| 0 <= i < j < t.len() implies (#[trigger] t[i]).0 != (
    #[trigger] t[j]).0 by {
        assert(s[i].0 != s[j].0);
    }
}

proof fn lemma_put(st: StateV, k: SlotKey, v: SlotV)
    requires
        st.wf(),
    ensures
        st.put(k, v).wf(),
{
    law_slot_put(st.slots, k, v, k);
}

proof fn lemma_executed(st: StateV, cfg: StrategyConfig, now: Ts, rep: ExecV, out: Seq<ActionV>)
    requires
        st.wf(),
    ensures
        executed(st, cfg, now, rep, out) matches Some(n) ==> n.0.wf(),
{
    match slot_of_order(st.slots, rep.coid) {
        None => {},
        Some(k) => {
            match executed(st, cfg, now, rep, out) {
                None => {},
                Some(n) => {
                    let v = slot_at(n.0.slots, k);
                    let s = slot_at(st.slots, k);
                    match inventory_filled(st, cfg, now, k, rep, out) {
                        Some(m) => {
                            assert(m.0.slots == st.slots && m.0.window == st.window);
                            lemma_put(m.0, k, crate::strategy::machine::slot_filled(s, rep));
                        },
                        None => {},
                    }
                    lemma_put(st, k, crate::strategy::machine::acknowledged(s, rep));
                    lemma_put(st, k, s.refused(now).emptied());
                    lemma_put(st, k, s.refused(now).rolled_back().working());
                    lemma_put(st, k, s.emptied());
                },
            }
        },
    }
}

proof fn lemma_event(st: StateV, cfg: StrategyConfig, now: Ts, ev: Event, out: Seq<ActionV>)
    requires
        st.wf(),
    ensures
        event_applied(st, cfg, now, ev, out) matches Some(n) ==> n.0.wf(),
{
    match ev {
        Event::Exec(rep) => {
            lemma_executed(st, cfg, now, rep@, out);
        },
        Event::ReqOutcome { coid, result, .. } => {
            match slot_of_order(st.slots, coid@) {
                None => {},
                Some(k) => {
                    lemma_put(st, k, answered(slot_at(st.slots, k), now, result));
                },
            }
        },
        Event::Control(_) => {
            lemma_same_keys(st.slots, all_withdrawn(st.slots, now));
        },
        _ => {},
    }
}

proof fn lemma_prices(st: StateV, cfg: StrategyConfig, now: Ts, p: PriceDoubles)
    requires
        st.wf(),
    ensures
        prices_seen(st, cfg, now, p) matches Some(n) ==> n.0.wf(),
{
    match st.ref_book {
        Some(b) => {
            match norm_px(b, st.fx, cfg.market.multiplier) {
                Some(norm) => {
                    match jump_checked(st, now, norm, p) {
                        Some(next) => {
                            match spread_sampled(next, now, norm, p) {
                                Some(n) => {
                                    if n.1 {
                                        law_push_keeps_window_sound(
                                            st.window,
                                            now,
                                            n.0.last_spread->0,
                                        );
                                    }
                                },
                                None => {},
                            }
                        },
                        None => {},
                    }
                },
                None => {},
            }
        },
        None => {},
    }
}

/// Whatever event comes, no key comes to stand for two slots, and the ordered samples stay the
/// samples of the window.
pub proof fn law_state_stays_sound(
    st: StateV,
    cfg: StrategyConfig,
    maker: Instrument,
    now: Ts,
    ev: Event,
    f: Doubles,
    out: Seq<ActionV>,
)
    requires
        st.wf(),
    ensures
        stepped(st, cfg, maker, now, ev, f, out) matches Some(n) ==> n.0.wf(),
{
    lemma_event(st, cfg, now, ev, out);
    match event_applied(st, cfg, now, ev, out) {
        None => {},
        Some(a) => {
            let x = StateV { slots: all_expired(a.0.slots, now), ..a.0 };
            lemma_same_keys(a.0.slots, x.slots);
            lemma_prices(x, cfg, now, f.price);
            match begun(st, cfg, now, ev, f.price, out) {
                None => {},
                Some(b) => {
                    assert(b.0.wf());
                    lemma_finished(b.0, cfg, maker, now, b.2, f.quote, b.1);
                },
            }
        },
    }
}

proof fn lemma_finished(
    st: StateV,
    cfg: StrategyConfig,
    maker: Instrument,
    now: Ts,
    step: crate::strategy::machine::Step,
    f: QuoteDoubles,
    out: Seq<ActionV>,
)
    requires
        st.wf(),
    ensures
        finished(st, cfg, maker, now, step, f, out) matches Some(n) ==> n.0.wf(),
{
    if step.proceed {
        match fair_set(st, step.norm, step.sampled, f.figures) {
            None => {},
            Some(priced) => {
                match advanced_from(
                    priced.lots,
                    0,
                    Seq::empty(),
                    priced.last_fair,
                    f.losses,
                    f.max_loss,
                    now,
                    out,
                ) {
                    None => {},
                    Some(exits) => {
                        let m = StateV { lots: exits.0, ..priced };
                        match permitted(
                            cfg,
                            m,
                            maker,
                            now,
                            f.figures.gap,
                            f.figures.band,
                            f.most,
                        ) {
                            None => {},
                            Some(permission) => {
                                let s = mode_synced(StateV { permission, ..m });
                                assert(s.slots == st.slots && s.window == st.window);
                                lemma_same_keys(s.slots, all_withdrawn(s.slots, now));
                                if !resting(s, now) {
                                    match all_wanted(s, cfg, maker) {
                                        None => {},
                                        Some(d) => {
                                            let noted = match s.permission.reason {
                                                Some(reason) => exits.1.push(
                                                    ActionV::Emit(
                                                        crate::types::action::TelemetryV::Guard {
                                                            reason,
                                                        },
                                                    ),
                                                ),
                                                None => exits.1,
                                            };
                                            law_reconcile_keeps_state_sound(
                                                s,
                                                noted,
                                                d,
                                                terms_of(s, cfg, now, f.requote),
                                                f.gaps,
                                            );
                                        },
                                    }
                                }
                            },
                        }
                    },
                }
            },
        }
    }
}

/// A refused amendment leaves the order as it was before the amendment was asked for, at work.
pub proof fn law_refused_amend_undoes_the_move(
    s: SlotV,
    l: LiveV,
    o: DesiredOrder,
    t: Terms,
    now: Ts,
)
    requires
        s.live == Some(l),
        t.supports_amend,
    ensures
        ({
            let after = answered(moved(s, l, o, t).0, now, ReqResult::Rejected);
            &&& after.live == Some(l)
            &&& after.state == SlotStateKind::Live
            &&& after.pending_since is None
            &&& after.amend_from is None
        }),
{
}

/// After a refusal a slot is left alone for the whole of the back-off, and no longer.
pub proof fn law_refusal_backs_off(s: SlotV, now: Ts, later: Ts)
    requires
        now.0 + REJECT_BACKOFF_MS * 1_000_000 <= i64::MAX,
    ensures
        s.refused(now).blocked(later) <==> later.0 < now.0 + REJECT_BACKOFF_MS * 1_000_000,
{
}

/// A refused placement leaves nothing behind that could be cancelled.
pub proof fn law_refused_place_leaves_nothing(s: SlotV, now: Ts)
    requires
        s.state == SlotStateKind::PendingNew,
    ensures
        answered(s, now, ReqResult::Rejected).state == SlotStateKind::Empty,
        answered(s, now, ReqResult::Rejected).live is None,
{
}

/// An order may stand: it only reduces, or its side may be quoted.
pub open spec fn may_stand(d: DesiredSlot, buy: bool, sell: bool) -> bool {
    ||| d.order.reduce_only
    ||| d.key.side == Side::Buy && buy
    ||| d.key.side == Side::Sell && sell
}

/// Every order of a list may stand.
pub open spec fn all_may_stand(d: Seq<DesiredSlot>, buy: bool, sell: bool) -> bool {
    forall|i: int| 0 <= i < d.len() ==> may_stand(#[trigger] d[i], buy, sell)
}

proof fn lemma_grid_may_stand(
    fair: Px,
    levels: Seq<GridLevel>,
    i: int,
    inst: Instrument,
    buy: bool,
    sell: bool,
    book: Option<TopOfBook>,
    acc: Seq<DesiredSlot>,
)
    requires
        0 <= i <= levels.len(),
        all_may_stand(acc, buy, sell),
    ensures
        grid_from(fair, levels, i, inst, buy, sell, book, acc) matches Some(g) ==> all_may_stand(
            g,
            buy,
            sell,
        ),
    decreases levels.len() - i,
{
    if i < levels.len() {
        match level_orders(fair, levels[i], (i % 256) as u8, inst, buy, sell, book) {
            None => {},
            Some(l) => {
                assert(all_may_stand(l, buy, sell));
                let next = acc + l;
                assert forall|k: int| 0 <= k < next.len() implies may_stand(
                    #[trigger] next[k],
                    buy,
                    sell,
                ) by {
                    if k < acc.len() {
                        assert(next[k] == acc[k]);
                    } else {
                        assert(next[k] == l[k - acc.len()]);
                    }
                }
                lemma_grid_may_stand(fair, levels, i + 1, inst, buy, sell, book, next);
            },
        }
    }
}

proof fn lemma_exits_may_stand(
    lots: Seq<Lot>,
    i: int,
    cfg: StrategyConfig,
    maker: Instrument,
    book: Option<TopOfBook>,
    acc: Seq<DesiredSlot>,
    buy: bool,
    sell: bool,
)
    requires
        0 <= i <= lots.len(),
        all_may_stand(acc, buy, sell),
    ensures
        exits_from(lots, i, cfg, maker, book, acc) matches Some(g) ==> all_may_stand(g, buy, sell),
    decreases lots.len() - i,
{
    if i < lots.len() {
        if lots[i].remaining.0.zero_valued() || lots[i].phase == ExitPhase::Closed {
            lemma_exits_may_stand(lots, i + 1, cfg, maker, book, acc, buy, sell);
        } else {
            match leaving_px(lots[i], cfg, maker, book) {
                None => {},
                Some(px) => {
                    lemma_exits_may_stand(
                        lots,
                        i + 1,
                        cfg,
                        maker,
                        book,
                        acc.push(leaving_order(lots[i], px)),
                        buy,
                        sell,
                    );
                },
            }
        }
    }
}

proof fn lemma_capped_may_stand(
    grid: Seq<DesiredSlot>,
    i: int,
    kept: Seq<DesiredSlot>,
    room: GridRoom,
    px: Decimal,
    size: Decimal,
    cfg: StrategyConfig,
    buy: bool,
    sell: bool,
)
    requires
        0 <= i <= grid.len(),
        all_may_stand(grid, buy, sell),
        all_may_stand(kept, buy, sell),
    ensures
        capped_from(grid, i, kept, room, px, size, cfg) matches Some(g) ==> all_may_stand(
            g,
            buy,
            sell,
        ),
    decreases grid.len() - i,
{
    if i < grid.len() {
        let d = grid[i];
        if d.key.purpose != Purpose::GridEntry {
            lemma_capped_may_stand(grid, i + 1, kept.push(d), room, px, size, cfg, buy, sell);
        } else {
            match notional_of(d.order.qty.0, px, size) {
                None => {},
                Some(add) => {
                    let verdict = match d.key.side {
                        Side::Buy => fits_room(
                            room.long,
                            room.held,
                            add,
                            cfg.risk.max_long,
                            cfg.risk.max_position,
                        ),
                        Side::Sell => fits_room(
                            room.short,
                            room.held,
                            add,
                            cfg.risk.max_short,
                            cfg.risk.max_position,
                        ),
                    };
                    match verdict {
                        None => {},
                        Some(None) => {
                            lemma_capped_may_stand(
                                grid,
                                i + 1,
                                kept,
                                room,
                                px,
                                size,
                                cfg,
                                buy,
                                sell,
                            );
                        },
                        Some(Some(next)) => {
                            lemma_capped_may_stand(
                                grid,
                                i + 1,
                                kept.push(d),
                                if d.key.side == Side::Buy {
                                    GridRoom { long: next, ..room }
                                } else {
                                    GridRoom { short: next, ..room }
                                },
                                px,
                                size,
                                cfg,
                                buy,
                                sell,
                            );
                        },
                    }
                },
            }
        }
    }
}

/// The orders that should stand do not cross each other, and each of them only reduces or is on a
/// side that may be quoted.
pub proof fn law_wanted_orders_may_stand(st: StateV, cfg: StrategyConfig, maker: Instrument)
    requires
        all_wanted(st, cfg, maker) is Some,
    ensures
        no_cross(all_wanted(st, cfg, maker)->0),
        all_may_stand(
            all_wanted(st, cfg, maker)->0,
            st.permission.allow_new_buy,
            st.permission.allow_new_sell,
        ),
{
    let buy = st.permission.allow_new_buy;
    let sell = st.permission.allow_new_sell;
    lemma_exits_may_stand(st.lots, 0, cfg, maker, st.maker_book, Seq::empty(), buy, sell);
    let exits = exits_from(st.lots, 0, cfg, maker, st.maker_book, Seq::empty())->0;
    let grid = grid_wanted(st, cfg, maker)->0;
    match st.last_fair {
        Some(fair) => {
            lemma_grid_may_stand(
                fair,
                cfg.pricing.grid@,
                0,
                maker,
                buy,
                sell,
                st.maker_book,
                Seq::empty(),
            );
            match grid_from(
                fair,
                cfg.pricing.grid@,
                0,
                maker,
                buy,
                sell,
                st.maker_book,
                Seq::empty(),
            ) {
                Some(g) => {
                    match notional_of(st.net_qty.0, unit_px(st), unit_size(maker)) {
                        Some(held) => {
                            let room = GridRoom {
                                long: if positive(st.net_qty.0) {
                                    held
                                } else {
                                    dec_zero()
                                },
                                short: if st.net_qty.0.is_below(dec_zero()) {
                                    held
                                } else {
                                    dec_zero()
                                },
                                held,
                            };
                            lemma_capped_may_stand(
                                g,
                                0,
                                Seq::empty(),
                                room,
                                unit_px(st),
                                unit_size(maker),
                                cfg,
                                buy,
                                sell,
                            );
                        },
                        None => {},
                    }
                },
                None => {},
            }
        },
        None => {},
    }
    assert(all_may_stand(grid, buy, sell));
    let all = exits + grid;
    assert forall|k: int| 0 <= k < all.len() implies may_stand(#[trigger] all[k], buy, sell) by {
        if k < exits.len() {
            assert(all[k] == exits[k]);
        } else {
            assert(all[k] == grid[k - exits.len()]);
        }
    }
    law_uncrossed(all);
    let left = uncrossed(all);
    assert forall|k: int| 0 <= k < left.len() implies may_stand(#[trigger] left[k], buy, sell) by {
        assert(all.contains(left[k]));
        let j = choose|j: int| 0 <= j < all.len() && all[j] == left[k];
        assert(may_stand(all[j], buy, sell));
    }
}

/// What a side would stand at if all orders of the grid on it filled, on top of what it stands at; `None`
/// where a sum is no decimal.
pub open spec fn side_filled(
    orders: Seq<DesiredSlot>,
    side: Side,
    start: Decimal,
    px: Decimal,
    size: Decimal,
) -> Option<Decimal>
    decreases orders.len(),
{
    if orders.len() == 0 {
        Some(start)
    } else {
        let d = orders.last();
        match side_filled(orders.drop_last(), side, start, px, size) {
            None => None,
            Some(acc) => if d.key.purpose == Purpose::GridEntry && d.key.side == side {
                match notional_of(d.order.qty.0, px, size) {
                    None => None,
                    Some(add) => decimal_sum(acc, add),
                }
            } else {
                Some(acc)
            },
        }
    }
}

/// If all orders of the grid on a side filled, it would stand within its limit; or else the grid has nothing
/// on that side that changes where it stands.
pub open spec fn side_within(
    orders: Seq<DesiredSlot>,
    side: Side,
    start: Decimal,
    limit: Decimal,
    px: Decimal,
    size: Decimal,
) -> bool {
    side_filled(orders, side, start, px, size) matches Some(total) && (total == start
        || total.is_at_most(limit))
}

/// An order of the grid, filled on top of what is held, stays within a limit.
pub open spec fn alone_within(
    d: DesiredSlot,
    held: Decimal,
    limit: Decimal,
    px: Decimal,
    size: Decimal,
) -> bool {
    d.key.purpose == Purpose::GridEntry ==> (notional_of(d.order.qty.0, px, size) matches Some(add) && (
    decimal_sum(held, add) matches Some(total) && total.is_at_most(limit)))
}

/// Each order of the grid, filled on top of what is held, stays within a limit.
pub open spec fn each_within(
    orders: Seq<DesiredSlot>,
    held: Decimal,
    limit: Decimal,
    px: Decimal,
    size: Decimal,
) -> bool {
    forall|k: int|
        0 <= k < orders.len() ==> alone_within(#[trigger] orders[k], held, limit, px, size)
}

proof fn lemma_capped_within(
    grid: Seq<DesiredSlot>,
    i: int,
    kept: Seq<DesiredSlot>,
    start: GridRoom,
    room: GridRoom,
    px: Decimal,
    size: Decimal,
    cfg: StrategyConfig,
)
    requires
        0 <= i <= grid.len(),
        room.held == start.held,
        side_filled(kept, Side::Buy, start.long, px, size) == Some(room.long),
        side_filled(kept, Side::Sell, start.short, px, size) == Some(room.short),
        room.long == start.long || room.long.is_at_most(cfg.risk.max_long),
        room.short == start.short || room.short.is_at_most(cfg.risk.max_short),
        each_within(kept, start.held, cfg.risk.max_position, px, size),
    ensures
        capped_from(grid, i, kept, room, px, size, cfg) matches Some(g) ==> side_within(
            g,
            Side::Buy,
            start.long,
            cfg.risk.max_long,
            px,
            size,
        ) && side_within(g, Side::Sell, start.short, cfg.risk.max_short, px, size) && each_within(
            g,
            start.held,
            cfg.risk.max_position,
            px,
            size,
        ),
    decreases grid.len() - i,
{
    if i < grid.len() {
        let d = grid[i];
        let more = kept.push(d);
        assert(more.drop_last() =~= kept);
        assert(more.last() == d);
        if d.key.purpose != Purpose::GridEntry {
            assert(each_within(more, start.held, cfg.risk.max_position, px, size));
            lemma_capped_within(grid, i + 1, more, start, room, px, size, cfg);
        } else {
            match notional_of(d.order.qty.0, px, size) {
                None => {},
                Some(add) => {
                    let verdict = match d.key.side {
                        Side::Buy => fits_room(
                            room.long,
                            room.held,
                            add,
                            cfg.risk.max_long,
                            cfg.risk.max_position,
                        ),
                        Side::Sell => fits_room(
                            room.short,
                            room.held,
                            add,
                            cfg.risk.max_short,
                            cfg.risk.max_position,
                        ),
                    };
                    match verdict {
                        None => {},
                        Some(None) => {
                            lemma_capped_within(grid, i + 1, kept, start, room, px, size, cfg);
                        },
                        Some(Some(next)) => {
                            let then = if d.key.side == Side::Buy {
                                GridRoom { long: next, ..room }
                            } else {
                                GridRoom { short: next, ..room }
                            };
                            assert(alone_within(d, start.held, cfg.risk.max_position, px, size));
                            assert(each_within(more, start.held, cfg.risk.max_position, px, size));
                            lemma_capped_within(grid, i + 1, more, start, then, px, size, cfg);
                        },
                    }
                },
            }
        }
    }
}

/// The grid stays within the limits, amounts taken at the fair price: each of its orders, filled on top of
/// the position, leaves the whole within its limit, and all of its orders on a side, filled together, leave
/// the side within its own or where it stood.
pub proof fn law_grid_stays_within_limits(st: StateV, cfg: StrategyConfig, maker: Instrument)
    requires
        grid_wanted(st, cfg, maker) is Some,
        notional_of(st.net_qty.0, unit_px(st), unit_size(maker)) is Some,
    ensures
        ({
            let grid = grid_wanted(st, cfg, maker)->0;
            let px = unit_px(st);
            let size = unit_size(maker);
            let held = notional_of(st.net_qty.0, px, size)->0;
            let long = if positive(st.net_qty.0) {
                held
            } else {
                dec_zero()
            };
            let short = if st.net_qty.0.is_below(dec_zero()) {
                held
            } else {
                dec_zero()
            };
            &&& side_within(grid, Side::Buy, long, cfg.risk.max_long, px, size)
            &&& side_within(grid, Side::Sell, short, cfg.risk.max_short, px, size)
            &&& each_within(grid, held, cfg.risk.max_position, px, size)
        }),
{
    let px = unit_px(st);
    let size = unit_size(maker);
    let held = notional_of(st.net_qty.0, px, size)->0;
    let room = GridRoom {
        long: if positive(st.net_qty.0) {
            held
        } else {
            dec_zero()
        },
        short: if st.net_qty.0.is_below(dec_zero()) {
            held
        } else {
            dec_zero()
        },
        held,
    };
    match st.last_fair {
        Some(fair) => match grid_from(
            fair,
            cfg.pricing.grid@,
            0,
            maker,
            st.permission.allow_new_buy,
            st.permission.allow_new_sell,
            st.maker_book,
            Seq::empty(),
        ) {
            Some(g) => {
                lemma_capped_within(g, 0, Seq::empty(), room, room, px, size, cfg);
            },
            None => {},
        },
        None => {},
    }
}

/// An action places nothing that may not stand.
pub open spec fn places_well(a: ActionV, buy: bool, sell: bool) -> bool {
    a matches ActionV::Place(p) ==> p.reduce_only || (p.side == Side::Buy && buy) || (p.side
        == Side::Sell && sell)
}

/// `now` is `before` and more actions, none of which places what may not stand.
pub open spec fn only_places_well(
    before: Seq<ActionV>,
    now: Seq<ActionV>,
    buy: bool,
    sell: bool,
) -> bool {
    &&& before.len() <= now.len()
    &&& forall|i: int| 0 <= i < before.len() ==> #[trigger] now[i] == before[i]
    &&& forall|i: int|
        before.len() <= i < now.len() ==> places_well(#[trigger] now[i], buy, sell)
}

proof fn lemma_settled_places(
    st: StateV,
    start: Seq<ActionV>,
    out: Seq<ActionV>,
    desired: Seq<DesiredSlot>,
    i: int,
    t: Terms,
    gaps: Seq<Option<u64>>,
    buy: bool,
    sell: bool,
)
    requires
        0 <= i <= desired.len(),
        all_may_stand(desired, buy, sell),
        only_places_well(start, out, buy, sell),
    ensures
        settled_from(st, out, desired, i, t, gaps) matches Some(n) ==> only_places_well(
            start,
            n.1,
            buy,
            sell,
        ),
    decreases desired.len() - i,
{
    if i < desired.len() {
        assert(may_stand(desired[i], buy, sell));
        match settled(st, out, desired[i], t, gaps[i]) {
            None => {},
            Some(n) => {
                assert(only_places_well(start, n.1, buy, sell));
                lemma_settled_places(n.0, start, n.1, desired, i + 1, t, gaps, buy, sell);
            },
        }
    }
}

proof fn lemma_swept_places(
    slots: Seq<(SlotKey, SlotV)>,
    start: Seq<ActionV>,
    out: Seq<ActionV>,
    desired: Seq<DesiredSlot>,
    i: int,
    t: Terms,
    buy: bool,
    sell: bool,
)
    requires
        0 <= i <= slots.len(),
        only_places_well(start, out, buy, sell),
    ensures
        only_places_well(start, swept_from(slots, out, desired, i, t).1, buy, sell),
    decreases slots.len() - i,
{
    if i < slots.len() {
        if stray(slots[i], desired) {
            let next = out.push(
                ActionV::Cancel {
                    coid: slots[i].1.live->0.coid,
                    venue: t.venue,
                    symbol: t.symbol,
                },
            );
            assert(only_places_well(start, next, buy, sell));
            lemma_swept_places(
                slots.update(i, (slots[i].0, slots[i].1.withdrawn(t.now))),
                start,
                next,
                desired,
                i + 1,
                t,
                buy,
                sell,
            );
        } else {
            lemma_swept_places(slots, start, out, desired, i + 1, t, buy, sell);
        }
    }
}

/// Quoting only adds to the list of actions, and places an order that may open a position only
/// where its side may be quoted.
pub proof fn law_quotes_respect_permission(
    st: StateV,
    cfg: StrategyConfig,
    maker: Instrument,
    now: Ts,
    requote: u64,
    gaps: Seq<Option<u64>>,
    out: Seq<ActionV>,
)
    requires
        quoted(st, cfg, maker, now, requote, gaps, out) is Some,
    ensures
        only_places_well(
            out,
            (quoted(st, cfg, maker, now, requote, gaps, out)->0).1,
            st.permission.allow_new_buy,
            st.permission.allow_new_sell,
        ),
{
    let buy = st.permission.allow_new_buy;
    let sell = st.permission.allow_new_sell;
    if !resting(st, now) {
        law_wanted_orders_may_stand(st, cfg, maker);
        let desired = all_wanted(st, cfg, maker)->0;
        let t = terms_of(st, cfg, now, requote);
        let noted = match st.permission.reason {
            Some(reason) => out.push(
                ActionV::Emit(crate::types::action::TelemetryV::Guard { reason }),
            ),
            None => out,
        };
        assert(only_places_well(out, noted, buy, sell));
        lemma_settled_places(st, out, noted, desired, 0, t, gaps, buy, sell);
        let n = settled_from(st, noted, desired, 0, t, gaps)->0;
        lemma_swept_places(n.0.slots, out, n.1, desired, 0, t, buy, sell);
    }
}

/// A strategy that is flattening wants no order of the grid.
pub proof fn law_flattening_wants_no_grid(st: StateV, cfg: StrategyConfig, maker: Instrument)
    requires
        st.flatten_requested,
    ensures
        grid_wanted(st, cfg, maker) == Some(Seq::<DesiredSlot>::empty()),
{
}

/// An answer or a report about an order that no slot holds changes nothing.
pub proof fn law_foreign_orders_change_nothing(
    st: StateV,
    cfg: StrategyConfig,
    now: Ts,
    rep: ExecV,
    result: ReqResult,
    out: Seq<ActionV>,
)
    requires
        slot_of_order(st.slots, rep.coid) is None,
    ensures
        executed(st, cfg, now, rep, out) == Some((st, out)),
        outcome_applied(st, now, rep.coid, result) == st,
{
}

/// A fill changes only what remains of lots on the side that it exits, and their phase where
/// nothing remains: every other lot, and everything else about these, stays as it was.
pub proof fn law_fill_touches_only_its_side(lots: Seq<Lot>, i: int, exit_side: Side, left: Decimal)
    requires
        0 <= i <= lots.len(),
        filled_from(lots, i, exit_side, left) is Some,
    ensures
        ({
            let r = filled_from(lots, i, exit_side, left)->0;
            &&& r.len() == lots.len()
            &&& forall|j: int|
                0 <= j < lots.len() ==> {
                    let a = #[trigger] lots[j];
                    let b = r[j];
                    &&& a.side.other() != exit_side ==> b == a
                    &&& b == (Lot { remaining: b.remaining, phase: b.phase, ..a })
                    &&& b.phase == a.phase || (b.phase == ExitPhase::Closed
                        && b.remaining.0.zero_valued())
                }
        }),
    decreases lots.len() - i,
{
    if i < lots.len() {
        let lot = lots[i];
        if lot.side.other() != exit_side || lot.remaining.0.zero_valued() {
            law_fill_touches_only_its_side(lots, i + 1, exit_side, left);
        } else {
            let take = lot.remaining.0.smaller(left);
            match (decimal_difference(lot.remaining.0, take), decimal_difference(left, take)) {
                (Some(rest), Some(over)) => {
                    let next = lots.update(
                        i,
                        Lot {
                            remaining: Qty(rest),
                            phase: if rest.zero_valued() {
                                ExitPhase::Closed
                            } else {
                                lot.phase
                            },
                            ..lot
                        },
                    );
                    if positive(over) {
                        law_fill_touches_only_its_side(next, i + 1, exit_side, over);
                        let r = filled_from(next, i + 1, exit_side, over)->0;
                        assert forall|j: int| 0 <= j < lots.len() implies ({
                            let a = #[trigger] lots[j];
                            let b = r[j];
                            &&& a.side.other() != exit_side ==> b == a
                            &&& b == (Lot { remaining: b.remaining, phase: b.phase, ..a })
                            &&& b.phase == a.phase || (b.phase == ExitPhase::Closed
                                && b.remaining.0.zero_valued())
                        }) by {
                            let m = next[j];
                            if j != i {
                                assert(m == lots[j]);
                            } else {
                                lemma_untouched_before(next, i + 1, exit_side, over, i);
                            }
                        }
                    }
                },
                _ => {},
            }
        }
    }
}

pub proof fn lemma_untouched_before(lots: Seq<Lot>, i: int, exit_side: Side, left: Decimal, j: int)
    requires
        0 <= j < i <= lots.len(),
        filled_from(lots, i, exit_side, left) is Some,
    ensures
        (filled_from(lots, i, exit_side, left)->0)[j] == lots[j],
    decreases lots.len() - i,
{
    if i < lots.len() {
        let lot = lots[i];
        if lot.side.other() != exit_side || lot.remaining.0.zero_valued() {
            lemma_untouched_before(lots, i + 1, exit_side, left, j);
        } else {
            let take = lot.remaining.0.smaller(left);
            match (decimal_difference(lot.remaining.0, take), decimal_difference(left, take)) {
                (Some(rest), Some(over)) => {
                    let next = lots.update(
                        i,
                        Lot {
                            remaining: Qty(rest),
                            phase: if rest.zero_valued() {
                                ExitPhase::Closed
                            } else {
                                lot.phase
                            },
                            ..lot
                        },
                    );
                    if positive(over) {
                        lemma_untouched_before(next, i + 1, exit_side, over, j);
                    }
                },
                _ => {},
            }
        }
    }
}

proof fn lemma_settled_course(
    st: StateV,
    out: Seq<ActionV>,
    desired: Seq<DesiredSlot>,
    i: int,
    t: Terms,
    gaps: Seq<Option<u64>>,
)
    requires
        0 <= i <= desired.len(),
    ensures
        settled_from(st, out, desired, i, t, gaps) matches Some(n) ==> n.0.flatten_requested
            == st.flatten_requested,
    decreases desired.len() - i,
{
    if i < desired.len() {
        match settled(st, out, desired[i], t, gaps[i]) {
            None => {},
            Some(n) => {
                lemma_settled_course(n.0, n.1, desired, i + 1, t, gaps);
            },
        }
    }
}

/// Whether a strategy is on its way out after an event: only the commands to start and to leave decide it.
pub open spec fn on_way_out(st: StateV, ev: Event) -> bool {
    match ev {
        Event::Control(ControlCmd::Start) => false,
        Event::Control(ControlCmd::Flatten) => true,
        _ => st.flatten_requested,
    }
}

/// Only the commands to start and to leave decide whether a strategy is on its way out; whatever else
/// happens, it stays on its way.
pub proof fn law_only_commands_change_course(
    st: StateV,
    cfg: StrategyConfig,
    maker: Instrument,
    now: Ts,
    ev: Event,
    f: Doubles,
    out: Seq<ActionV>,
)
    ensures
        stepped(st, cfg, maker, now, ev, f, out) matches Some(n) ==> n.0.flatten_requested
            == on_way_out(st, ev),
{
    match event_applied(st, cfg, now, ev, out) {
        None => {},
        Some(a) => {
            assert(a.0.flatten_requested == on_way_out(st, ev));
            match begun(st, cfg, now, ev, f.price, out) {
                None => {},
                Some(b) => {
                    assert(b.0.flatten_requested == a.0.flatten_requested);
                    lemma_finished_course(b.0, cfg, maker, now, b.2, f.quote, b.1);
                },
            }
        },
    }
}

proof fn lemma_finished_course(
    st: StateV,
    cfg: StrategyConfig,
    maker: Instrument,
    now: Ts,
    step: crate::strategy::machine::Step,
    f: QuoteDoubles,
    out: Seq<ActionV>,
)
    ensures
        finished(st, cfg, maker, now, step, f, out) matches Some(n) ==> n.0.flatten_requested
            == st.flatten_requested,
{
    if step.proceed {
        match fair_set(st, step.norm, step.sampled, f.figures) {
            None => {},
            Some(priced) => {
                match advanced_from(
                    priced.lots,
                    0,
                    Seq::empty(),
                    priced.last_fair,
                    f.losses,
                    f.max_loss,
                    now,
                    out,
                ) {
                    None => {},
                    Some(exits) => {
                        let m = StateV { lots: exits.0, ..priced };
                        match permitted(
                            cfg,
                            m,
                            maker,
                            now,
                            f.figures.gap,
                            f.figures.band,
                            f.most,
                        ) {
                            None => {},
                            Some(permission) => {
                                let s = mode_synced(StateV { permission, ..m });
                                assert(s.flatten_requested == st.flatten_requested);
                                lemma_quoted_course(s, cfg, maker, now, f.requote, f.gaps, exits.1);
                            },
                        }
                    },
                }
            },
        }
    }
}

proof fn lemma_quoted_course(
    st: StateV,
    cfg: StrategyConfig,
    maker: Instrument,
    now: Ts,
    requote: u64,
    gaps: Seq<Option<u64>>,
    out: Seq<ActionV>,
)
    ensures
        quoted(st, cfg, maker, now, requote, gaps, out) matches Some(n) ==> n.0.flatten_requested
            == st.flatten_requested,
{
    if !resting(st, now) {
        match all_wanted(st, cfg, maker) {
            None => {},
            Some(d) => {
                let noted = match st.permission.reason {
                    Some(reason) => out.push(
                        ActionV::Emit(crate::types::action::TelemetryV::Guard { reason }),
                    ),
                    None => out,
                };
                lemma_settled_course(st, noted, d, 0, terms_of(st, cfg, now, requote), gaps);
            },
        }
    }
}

} // verus!
