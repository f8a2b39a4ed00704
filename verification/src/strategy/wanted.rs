//! Which orders a strategy wants, and why.
use crate::config::{positive, StrategyConfig};
use crate::strategy::conduct::{acts, all_move_on, law_lots_leave_in_time, lemma_begun, lemma_stages};
use crate::strategy::laws::{alone_within, each_within, side_filled};
use crate::strategy::machine::{ all_wanted, begun, capped_from, exits_from, fair_set, fits_room, goes_in,
    grid_capped, grid_wanted, stepped, Doubles, GridRoom, SpreadMath,
};
use crate::strategy::quote::{grid_from, law_uncrossed, uncrossed, DesiredSlot};
use crate::strategy::risk::{law_loss_has_the_sign_of_the_move, notional_of, unit_px, unit_size};
use crate::strategy::state::StateV;
use crate::types::action::ActionV;
use crate::types::decimal::{dec_zero, difference_fits, lemma_sign, reads_as, Decimal};
use crate::types::double::{double_above, double_key};
use crate::types::event::Event;
use crate::types::ids::{Purpose, Side};
use crate::types::instrument::Instrument;
use crate::types::num::Px;
use crate::types::position::{ExitPhase, Lot};
use crate::types::time::Ts;
use vstd::prelude::*;

verus! {

proof fn lemma_capped_part(
    grid: Seq<DesiredSlot>,
    i: int,
    kept: Seq<DesiredSlot>,
    room: GridRoom,
    px: Decimal,
    size: Decimal,
    cfg: StrategyConfig,
)
    requires
        0 <= i <= grid.len(),
        forall|d: DesiredSlot| #[trigger] kept.contains(d) ==> grid.contains(d),
    ensures
        capped_from(grid, i, kept, room, px, size, cfg) matches Some(g) ==> forall|d: DesiredSlot|
            #[trigger] g.contains(d) ==> grid.contains(d),
    decreases grid.len() - i,
{
    if i < grid.len() {
        let d = grid[i];
        let more = kept.push(d);
        assert forall|x: DesiredSlot| #[trigger] more.contains(x) implies grid.contains(x) by {
            let j = choose|j: int| 0 <= j < more.len() && more[j] == x;
            if j < kept.len() {
                assert(kept[j] == x);
                assert(kept.contains(x));
            } else {
                assert(grid[i] == x);
            }
        }
        if d.key.purpose != Purpose::GridEntry {
            lemma_capped_part(grid, i + 1, more, room, px, size, cfg);
        } else {
            match notional_of(d.order.qty.0, px, size) {
                None => {},
                Some(add) => {
                    let verdict = match d.key.side {
                        Side::Buy => fits_room(
                            room.long,
                            room.held,
                            add,
                            cfg.risk.max_long,
                            cfg.risk.max_position,
                        ),
                        Side::Sell => fits_room(
                            room.short,
                            room.held,
                            add,
                            cfg.risk.max_short,
                            cfg.risk.max_position,
                        ),
                    };
                    match verdict {
                        None => {},
                        Some(None) => {
                            lemma_capped_part(grid, i + 1, kept, room, px, size, cfg);
                        },
                        Some(Some(next)) => {
                            let then = if d.key.side == Side::Buy {
                                GridRoom { long: next, ..room }
                            } else {
                                GridRoom { short: next, ..room }
                            };
                            lemma_capped_part(grid, i + 1, more, then, px, size, cfg);
                        },
                    }
                },
            }
        }
    }
}

/// Every order that a strategy wants lets one of its lots leave, or is one of the grid's levels round its fair
/// price, against the maker's book, on the sides that may be quoted; the grid has no part in it while the strategy
/// leaves or knows no fair price.
pub proof fn law_wanted_orders_have_a_reason(
    st: StateV,
    cfg: StrategyConfig,
    maker: Instrument,
    d: DesiredSlot,
)
    requires
        all_wanted(st, cfg, maker) is Some,
        (all_wanted(st, cfg, maker)->0).contains(d),
    ensures
        (exits_from(st.lots, 0, cfg, maker, st.maker_book, Seq::empty()) matches Some(e) && e.contains(
            d,
        )) || (!st.flatten_requested && (st.last_fair matches Some(fair) && (grid_from(
            fair,
            cfg.pricing.grid@,
            0,
            maker,
            st.permission.allow_new_buy,
            st.permission.allow_new_sell,
            st.maker_book,
            Seq::empty(),
        ) matches Some(g) && g.contains(d)))),
{
    let exits = exits_from(st.lots, 0, cfg, maker, st.maker_book, Seq::empty())->0;
    let grid = grid_wanted(st, cfg, maker)->0;
    let all = exits + grid;
    let left = uncrossed(all);
    law_uncrossed(all);
    let j = choose|j: int| 0 <= j < left.len() && left[j] == d;
    assert(all.contains(left[j]));
    let k = choose|k: int| 0 <= k < all.len() && all[k] == d;
    if k < exits.len() {
        assert(exits[k] == d);
    } else {
        assert(grid[k - exits.len()] == d);
        assert(grid.contains(d));
        let fair = st.last_fair->0;
        let g = grid_from(
            fair,
            cfg.pricing.grid@,
            0,
            maker,
            st.permission.allow_new_buy,
            st.permission.allow_new_sell,
            st.maker_book,
            Seq::empty(),
        )->0;
        let held = notional_of(st.net_qty.0, unit_px(st), unit_size(maker))->0;
        let room = GridRoom {
            long: if positive(st.net_qty.0) {
                held
            } else {
                dec_zero()
            },
            short: if st.net_qty.0.is_below(dec_zero()) {
                held
            } else {
                dec_zero()
            },
            held,
        };
        lemma_capped_part(g, 0, Seq::empty(), room, unit_px(st), unit_size(maker), cfg);
    }
}

/// Along the whole grid, order by order, a side stands within its limit.
pub open spec fn always_within(
    grid: Seq<DesiredSlot>,
    side: Side,
    start: Decimal,
    limit: Decimal,
    px: Decimal,
    size: Decimal,
) -> bool {
    forall|n: int|
        0 <= n <= grid.len() ==> (#[trigger] side_filled(grid.take(n), side, start, px, size) matches Some(
            t,
        ) && t.is_at_most(limit))
}

proof fn lemma_capped_whole(
    grid: Seq<DesiredSlot>,
    i: int,
    start: GridRoom,
    room: GridRoom,
    px: Decimal,
    size: Decimal,
    cfg: StrategyConfig,
)
    requires
        0 <= i <= grid.len(),
        room.held == start.held,
        always_within(grid, Side::Buy, start.long, cfg.risk.max_long, px, size),
        always_within(grid, Side::Sell, start.short, cfg.risk.max_short, px, size),
        each_within(grid, start.held, cfg.risk.max_position, px, size),
        side_filled(grid.take(i), Side::Buy, start.long, px, size) == Some(room.long),
        side_filled(grid.take(i), Side::Sell, start.short, px, size) == Some(room.short),
    ensures
        capped_from(grid, i, grid.take(i), room, px, size, cfg) == Some(grid),
    decreases grid.len() - i,
{
    if i < grid.len() {
        let d = grid[i];
        let more = grid.take(i + 1);
        assert(more =~= grid.take(i).push(d));
        assert(more.drop_last() =~= grid.take(i));
        assert(more.last() == d);
        assert(alone_within(d, start.held, cfg.risk.max_position, px, size));
        assert(side_filled(more, Side::Buy, start.long, px, size) is Some);
        assert(side_filled(more, Side::Sell, start.short, px, size) is Some);
        if d.key.purpose != Purpose::GridEntry {
            lemma_capped_whole(grid, i + 1, start, room, px, size, cfg);
        } else {
            let next = if d.key.side == Side::Buy {
                side_filled(more, Side::Buy, start.long, px, size)->0
            } else {
                side_filled(more, Side::Sell, start.short, px, size)->0
            };
            let then = if d.key.side == Side::Buy {
                GridRoom { long: next, ..room }
            } else {
                GridRoom { short: next, ..room }
            };
            lemma_capped_whole(grid, i + 1, start, then, px, size, cfg);
        }
    } else {
        assert(grid.take(i) =~= grid);
    }
}

/// A grid that stays within the limits, order by order, is kept as it is.
pub proof fn law_grid_within_limits_is_kept(
    st: StateV,
    cfg: StrategyConfig,
    maker: Instrument,
    grid: Seq<DesiredSlot>,
)
    requires
        notional_of(st.net_qty.0, unit_px(st), unit_size(maker)) is Some,
        ({
            let px = unit_px(st);
            let size = unit_size(maker);
            let held = notional_of(st.net_qty.0, px, size)->0;
            let long = if st.net_qty.0.mantissa > 0 {
                held
            } else {
                dec_zero()
            };
            let short = if st.net_qty.0.mantissa < 0 {
                held
            } else {
                dec_zero()
            };
            &&& always_within(grid, Side::Buy, long, cfg.risk.max_long, px, size)
            &&& always_within(grid, Side::Sell, short, cfg.risk.max_short, px, size)
            &&& each_within(grid, held, cfg.risk.max_position, px, size)
        }),
    ensures
        grid_capped(st, cfg, maker, grid) == Some(grid),
{
    lemma_sign(st.net_qty.0);
    let px = unit_px(st);
    let size = unit_size(maker);
    let held = notional_of(st.net_qty.0, px, size)->0;
    let room = GridRoom {
        long: if positive(st.net_qty.0) {
            held
        } else {
            dec_zero()
        },
        short: if st.net_qty.0.is_below(dec_zero()) {
            held
        } else {
            dec_zero()
        },
        held,
    };
    assert(grid.take(0) =~= Seq::<DesiredSlot>::empty());
    lemma_capped_whole(grid, 0, room, room, px, size, cfg);
}

/// The price moved for a lot, or stayed where it was.
pub open spec fn in_profit(lot: Lot, fair: Px) -> bool {
    &&& lot.entry_px.0.mantissa > 0 && difference_fits(lot.entry_px.0, fair.0)
    &&& lot.side == Side::Buy ==> lot.entry_px.0.is_at_most(fair.0)
    &&& lot.side == Side::Sell ==> fair.0.is_at_most(lot.entry_px.0)
}

/// With a limit of losses that is not negative, a lot that makes a profit and has time left does not go to the
/// taker.
pub proof fn law_profit_is_not_taken_out<M: SpreadMath>(
    math: M,
    st: StateV,
    cfg: StrategyConfig,
    maker: Instrument,
    now: Ts,
    ev: Event,
    f: Doubles,
    out: Seq<ActionV>,
    j: int,
)
    requires
        goes_in(math, st, cfg, maker, now, ev, f, out),
        stepped(st, cfg, maker, now, ev, f, out) is Some,
        acts(st, ev),
        cfg.exit.max_loss.mantissa >= 0,
        0 <= j < (stepped(st, cfg, maker, now, ev, f, out)->0).0.lots.len(),
        ({
            let n = (stepped(st, cfg, maker, now, ev, f, out)->0).0;
            &&& n.last_fair matches Some(fair) && in_profit(n.lots[j], fair)
            &&& now.0 < n.lots[j].force_deadline.0
        }),
    ensures
        ({
            let lot = (stepped(st, cfg, maker, now, ev, f, out)->0).0.lots[j];
            lot.phase == ExitPhase::TakerExit ==> exists|i: int|
                #![trigger (begun(st, cfg, now, ev, f.price, out)->0).0.lots[i]]
                0 <= i < (begun(st, cfg, now, ev, f.price, out)->0).0.lots.len() && (begun(
                    st,
                    cfg,
                    now,
                    ev,
                    f.price,
                    out,
                )->0).0.lots[i] == lot
        }),
{
    lemma_begun(st, cfg, now, ev, f.price, out);
    lemma_stages(st, cfg, maker, now, ev, f, out);
    let n = (stepped(st, cfg, maker, now, ev, f, out)->0).0;
    let b = begun(st, cfg, now, ev, f.price, out)->0;
    let priced = fair_set(b.0, b.2.norm, b.2.sampled, f.quote.figures)->0;
    law_lots_leave_in_time(
        priced.lots,
        priced.last_fair,
        f.quote.losses,
        f.quote.max_loss,
        now,
        b.1,
    );
    let at = choose|at: Seq<int>| #[trigger]
        all_move_on(
            priced.lots,
            n.lots,
            at,
            priced.last_fair,
            f.quote.losses,
            f.quote.max_loss,
            now,
        );
    let i = at[j];
    let a = priced.lots[i];
    let lot = n.lots[j];
    assert(lot == (Lot { phase: lot.phase, ..a }));
    let loss = f.quote.losses[i];
    let fair = priced.last_fair->0;
    assert(crate::strategy::risk::loss_reads_as(a.entry_px, fair, a.side, loss));
    if let Some(l) = loss {
        law_loss_has_the_sign_of_the_move(a.entry_px, fair, a.side, l);
        assert(double_key(l) <= 0);
        assert(reads_as(cfg.exit.max_loss, f.quote.max_loss));
        assert(!double_above(l, f.quote.max_loss));
    }
    if lot.phase == ExitPhase::TakerExit {
        assert(a.phase == ExitPhase::TakerExit);
        assert(b.0.lots[i] == lot);
    }
}

} // verus!
