//! Which orders should stand, and how to get from those that stand to those that should.
use crate::config::{positive, GridLevel};
use crate::strategy::state::{
    law_slot_put, slot_at, unique_keys, with_slot, CoreState, Slot, SlotV, StateV,
};
use crate::types::action::{asked, Action, ActionV};
use crate::types::book::TopOfBook;
use crate::types::decimal::{
    adds, dec_one, dec_zero, decimal_abs, decimal_difference, decimal_product, decimal_quotient,
    decimal_sum, law_order_transitive, multiplies, reads_as, subtracts, Decimal,
};
use crate::types::double::{double_above, is_above, MAX_BITS};
use crate::types::ids::{
    make_client_order_id, order_id_text, Purpose, Side, SlotKey, StrategyId, SymbolId, VenueId,
};
use crate::types::instrument::{
    ceiled, ceils_well, exit_px, floored, floors_well, is_ticks, notional_to_qty, round_buy_px,
    round_exit_px, round_qty_down, round_sell_px, size_divides, sized, tick_ceil, tick_floor,
    Instrument,
};
use crate::types::num::{to_px, Px, Qty};
use crate::types::order::{
    DesiredOrder, LiveOrder, LiveV, OrderType, PlaceReq, PlaceV, SlotStateKind, TimeInForce,
};
use crate::types::time::Ts;
use vstd::prelude::*;

verus! {

#[derive(Clone, Copy, Debug)]
pub struct DesiredSlot {
    pub key: SlotKey,
    pub order: DesiredOrder,
}

/// The size of a grid level: its notional at the fair price in whole lots, and the smallest
/// order where that comes to nothing.
pub open spec fn level_qty(fair: Px, lvl: GridLevel, inst: Instrument) -> Option<Decimal> {
    match sized(lvl.size, fair, inst.contract_size) {
        Some(raw) => match tick_floor(raw, inst.lot_size) {
            Some(q) => Some(
                if positive(q) {
                    q
                } else {
                    inst.min_qty.larger(inst.lot_size)
                },
            ),
            None => None,
        },
        None => None,
    }
}

/// The price of a buy level: below the fair price by its distance, and at least one tick below
/// the best ask.
pub open spec fn level_buy_px(
    fair: Px,
    lvl: GridLevel,
    tick: Decimal,
    book: Option<TopOfBook>,
) -> Option<Decimal> {
    match decimal_difference(dec_one(), lvl.distance) {
        None => None,
        Some(f) => match decimal_product(fair.0, f) {
            None => None,
            Some(raw) => match tick_floor(raw, tick) {
                None => None,
                Some(px) => match book {
                    None => Some(px),
                    Some(b) => match decimal_difference(b.ask_px.0, tick) {
                        None => None,
                        Some(cap) => if cap.is_below(px) {
                            tick_floor(cap, tick)
                        } else {
                            Some(px)
                        },
                    },
                },
            },
        },
    }
}

/// The price of a sell level: above the fair price by its distance, and at least one tick above
/// the best bid.
pub open spec fn level_sell_px(
    fair: Px,
    lvl: GridLevel,
    tick: Decimal,
    book: Option<TopOfBook>,
) -> Option<Decimal> {
    match decimal_sum(dec_one(), lvl.distance) {
        None => None,
        Some(f) => match decimal_product(fair.0, f) {
            None => None,
            Some(raw) => match tick_ceil(raw, tick) {
                None => None,
                Some(px) => match book {
                    None => Some(px),
                    Some(b) => match decimal_sum(b.bid_px.0, tick) {
                        None => None,
                        Some(floor) => if px.is_below(floor) {
                            tick_ceil(floor, tick)
                        } else {
                            Some(px)
                        },
                    },
                },
            },
        },
    }
}

/// An order of the grid.
pub open spec fn grid_order(side: Side, index: u8, px: Decimal, qty: Decimal) -> DesiredSlot {
    DesiredSlot {
        key: SlotKey { purpose: Purpose::GridEntry, side, index },
        order: DesiredOrder {
            px: Px(px),
            qty: Qty(qty),
            reduce_only: false,
            tif: TimeInForce::PostOnly,
            order_type: OrderType::Limit,
        },
    }
}

/// The orders of a grid level on one side: one at a positive price, none where the side is not
/// allowed.
pub open spec fn level_side(
    side: Side,
    index: u8,
    px: Option<Decimal>,
    qty: Decimal,
    allowed: bool,
) -> Option<Seq<DesiredSlot>> {
    if !allowed {
        Some(Seq::empty())
    } else {
        match px {
            None => None,
            Some(p) => Some(
                if positive(p) {
                    seq![grid_order(side, index, p, qty)]
                } else {
                    Seq::empty()
                },
            ),
        }
    }
}

/// The orders of one grid level.
pub open spec fn level_orders(
    fair: Px,
    lvl: GridLevel,
    index: u8,
    inst: Instrument,
    allow_buy: bool,
    allow_sell: bool,
    book: Option<TopOfBook>,
) -> Option<Seq<DesiredSlot>> {
    match level_qty(fair, lvl, inst) {
        None => None,
        Some(q) => if !positive(q) {
            Some(Seq::empty())
        } else {
            let buy = level_buy_px(fair, lvl, inst.tick_size, book);
            let sell = level_sell_px(fair, lvl, inst.tick_size, book);
            match level_side(Side::Buy, index, buy, q, allow_buy) {
                None => None,
                Some(b) => match level_side(Side::Sell, index, sell, q, allow_sell) {
                    None => None,
                    Some(s) => Some(b + s),
                },
            }
        },
    }
}

/// `acc` and the orders of the grid levels from `i` on. A level is numbered by the last eight
/// bits of its place.
pub open spec fn grid_from(
    fair: Px,
    levels: Seq<GridLevel>,
    i: int,
    inst: Instrument,
    allow_buy: bool,
    allow_sell: bool,
    book: Option<TopOfBook>,
    acc: Seq<DesiredSlot>,
) -> Option<Seq<DesiredSlot>>
    decreases levels.len() - i,
{
    if !(0 <= i < levels.len()) {
        Some(acc)
    } else {
        match level_orders(fair, levels[i], (i % 256) as u8, inst, allow_buy, allow_sell, book) {
            None => None,
            Some(l) => grid_from(
                fair,
                levels,
                i + 1,
                inst,
                allow_buy,
                allow_sell,
                book,
                acc + l,
            ),
        }
    }
}

/// A price below the fair one by a level's distance.
pub open spec fn buy_mark(fair: Px, lvl: GridLevel) -> Option<Decimal> {
    match decimal_difference(dec_one(), lvl.distance) {
        None => None,
        Some(f) => decimal_product(fair.0, f),
    }
}

/// A price above the fair one by a level's distance.
pub open spec fn sell_mark(fair: Px, lvl: GridLevel) -> Option<Decimal> {
    match decimal_sum(dec_one(), lvl.distance) {
        None => None,
        Some(f) => decimal_product(fair.0, f),
    }
}

/// A price is a whole number of ticks.
pub open spec fn on_tick(px: Decimal, tick: Decimal) -> bool {
    exists|n: int| #[trigger] is_ticks(px, tick, n)
}

/// The figures that a level's buy is priced with can be rounded to ticks.
pub open spec fn buy_rounds_well(fair: Px, lvl: GridLevel, tick: Decimal, book: Option<TopOfBook>)
    -> bool {
    tick.mantissa > 0 ==> {
        &&& buy_mark(fair, lvl) matches Some(raw) ==> floors_well(raw, tick)
        &&& book matches Some(b) ==> (decimal_difference(b.ask_px.0, tick) matches Some(cap)
            ==> floors_well(cap, tick))
    }
}

/// The figures that a level's sell is priced with can be rounded to ticks.
pub open spec fn sell_rounds_well(fair: Px, lvl: GridLevel, tick: Decimal, book: Option<TopOfBook>)
    -> bool {
    tick.mantissa > 0 ==> {
        &&& sell_mark(fair, lvl) matches Some(raw) ==> ceils_well(raw, tick)
        &&& book matches Some(b) ==> (decimal_sum(b.bid_px.0, tick) matches Some(floor)
            ==> ceils_well(floor, tick))
    }
}

/// A buy keeps its level's distance below the fair price, stays a tick below the best ask, and stands on
/// a tick.
pub open spec fn buy_keeps_off(
    px: Decimal,
    fair: Px,
    lvl: GridLevel,
    tick: Decimal,
    book: Option<TopOfBook>,
) -> bool {
    &&& buy_mark(fair, lvl) matches Some(raw) && px.is_at_most(raw)
    &&& book matches Some(b) ==> (decimal_difference(b.ask_px.0, tick) matches Some(cap)
        && px.is_at_most(cap))
    &&& tick.mantissa > 0 ==> on_tick(px, tick)
}

/// A sell keeps its level's distance above the fair price, stays a tick above the best bid, and stands on
/// a tick.
pub open spec fn sell_keeps_off(
    px: Decimal,
    fair: Px,
    lvl: GridLevel,
    tick: Decimal,
    book: Option<TopOfBook>,
) -> bool {
    &&& sell_mark(fair, lvl) matches Some(raw) && raw.is_at_most(px)
    &&& book matches Some(b) ==> (decimal_sum(b.bid_px.0, tick) matches Some(floor)
        && floor.is_at_most(px))
    &&& tick.mantissa > 0 ==> on_tick(px, tick)
}

/// An order is one of a grid's level: a limit order that never takes, of a positive size at a positive
/// price on a side that is allowed; where its figures can be rounded to ticks, it keeps the level's
/// distance from the fair price and stays off the other side of the book.
pub open spec fn is_of_level(
    d: DesiredSlot,
    i: int,
    fair: Px,
    lvl: GridLevel,
    tick: Decimal,
    allow_buy: bool,
    allow_sell: bool,
    book: Option<TopOfBook>,
) -> bool {
    &&& d.key == SlotKey {
        purpose: Purpose::GridEntry,
        side: d.key.side,
        index: (i % 256) as u8,
    }
    &&& d.order.tif == TimeInForce::PostOnly && d.order.order_type == OrderType::Limit
    &&& !d.order.reduce_only
    &&& positive(d.order.px.0) && positive(d.order.qty.0)
    &&& match d.key.side {
        Side::Buy => allow_buy && (buy_rounds_well(fair, lvl, tick, book) ==> buy_keeps_off(
            d.order.px.0,
            fair,
            lvl,
            tick,
            book,
        )),
        Side::Sell => allow_sell && (sell_rounds_well(fair, lvl, tick, book) ==> sell_keeps_off(
            d.order.px.0,
            fair,
            lvl,
            tick,
            book,
        )),
    }
}

/// A level's buy is priced as decimals are subtracted, multiplied and rounded down.
pub open spec fn buy_figures(fair: Px, lvl: GridLevel, tick: Decimal, book: Option<TopOfBook>) -> bool {
    &&& subtracts(dec_one(), lvl.distance)
    &&& decimal_difference(dec_one(), lvl.distance) matches Some(f) ==> {
        &&& multiplies(fair.0, f)
        &&& decimal_product(fair.0, f) matches Some(raw) ==> floored(raw, tick, tick_floor(raw, tick))
    }
    &&& book matches Some(b) ==> {
        &&& subtracts(b.ask_px.0, tick)
        &&& decimal_difference(b.ask_px.0, tick) matches Some(cap) ==> (level_buy_px(
            fair,
            lvl,
            tick,
            None,
        ) matches Some(px) ==> (cap.is_below(px) ==> floored(cap, tick, tick_floor(cap, tick))))
    }
}

/// A level's sell is priced as decimals are added, multiplied and rounded up.
pub open spec fn sell_figures(fair: Px, lvl: GridLevel, tick: Decimal, book: Option<TopOfBook>) -> bool {
    &&& adds(dec_one(), lvl.distance)
    &&& decimal_sum(dec_one(), lvl.distance) matches Some(f) ==> {
        &&& multiplies(fair.0, f)
        &&& decimal_product(fair.0, f) matches Some(raw) ==> ceiled(raw, tick, tick_ceil(raw, tick))
    }
    &&& book matches Some(b) ==> {
        &&& adds(b.bid_px.0, tick)
        &&& decimal_sum(b.bid_px.0, tick) matches Some(floor) ==> (level_sell_px(
            fair,
            lvl,
            tick,
            None,
        ) matches Some(px) ==> (px.is_below(floor) ==> ceiled(floor, tick, tick_ceil(floor, tick))))
    }
}

/// A level is sized and priced as decimals are worked out and rounded.
pub open spec fn level_figures(
    fair: Px,
    lvl: GridLevel,
    inst: Instrument,
    allow_buy: bool,
    allow_sell: bool,
    book: Option<TopOfBook>,
) -> bool {
    &&& size_divides(lvl.size, fair, inst.contract_size)
    &&& sized(lvl.size, fair, inst.contract_size) matches Some(raw) ==> floored(
        raw,
        inst.lot_size,
        tick_floor(raw, inst.lot_size),
    )
    &&& level_qty(fair, lvl, inst) matches Some(q) ==> positive(q) ==> {
        &&& allow_buy ==> buy_figures(fair, lvl, inst.tick_size, book)
        &&& allow_sell ==> sell_figures(fair, lvl, inst.tick_size, book)
    }
}

/// An order is one of the first `i` levels of a grid.
pub open spec fn of_some_level(
    d: DesiredSlot,
    i: int,
    fair: Px,
    levels: Seq<GridLevel>,
    tick: Decimal,
    allow_buy: bool,
    allow_sell: bool,
    book: Option<TopOfBook>,
) -> bool {
    exists|n: int|
        0 <= n < i && is_of_level(
            d,
            n,
            fair,
            #[trigger] levels[n],
            tick,
            allow_buy,
            allow_sell,
            book,
        )
}

/// Every order of a list is one of the first `i` levels of a grid, and of up to 256 levels no two are for the
/// same slot.
pub open spec fn all_of_levels(
    fair: Px,
    levels: Seq<GridLevel>,
    i: int,
    tick: Decimal,
    allow_buy: bool,
    allow_sell: bool,
    book: Option<TopOfBook>,
    v: Seq<DesiredSlot>,
) -> bool {
    &&& forall|j: int|
        0 <= j < v.len() ==> of_some_level(
            #[trigger] v[j],
            i,
            fair,
            levels,
            tick,
            allow_buy,
            allow_sell,
            book,
        )
    &&& levels.len() <= 256 ==> forall|j: int, k: int|
        0 <= j < k < v.len() ==> (#[trigger] v[j]).key != (#[trigger] v[k]).key
}

proof fn lemma_level_added(
    fair: Px,
    levels: Seq<GridLevel>,
    i: int,
    tick: Decimal,
    allow_buy: bool,
    allow_sell: bool,
    book: Option<TopOfBook>,
    acc: Seq<DesiredSlot>,
    out: Seq<DesiredSlot>,
)
    requires
        0 <= i < levels.len(),
        acc.len() <= out.len(),
        forall|j: int| 0 <= j < acc.len() ==> #[trigger] out[j] == acc[j],
        all_of_levels(fair, levels, i, tick, allow_buy, allow_sell, book, acc),
        forall|j: int|
            acc.len() <= j < out.len() ==> is_of_level(
                #[trigger] out[j],
                i,
                fair,
                levels[i],
                tick,
                allow_buy,
                allow_sell,
                book,
            ),
        forall|j: int, k: int|
            acc.len() <= j < k < out.len() ==> (#[trigger] out[j]).key != (#[trigger] out[k]).key,
    ensures
        all_of_levels(fair, levels, i + 1, tick, allow_buy, allow_sell, book, out),
{
    assert forall|j: int| 0 <= j < out.len() implies of_some_level(
        #[trigger] out[j],
        i + 1,
        fair,
        levels,
        tick,
        allow_buy,
        allow_sell,
        book,
    ) by {
        if j < acc.len() {
            assert(of_some_level(
                acc[j],
                i,
                fair,
                levels,
                tick,
                allow_buy,
                allow_sell,
                book,
            ));
        } else {
            let l = levels[i];
            assert(is_of_level(out[j], i, fair, l, tick, allow_buy, allow_sell, book));
        }
    }
    if levels.len() <= 256 {
        assert forall|j: int, k: int| 0 <= j < k < out.len() implies (#[trigger] out[j]).key != (
        #[trigger] out[k]).key by {
            if k < acc.len() {
                assert(out[j] == acc[j] && out[k] == acc[k]);
            } else if j < acc.len() {
                assert(out[j] == acc[j]);
                assert(of_some_level(
                    acc[j],
                    i,
                    fair,
                    levels,
                    tick,
                    allow_buy,
                    allow_sell,
                    book,
                ));
                let n = choose|n: int|
                    0 <= n < i && is_of_level(
                        acc[j],
                        n,
                        fair,
                        #[trigger] levels[n],
                        tick,
                        allow_buy,
                        allow_sell,
                        book,
                    );
                assert(out[j].key.index == n);
                assert(out[k].key.index == i);
            }
        }
    }
}

fn price_buy_level(fair: Px, lvl: &GridLevel, tick: Decimal, book: &Option<TopOfBook>) -> (r: Option<
    Decimal,
>)
    ensures
        r == level_buy_px(fair, *lvl, tick, *book),
        r is Some ==> buy_figures(fair, *lvl, tick, *book),
        buy_rounds_well(fair, *lvl, tick, *book) ==> (r matches Some(px) ==> buy_keeps_off(
            px,
            fair,
            *lvl,
            tick,
            *book,
        )),
{
    let f = Decimal::one().minus(lvl.distance)?;
    let raw = fair.0.times(f)?;
    let px = round_buy_px(raw, tick)?;
    proof {
        law_order_transitive(px, px, px);
    }
    match book {
        Some(b) => {
            let cap = b.ask_px.0.minus(tick)?;
            if cap.below(px) {
                let r = round_buy_px(cap, tick);
                proof {
                    if let Some(v) = r {
                        law_order_transitive(v, v, v);
                        law_order_transitive(v, cap, px);
                        law_order_transitive(v, px, raw);
                    }
                }
                r
            } else {
                Some(px)
            }
        },
        None => Some(px),
    }
}

fn price_sell_level(fair: Px, lvl: &GridLevel, tick: Decimal, book: &Option<TopOfBook>) -> (r:
    Option<Decimal>)
    ensures
        r == level_sell_px(fair, *lvl, tick, *book),
        r is Some ==> sell_figures(fair, *lvl, tick, *book),
        sell_rounds_well(fair, *lvl, tick, *book) ==> (r matches Some(px) ==> sell_keeps_off(
            px,
            fair,
            *lvl,
            tick,
            *book,
        )),
{
    let f = Decimal::one().plus(lvl.distance)?;
    let raw = fair.0.times(f)?;
    let px = round_sell_px(raw, tick)?;
    proof {
        law_order_transitive(px, px, px);
    }
    match book {
        Some(b) => {
            let floor = b.bid_px.0.plus(tick)?;
            if px.below(floor) {
                let r = round_sell_px(floor, tick);
                proof {
                    if let Some(v) = r {
                        law_order_transitive(v, v, v);
                        law_order_transitive(px, floor, v);
                        law_order_transitive(raw, px, v);
                    }
                }
                r
            } else {
                Some(px)
            }
        },
        None => Some(px),
    }
}

fn level_order(side: Side, index: u8, px: Decimal, qty: Decimal) -> (r: DesiredSlot)
    ensures
        r == grid_order(side, index, px, qty),
{
    DesiredSlot {
        key: SlotKey::grid(side, index),
        order: DesiredOrder {
            px: Px(px),
            qty: Qty(qty),
            reduce_only: false,
            tif: TimeInForce::PostOnly,
            order_type: OrderType::Limit,
        },
    }
}

/// Adds the orders of the grid's level at place `i`, whose amount buys `raw`. `None` where a figure is no decimal of 96 bits.
fn add_level(
    i: usize,
    raw: Decimal,
    fair: Px,
    lvl: &GridLevel,
    inst: &Instrument,
    allow_buy: bool,
    allow_sell: bool,
    maker_book: &Option<TopOfBook>,
    out: &mut Vec<DesiredSlot>,
) -> (r: Option<()>)
    requires
        sized(lvl.size, fair, inst.contract_size) == Some(raw),
        size_divides(lvl.size, fair, inst.contract_size),
    ensures
        ({
            let l = level_orders(
                fair,
                *lvl,
                (i % 256) as u8,
                *inst,
                allow_buy,
                allow_sell,
                *maker_book,
            );
            match r {
                Some(_) => {
                    &&& l matches Some(orders) && final(out)@ == old(out)@ + orders
                    &&& level_figures(fair, *lvl, *inst, allow_buy, allow_sell, *maker_book)
                    &&& forall|j: int|
                        old(out)@.len() <= j < final(out)@.len() ==> is_of_level(
                            #[trigger] final(out)@[j],
                            i as int,
                            fair,
                            *lvl,
                            inst.tick_size,
                            allow_buy,
                            allow_sell,
                            *maker_book,
                        )
                    &&& forall|j: int, k: int|
                        old(out)@.len() <= j < k < final(out)@.len() ==> (#[trigger] final(out)@[j]).key != (#[trigger] final(out)@[k]).key
                },
                None => l is None,
            }
        }),
{
    let index = (i % 256) as u8;
    let ghost acc = out@;
    let mut qty = round_qty_down(raw, inst.lot_size)?;
    if !qty.is_positive() {
        qty = inst.min_qty.max(inst.lot_size);
    }
    if qty.is_positive() {
        if allow_buy {
            let px = price_buy_level(fair, lvl, inst.tick_size, maker_book)?;
            if px.is_positive() {
                out.push(level_order(Side::Buy, index, px, qty));
            }
        }
        let ghost half = out@;
        if allow_sell {
            let px = price_sell_level(fair, lvl, inst.tick_size, maker_book)?;
            if px.is_positive() {
                out.push(level_order(Side::Sell, index, px, qty));
            }
        }
        proof {
            let b = level_side(
                Side::Buy,
                index,
                level_buy_px(fair, *lvl, inst.tick_size, *maker_book),
                qty,
                allow_buy,
            )->0;
            let s = level_side(
                Side::Sell,
                index,
                level_sell_px(fair, *lvl, inst.tick_size, *maker_book),
                qty,
                allow_sell,
            )->0;
            assert(half =~= acc + b);
            assert(out@ =~= acc + (b + s));
        }
    } else {
        assert(acc + Seq::<DesiredSlot>::empty() =~= acc);
    }
    Some(())
}

/// The orders of the grid around a fair price. `None` where a figure is no decimal of 96 bits. Each is
/// one of a level, and of up to 256 levels no two are for the same slot.
pub fn grid_targets(
    fair: Px,
    levels: &Vec<GridLevel>,
    inst: &Instrument,
    allow_buy: bool,
    allow_sell: bool,
    maker_book: &Option<TopOfBook>,
) -> (r: Option<Vec<DesiredSlot>>)
    ensures
        match r {
            Some(v) => grid_from(
                fair,
                levels@,
                0,
                *inst,
                allow_buy,
                allow_sell,
                *maker_book,
                Seq::empty(),
            ) == Some(v@),
            None => grid_from(
                fair,
                levels@,
                0,
                *inst,
                allow_buy,
                allow_sell,
                *maker_book,
                Seq::empty(),
            ) is None,
        },
        r matches Some(v) ==> {
            &&& all_of_levels(
                fair,
                levels@,
                levels@.len() as int,
                inst.tick_size,
                allow_buy,
                allow_sell,
                *maker_book,
                v@,
            )
            &&& forall|i: int|
                0 <= i < levels@.len() ==> level_figures(
                    fair,
                    #[trigger] levels@[i],
                    *inst,
                    allow_buy,
                    allow_sell,
                    *maker_book,
                )
        },
{
    let mut out: Vec<DesiredSlot> = Vec::new();
    let mut i: usize = 0;
    let ghost goal = grid_from(
        fair,
        levels@,
        0,
        *inst,
        allow_buy,
        allow_sell,
        *maker_book,
        Seq::empty(),
    );
    while i < levels.len()
        invariant
            i <= levels.len(),
            goal == grid_from(
                fair,
                levels@,
                0,
                *inst,
                allow_buy,
                allow_sell,
                *maker_book,
                Seq::empty(),
            ),
            goal == grid_from(
                fair,
                levels@,
                i as int,
                *inst,
                allow_buy,
                allow_sell,
                *maker_book,
                out@,
            ),
            all_of_levels(
                fair,
                levels@,
                i as int,
                inst.tick_size,
                allow_buy,
                allow_sell,
                *maker_book,
                out@,
            ),
            forall|n: int|
                0 <= n < i ==> level_figures(
                    fair,
                    #[trigger] levels@[n],
                    *inst,
                    allow_buy,
                    allow_sell,
                    *maker_book,
                ),
        decreases levels.len() - i,
    {
        let ghost acc = out@;
        let lvl = &levels[i];
        let raw = notional_to_qty(lvl.size, fair, inst.contract_size)?;
        add_level(i, raw, fair, lvl, inst, allow_buy, allow_sell, maker_book, &mut out)?;
        proof {
            lemma_level_added(
                fair,
                levels@,
                i as int,
                inst.tick_size,
                allow_buy,
                allow_sell,
                *maker_book,
                acc,
                out@,
            );
        }
        i = i + 1;
    }
    Some(out)
}

/// The highest price of a buy from `i` on, or `best` if it is higher.
pub open spec fn top_buy(d: Seq<DesiredSlot>, i: int, best: Option<Px>) -> Option<Px>
    decreases d.len() - i,
{
    if !(0 <= i < d.len()) {
        best
    } else if d[i].key.side != Side::Buy {
        top_buy(d, i + 1, best)
    } else {
        top_buy(
            d,
            i + 1,
            match best {
                None => Some(d[i].order.px),
                Some(b) => if d[i].order.px.0.is_below(b.0) {
                    Some(b)
                } else {
                    Some(d[i].order.px)
                },
            },
        )
    }
}

/// The lowest price of a sell from `i` on, or `best` if it is lower.
pub open spec fn low_sell(d: Seq<DesiredSlot>, i: int, best: Option<Px>) -> Option<Px>
    decreases d.len() - i,
{
    if !(0 <= i < d.len()) {
        best
    } else if d[i].key.side != Side::Sell {
        low_sell(d, i + 1, best)
    } else {
        low_sell(
            d,
            i + 1,
            match best {
                None => Some(d[i].order.px),
                Some(b) => if d[i].order.px.0.is_below(b.0) {
                    Some(d[i].order.px)
                } else {
                    Some(b)
                },
            },
        )
    }
}

/// A grid order at the highest buy or the lowest sell price.
pub open spec fn grid_at_edge(d: DesiredSlot, b: Px, s: Px) -> bool {
    d.key.purpose == Purpose::GridEntry && ((d.key.side == Side::Buy && d.order.px.0.is_same(b.0))
        || (d.key.side == Side::Sell && d.order.px.0.is_same(s.0)))
}

/// A buy at the highest buy price.
pub open spec fn buy_at_edge(d: DesiredSlot, b: Px) -> bool {
    d.key.side == Side::Buy && d.order.px.0.is_same(b.0)
}

/// The first place from `i` on of a grid order at the edge; the length if there is none.
pub open spec fn grid_edge_place(d: Seq<DesiredSlot>, b: Px, s: Px, i: int) -> int
    decreases d.len() - i,
{
    if 0 <= i < d.len() && !grid_at_edge(d[i], b, s) {
        grid_edge_place(d, b, s, i + 1)
    } else {
        i
    }
}

/// The first place from `i` on of a buy at the edge; the length if there is none.
pub open spec fn buy_edge_place(d: Seq<DesiredSlot>, b: Px, i: int) -> int
    decreases d.len() - i,
{
    if 0 <= i < d.len() && !buy_at_edge(d[i], b) {
        buy_edge_place(d, b, i + 1)
    } else {
        i
    }
}

/// The orders that are left when, as long as the highest buy does not lie below the lowest
/// sell, one at the edge is dropped: a grid order first, and a buy where no grid order is there.
pub open spec fn uncrossed(d: Seq<DesiredSlot>) -> Seq<DesiredSlot>
    decreases d.len(),
{
    match (top_buy(d, 0, None), low_sell(d, 0, None)) {
        (Some(b), Some(s)) => if b.0.is_below(s.0) {
            d
        } else {
            let g = grid_edge_place(d, b, s, 0);
            if 0 <= g < d.len() {
                uncrossed(d.remove(g))
            } else {
                let k = buy_edge_place(d, b, 0);
                if 0 <= k < d.len() {
                    uncrossed(d.remove(k))
                } else {
                    d
                }
            }
        },
        _ => d,
    }
}

fn find_top_buy(d: &Vec<DesiredSlot>) -> (r: Option<Px>)
    ensures
        r == top_buy(d@, 0, None),
{
    let mut best: Option<Px> = None;
    let mut i: usize = 0;
    while i < d.len()
        invariant
            i <= d.len(),
            top_buy(d@, 0, None) == top_buy(d@, i as int, best),
        decreases d.len() - i,
    {
        if d[i].key.side == Side::Buy {
            let px = d[i].order.px;
            best = match best {
                None => Some(px),
                Some(b) => if px.0.below(b.0) {
                    Some(b)
                } else {
                    Some(px)
                },
            };
        }
        i = i + 1;
    }
    best
}

fn find_low_sell(d: &Vec<DesiredSlot>) -> (r: Option<Px>)
    ensures
        r == low_sell(d@, 0, None),
{
    let mut best: Option<Px> = None;
    let mut i: usize = 0;
    while i < d.len()
        invariant
            i <= d.len(),
            low_sell(d@, 0, None) == low_sell(d@, i as int, best),
        decreases d.len() - i,
    {
        if d[i].key.side == Side::Sell {
            let px = d[i].order.px;
            best = match best {
                None => Some(px),
                Some(b) => if px.0.below(b.0) {
                    Some(px)
                } else {
                    Some(b)
                },
            };
        }
        i = i + 1;
    }
    best
}

fn find_grid_edge(d: &Vec<DesiredSlot>, b: Px, s: Px) -> (r: usize)
    ensures
        r == grid_edge_place(d@, b, s, 0),
        r <= d@.len(),
{
    let mut i: usize = 0;
    while i < d.len()
        invariant
            i <= d.len(),
            grid_edge_place(d@, b, s, 0) == grid_edge_place(d@, b, s, i as int),
        decreases d.len() - i,
    {
        let o = d[i];
        if o.key.purpose == Purpose::GridEntry && ((o.key.side == Side::Buy && o.order.px.0.same(
            b.0,
        )) || (o.key.side == Side::Sell && o.order.px.0.same(s.0))) {
            return i;
        }
        i = i + 1;
    }
    i
}

fn find_buy_edge(d: &Vec<DesiredSlot>, b: Px) -> (r: usize)
    ensures
        r == buy_edge_place(d@, b, 0),
        r <= d@.len(),
{
    let mut i: usize = 0;
    while i < d.len()
        invariant
            i <= d.len(),
            buy_edge_place(d@, b, 0) == buy_edge_place(d@, b, i as int),
        decreases d.len() - i,
    {
        if d[i].key.side == Side::Buy && d[i].order.px.0.same(b.0) {
            return i;
        }
        i = i + 1;
    }
    i
}

/// Drop the lower-priority side (grid) if the combined book would self-cross.
pub fn prevent_self_cross(desired: &mut Vec<DesiredSlot>)
    ensures
        final(desired)@ == uncrossed(old(desired)@),
{
    let ghost start = desired@;
    loop
        invariant
            start == old(desired)@,
            uncrossed(start) == uncrossed(desired@),
        decreases desired@.len(),
    {
        let top = find_top_buy(desired);
        let low = find_low_sell(desired);
        let (b, s) = match (top, low) {
            (Some(b), Some(s)) => (b, s),
            _ => {
                return;
            },
        };
        if b.0.below(s.0) {
            return;
        }
        let g = find_grid_edge(desired, b, s);
        if g < desired.len() {
            let _ = desired.remove(g);
        } else {
            let k = find_buy_edge(desired, b);
            if k < desired.len() {
                let _ = desired.remove(k);
            } else {
                return;
            }
        }
    }
}

/// No buy of the list is at or above a sell of it.
pub open spec fn no_cross(d: Seq<DesiredSlot>) -> bool {
    forall|i: int, j: int|
        0 <= i < d.len() && 0 <= j < d.len() && (#[trigger] d[i]).key.side == Side::Buy && (
        #[trigger] d[j]).key.side == Side::Sell ==> d[i].order.px.0.is_below(d[j].order.px.0)
}

proof fn lemma_top_buy(d: Seq<DesiredSlot>, i: int, best: Option<Px>)
    requires
        0 <= i <= d.len(),
    ensures
        best matches Some(b) ==> (top_buy(d, i, best) matches Some(t) && b.0.is_at_most(t.0)),
        forall|j: int|
            i <= j < d.len() && (#[trigger] d[j]).key.side == Side::Buy ==> (top_buy(
                d,
                i,
                best,
            ) matches Some(t) && d[j].order.px.0.is_at_most(t.0)),
        top_buy(d, i, best) == best || exists|j: int|
            i <= j < d.len() && (#[trigger] d[j]).key.side == Side::Buy && top_buy(d, i, best)
                == Some(d[j].order.px),
    decreases d.len() - i,
{
    if i < d.len() {
        let px = d[i].order.px;
        let next = if d[i].key.side != Side::Buy {
            best
        } else {
            match best {
                None => Some(px),
                Some(b) => if px.0.is_below(b.0) {
                    Some(b)
                } else {
                    Some(px)
                },
            }
        };
        lemma_top_buy(d, i + 1, next);
        law_order_transitive(px.0, px.0, px.0);
        if let Some(t) = top_buy(d, i, best) {
            if let Some(n) = next {
                law_order_transitive(px.0, n.0, t.0);
                if let Some(b) = best {
                    law_order_transitive(b.0, n.0, t.0);
                    law_order_transitive(px.0, b.0, t.0);
                    law_order_transitive(b.0, b.0, b.0);
                }
            }
        }
    } else if let Some(b) = best {
        law_order_transitive(b.0, b.0, b.0);
    }
}

proof fn lemma_low_sell(d: Seq<DesiredSlot>, i: int, best: Option<Px>)
    requires
        0 <= i <= d.len(),
    ensures
        best matches Some(b) ==> (low_sell(d, i, best) matches Some(t) && t.0.is_at_most(b.0)),
        forall|j: int|
            i <= j < d.len() && (#[trigger] d[j]).key.side == Side::Sell ==> (low_sell(
                d,
                i,
                best,
            ) matches Some(t) && t.0.is_at_most(d[j].order.px.0)),
        low_sell(d, i, best) == best || exists|j: int|
            i <= j < d.len() && (#[trigger] d[j]).key.side == Side::Sell && low_sell(d, i, best)
                == Some(d[j].order.px),
    decreases d.len() - i,
{
    if i < d.len() {
        let px = d[i].order.px;
        let next = if d[i].key.side != Side::Sell {
            best
        } else {
            match best {
                None => Some(px),
                Some(b) => if px.0.is_below(b.0) {
                    Some(px)
                } else {
                    Some(b)
                },
            }
        };
        lemma_low_sell(d, i + 1, next);
        law_order_transitive(px.0, px.0, px.0);
        if let Some(t) = low_sell(d, i, best) {
            if let Some(n) = next {
                law_order_transitive(t.0, n.0, px.0);
                if let Some(b) = best {
                    law_order_transitive(t.0, n.0, b.0);
                    law_order_transitive(px.0, b.0, b.0);
                    law_order_transitive(b.0, b.0, b.0);
                }
            }
        }
    } else if let Some(b) = best {
        law_order_transitive(b.0, b.0, b.0);
    }
}

proof fn lemma_buy_edge(d: Seq<DesiredSlot>, b: Px, i: int, j: int)
    requires
        0 <= i <= j < d.len(),
        buy_at_edge(d[j], b),
    ensures
        i <= buy_edge_place(d, b, i) <= j,
    decreases d.len() - i,
{
    if !buy_at_edge(d[i], b) {
        lemma_buy_edge(d, b, i + 1, j);
    }
}

/// What is left of the orders does not cross, and nothing is in it that was not there before.
pub proof fn law_uncrossed(d: Seq<DesiredSlot>)
    ensures
        no_cross(uncrossed(d)),
        forall|i: int|
            0 <= i < uncrossed(d).len() ==> d.contains(#[trigger] uncrossed(d)[i]),
    decreases d.len(),
{
    lemma_top_buy(d, 0, None);
    lemma_low_sell(d, 0, None);
    match (top_buy(d, 0, None), low_sell(d, 0, None)) {
        (Some(b), Some(s)) => {
            if b.0.is_below(s.0) {
                assert forall|i: int, j: int|
                    0 <= i < d.len() && 0 <= j < d.len() && (#[trigger] d[i]).key.side == Side::Buy
                        && (#[trigger] d[j]).key.side == Side::Sell implies d[i].order.px.0.is_below(
                    d[j].order.px.0,
                ) by {
                    law_order_transitive(d[i].order.px.0, b.0, s.0);
                    law_order_transitive(d[i].order.px.0, s.0, d[j].order.px.0);
                }
            } else {
                let g = grid_edge_place(d, b, s, 0);
                let k = buy_edge_place(d, b, 0);
                if 0 <= g < d.len() {
                    law_uncrossed(d.remove(g));
                    lemma_kept(d, g);
                } else {
                    let j = choose|j: int|
                        0 <= j < d.len() && (#[trigger] d[j]).key.side == Side::Buy && top_buy(
                            d,
                            0,
                            None,
                        ) == Some(d[j].order.px);
                    law_order_transitive(b.0, b.0, b.0);
                    lemma_buy_edge(d, b, 0, j);
                    law_uncrossed(d.remove(k));
                    lemma_kept(d, k);
                }
            }
        },
        _ => {},
    }
}

proof fn lemma_kept(d: Seq<DesiredSlot>, k: int)
    requires
        0 <= k < d.len(),
        forall|i: int|
            0 <= i < uncrossed(d.remove(k)).len() ==> d.remove(k).contains(
                #[trigger] uncrossed(d.remove(k))[i],
            ),
    ensures
        forall|i: int|
            0 <= i < uncrossed(d.remove(k)).len() ==> d.contains(
                #[trigger] uncrossed(d.remove(k))[i],
            ),
{
    assert forall|i: int| 0 <= i < uncrossed(d.remove(k)).len() implies d.contains(
        #[trigger] uncrossed(d.remove(k))[i],
    ) by {
        let x = uncrossed(d.remove(k))[i];
        assert(d.remove(k).contains(x));
        let j = choose|j: int| 0 <= j < d.remove(k).len() && d.remove(k)[j] == x;
        if j < k {
            assert(d[j] == x);
        } else {
            assert(d[j + 1] == x);
        }
    }
}

proof fn lemma_grid_edge(d: Seq<DesiredSlot>, b: Px, s: Px, i: int)
    requires
        0 <= i <= d.len(),
    ensures
        i <= grid_edge_place(d, b, s, i) <= d.len(),
        grid_edge_place(d, b, s, i) < d.len() ==> grid_at_edge(
            d[grid_edge_place(d, b, s, i)],
            b,
            s,
        ),
        forall|j: int|
            i <= j < grid_edge_place(d, b, s, i) ==> !grid_at_edge(#[trigger] d[j], b, s),
    decreases d.len() - i,
{
    if i < d.len() && !grid_at_edge(d[i], b, s) {
        lemma_grid_edge(d, b, s, i + 1);
    }
}

proof fn lemma_buy_edge_found(d: Seq<DesiredSlot>, b: Px, i: int)
    requires
        0 <= i <= d.len(),
    ensures
        i <= buy_edge_place(d, b, i) <= d.len(),
        buy_edge_place(d, b, i) < d.len() ==> buy_at_edge(d[buy_edge_place(d, b, i)], b),
    decreases d.len() - i,
{
    if i < d.len() && !buy_at_edge(d[i], b) {
        lemma_buy_edge_found(d, b, i + 1);
    }
}

/// Orders that do not cross are all kept, as they are.
pub proof fn law_uncrossed_orders_are_kept(d: Seq<DesiredSlot>)
    requires
        no_cross(d),
    ensures
        uncrossed(d) == d,
{
    lemma_top_buy(d, 0, None);
    lemma_low_sell(d, 0, None);
    match (top_buy(d, 0, None), low_sell(d, 0, None)) {
        (Some(b), Some(s)) => {
            let i = choose|j: int|
                0 <= j < d.len() && (#[trigger] d[j]).key.side == Side::Buy && top_buy(d, 0, None)
                    == Some(d[j].order.px);
            let j = choose|j: int|
                0 <= j < d.len() && (#[trigger] d[j]).key.side == Side::Sell && low_sell(
                    d,
                    0,
                    None,
                ) == Some(d[j].order.px);
            assert(d[i].order.px.0.is_below(d[j].order.px.0));
        },
        _ => {},
    }
}

/// Once orders were dropped so that none cross, doing so again drops none.
pub proof fn law_uncrossing_twice_changes_nothing(d: Seq<DesiredSlot>)
    ensures
        uncrossed(uncrossed(d)) == uncrossed(d),
{
    law_uncrossed(d);
    law_uncrossed_orders_are_kept(uncrossed(d));
}

/// Places of a list, each after the one before.
pub open spec fn places_in_order(at: Seq<int>, n: nat) -> bool {
    &&& forall|i: int| 0 <= i < at.len() ==> 0 <= #[trigger] at[i] < n
    &&& forall|i: int, j: int| 0 <= i < j < at.len() ==> #[trigger] at[i] < #[trigger] at[j]
}

/// The orders at some places of a list.
pub open spec fn orders_at(d: Seq<DesiredSlot>, at: Seq<int>) -> Seq<DesiredSlot> {
    at.map_values(|k: int| d[k])
}

/// The orders that are left stand in the order in which they stood.
pub proof fn law_uncrossing_keeps_the_order(d: Seq<DesiredSlot>)
    ensures
        exists|at: Seq<int>| #[trigger]
            places_in_order(at, d.len()) && uncrossed(d) == orders_at(d, at),
    decreases d.len(),
{
    let all = Seq::new(d.len(), |i: int| i);
    assert(places_in_order(all, d.len()));
    assert(orders_at(d, all) =~= d);
    match (top_buy(d, 0, None), low_sell(d, 0, None)) {
        (Some(b), Some(s)) => {
            if !b.0.is_below(s.0) {
                let g = grid_edge_place(d, b, s, 0);
                let k = buy_edge_place(d, b, 0);
                let gone = if 0 <= g < d.len() {
                    g
                } else {
                    k
                };
                if 0 <= gone < d.len() {
                    let rest = d.remove(gone);
                    law_uncrossing_keeps_the_order(rest);
                    let old_at = choose|at: Seq<int>| #[trigger]
                        places_in_order(at, rest.len()) && uncrossed(rest) == orders_at(rest, at);
                    let at = old_at.map_values(
                        |i: int|
                            if i < gone {
                                i
                            } else {
                                i + 1
                            },
                    );
                    assert(places_in_order(at, d.len())) by {
                        assert forall|i: int, j: int| 0 <= i < j < at.len() implies (
                        #[trigger] at[i]) < (#[trigger] at[j]) by {
                            assert(old_at[i] < old_at[j]);
                        }
                        assert forall|i: int| 0 <= i < at.len() implies 0 <= #[trigger] at[i]
                            < d.len() by {
                            assert(0 <= old_at[i] < rest.len());
                        }
                    }
                    assert(orders_at(d, at) =~= orders_at(rest, old_at)) by {
                        assert forall|i: int| 0 <= i < at.len() implies orders_at(d, at)[i]
                            == orders_at(rest, old_at)[i] by {
                            assert(0 <= old_at[i] < rest.len());
                        }
                    }
                }
            }
        },
        _ => {},
    }
}

proof fn lemma_filter_without(
    d: Seq<DesiredSlot>,
    k: int,
    p: spec_fn(DesiredSlot) -> bool,
)
    requires
        0 <= k < d.len(),
        !p(d[k]),
    ensures
        d.remove(k).filter(p) == d.filter(p),
{
    let a = d.take(k);
    let one = seq![d[k]];
    let b = d.skip(k + 1);
    assert(d =~= a + one + b);
    assert(d.remove(k) =~= a + b);
    Seq::filter_distributes_over_add(a, b, p);
    Seq::filter_distributes_over_add(a + one, b, p);
    Seq::filter_distributes_over_add(a, one, p);
    assert(one.filter(p) =~= Seq::<DesiredSlot>::empty()) by {
        reveal_with_fuel(Seq::filter, 2);
        assert(one.drop_last() =~= Seq::<DesiredSlot>::empty());
        assert(one.last() == d[k]);
    }
    assert(a.filter(p) + one.filter(p) =~= a.filter(p));
}

/// Every sell that closes a lot is kept.
pub proof fn law_exit_sells_are_kept(d: Seq<DesiredSlot>)
    ensures
        ({
            let exit_sell = |o: DesiredSlot| o.key.purpose == Purpose::Exit && o.key.side
                == Side::Sell;
            uncrossed(d).filter(exit_sell) == d.filter(exit_sell)
        }),
    decreases d.len(),
{
    let exit_sell = |o: DesiredSlot| o.key.purpose == Purpose::Exit && o.key.side == Side::Sell;
    match (top_buy(d, 0, None), low_sell(d, 0, None)) {
        (Some(b), Some(s)) => {
            if !b.0.is_below(s.0) {
                lemma_grid_edge(d, b, s, 0);
                lemma_buy_edge_found(d, b, 0);
                let g = grid_edge_place(d, b, s, 0);
                let k = buy_edge_place(d, b, 0);
                if g < d.len() {
                    lemma_filter_without(d, g, exit_sell);
                    law_exit_sells_are_kept(d.remove(g));
                } else if k < d.len() {
                    lemma_filter_without(d, k, exit_sell);
                    law_exit_sells_are_kept(d.remove(k));
                }
            }
        },
        _ => {},
    }
}

/// As long as the orders that close lots do not cross one another, all of them are kept: only
/// orders of the grid are dropped.
pub proof fn law_exits_are_kept(d: Seq<DesiredSlot>)
    requires
        no_cross(d.filter(|o: DesiredSlot| o.key.purpose == Purpose::Exit)),
    ensures
        ({
            let exit = |o: DesiredSlot| o.key.purpose == Purpose::Exit;
            uncrossed(d).filter(exit) == d.filter(exit)
        }),
    decreases d.len(),
{
    let exit = |o: DesiredSlot| o.key.purpose == Purpose::Exit;
    let exits = d.filter(exit);
    lemma_top_buy(d, 0, None);
    lemma_low_sell(d, 0, None);
    match (top_buy(d, 0, None), low_sell(d, 0, None)) {
        (Some(b), Some(s)) => {
            if !b.0.is_below(s.0) {
                lemma_grid_edge(d, b, s, 0);
                let g = grid_edge_place(d, b, s, 0);
                if g < d.len() {
                    lemma_filter_without(d, g, exit);
                    law_exits_are_kept(d.remove(g));
                } else {
                    let i = choose|j: int|
                        0 <= j < d.len() && (#[trigger] d[j]).key.side == Side::Buy && top_buy(
                            d,
                            0,
                            None,
                        ) == Some(d[j].order.px);
                    let j = choose|j: int|
                        0 <= j < d.len() && (#[trigger] d[j]).key.side == Side::Sell && low_sell(
                            d,
                            0,
                            None,
                        ) == Some(d[j].order.px);
                    law_order_transitive(b.0, b.0, b.0);
                    law_order_transitive(s.0, s.0, s.0);
                    assert(!grid_at_edge(d[i], b, s) && !grid_at_edge(d[j], b, s));
                    assert(exit(d[i]) && exit(d[j]));
                    d.lemma_filter_contains(exit, i);
                    d.lemma_filter_contains(exit, j);
                    let x = choose|x: int| 0 <= x < exits.len() && exits[x] == d[i];
                    let y = choose|y: int| 0 <= y < exits.len() && exits[y] == d[j];
                    assert(exits[x].order.px.0.is_below(exits[y].order.px.0));
                }
            }
        },
        _ => {},
    }
}

/// How far a price lies from where it should, as a fraction of the fair price.
pub open spec fn gap_fraction(target: Px, live: Px, fair: Px) -> Option<Decimal> {
    match decimal_difference(target.0, live.0) {
        None => None,
        Some(d) => match decimal_abs(d) {
            None => None,
            Some(a) => decimal_quotient(a, fair.0),
        },
    }
}

/// Bits that the distance of a price from where it should be may be read as. Over a fair price of
/// nothing every price lies as far off as a double can say.
pub open spec fn gap_reads_as(target: Px, live: Px, fair: Px, gap: Option<u64>) -> bool {
    if fair.0.zero_valued() {
        gap == Some(MAX_BITS)
    } else {
        match gap_fraction(target, live, fair) {
            None => gap is None,
            Some(q) => gap matches Some(bits) && reads_as(q, bits),
        }
    }
}

/// How far a price lies from where it should, as a fraction of the fair price. `None` where the
/// fraction is no decimal of 96 bits.
pub fn price_gap(target: Px, live: Px, fair: Px) -> (r: Option<Decimal>)
    ensures
        r == gap_fraction(target, live, fair),
{
    target.0.checked_sub(live.0)?.checked_abs()?.checked_div(fair.0)
}

/// How far a price lies from where it should, as a fraction of the fair price: bits of a double.
/// `None` where the fraction is no decimal of 96 bits. How one that is no integer is rounded is
/// left unsaid.
pub fn deviation(target: Px, live: Px, fair: Px) -> (r: Option<u64>)
    ensures
        gap_reads_as(target, live, fair, r),
{
    if fair.0.is_zero() {
        return Some(MAX_BITS);
    }
    Some(price_gap(target, live, fair)?.as_double())
}

/// The terms on which orders are placed.
#[verifier::ext_equal]
pub struct Terms {
    pub id: Seq<char>,
    pub venue: VenueId,
    pub symbol: Seq<char>,
    /// How far a price may lie from where it should: bits of a double.
    pub requote: u64,
    pub fair: Option<Px>,
    pub supports_amend: bool,
    pub now: Ts,
}

/// Bits that the distance of a slot's working order from where it should be may be read as.
/// Without a fair price it lies as far off as a double can say.
pub open spec fn slot_gap_reads_as(s: SlotV, o: DesiredOrder, fair: Option<Px>, gap: Option<u64>)
    -> bool {
    match s.live {
        Some(l) => s.state == SlotStateKind::Live ==> match fair {
            Some(f) => gap_reads_as(o.px, l.px, f, gap),
            None => gap == Some(MAX_BITS),
        },
        None => true,
    }
}

/// Bits that the distances of working orders from where they should be may be read as, one for
/// each order that should stand.
pub open spec fn gaps_read_as(
    st: StateV,
    desired: Seq<DesiredSlot>,
    fair: Option<Px>,
    gaps: Seq<Option<u64>>,
) -> bool {
    &&& gaps.len() == desired.len()
    &&& forall|i: int|
        0 <= i < gaps.len() ==> slot_gap_reads_as(
            slot_at(st.slots, desired[i].key),
            desired[i].order,
            fair,
            #[trigger] gaps[i],
        )
}

/// An order that works should be moved: its size is another, or its price lies further off than
/// the threshold allows. `gap` is how far it lies off: bits of a double.
pub open spec fn needs_move(l: LiveV, o: DesiredOrder, t: Terms, gap: Option<u64>) -> Option<bool> {
    match gap {
        None => None,
        Some(g) => Some(!l.qty.0.is_same(o.qty.0) || double_above(g, t.requote)),
    }
}

/// A slot for which an order is on its way to the venue.
pub open spec fn placed(s: SlotV, coid: Seq<char>, o: DesiredOrder, now: Ts) -> SlotV {
    SlotV {
        state: SlotStateKind::PendingNew,
        pending_since: Some(now),
        amend_from: None,
        live: Some(
            LiveV {
                coid,
                exchange_id: None,
                px: o.px,
                qty: o.qty,
                filled_qty: Qty(dec_zero()),
                reduce_only: o.reduce_only,
            },
        ),
        ..s
    }
}

/// The request that places an order.
pub open spec fn placing(coid: Seq<char>, key: SlotKey, o: DesiredOrder, t: Terms) -> ActionV {
    ActionV::Place(
        PlaceV {
            coid,
            venue: t.venue,
            symbol: t.symbol,
            side: key.side,
            px: o.px,
            qty: o.qty,
            tif: o.tif,
            reduce_only: o.reduce_only,
            order_type: o.order_type,
        },
    )
}

/// A slot whose order is being moved, and the request that moves it.
pub open spec fn moved(s: SlotV, l: LiveV, o: DesiredOrder, t: Terms) -> (SlotV, ActionV) {
    if t.supports_amend {
        (
            SlotV {
                state: SlotStateKind::PendingAmend,
                pending_since: Some(t.now),
                amend_from: Some((l.px, l.qty)),
                live: Some(LiveV { px: o.px, qty: o.qty, ..l }),
                ..s
            },
            ActionV::Amend {
                coid: l.coid,
                venue: t.venue,
                symbol: t.symbol,
                px: o.px,
                qty: o.qty,
            },
        )
    } else {
        (
            SlotV { state: SlotStateKind::PendingCancel, pending_since: Some(t.now), ..s },
            ActionV::Cancel { coid: l.coid, venue: t.venue, symbol: t.symbol },
        )
    }
}

/// One order that should stand is brought about: an empty slot gets it, a working order is moved
/// where it should be, and a slot that waits for the venue, or is left alone, is only told what
/// should stand. `None` where the order numbers are used up, a figure is no decimal of 96 bits,
/// or a slot that works has no order. `gap` is how far a working order lies off.
pub open spec fn settled(
    st: StateV,
    out: Seq<ActionV>,
    d: DesiredSlot,
    t: Terms,
    gap: Option<u64>,
) -> Option<(StateV, Seq<ActionV>)> {
    let s = SlotV { desired: Some(d.order), ..slot_at(st.slots, d.key) };
    if s.blocked(t.now) {
        Some((st.put(d.key, s), out))
    } else if s.state == SlotStateKind::Empty {
        if st.next_seq == u64::MAX {
            None
        } else {
            let coid = order_id_text(t.id, d.key, st.next_seq as nat);
            Some(
                (
                    StateV {
                        next_seq: (st.next_seq + 1) as u64,
                        ..st.put(d.key, placed(s, coid, d.order, t.now))
                    },
                    out.push(placing(coid, d.key, d.order, t)),
                ),
            )
        }
    } else if s.state == SlotStateKind::Live {
        match s.live {
            None => None,
            Some(l) => match needs_move(l, d.order, t, gap) {
                None => None,
                Some(need) => if need {
                    let m = moved(s, l, d.order, t);
                    Some((st.put(d.key, m.0), out.push(m.1)))
                } else {
                    Some((st.put(d.key, s), out))
                },
            },
        }
    } else {
        Some((st.put(d.key, s), out))
    }
}

/// The orders that should stand, from `i` on, are brought about one after the other.
pub open spec fn settled_from(
    st: StateV,
    out: Seq<ActionV>,
    desired: Seq<DesiredSlot>,
    i: int,
    t: Terms,
    gaps: Seq<Option<u64>>,
) -> Option<(StateV, Seq<ActionV>)>
    decreases desired.len() - i,
{
    if !(0 <= i < desired.len()) {
        Some((st, out))
    } else {
        match settled(st, out, desired[i], t, gaps[i]) {
            None => None,
            Some(n) => settled_from(n.0, n.1, desired, i + 1, t, gaps),
        }
    }
}

/// Some order that should stand is for that slot.
pub open spec fn wanted(desired: Seq<DesiredSlot>, key: SlotKey) -> bool {
    exists|i: int| 0 <= i < desired.len() && (#[trigger] desired[i]).key == key
}

/// The slot holds a working order that should not stand.
pub open spec fn stray(e: (SlotKey, SlotV), desired: Seq<DesiredSlot>) -> bool {
    !wanted(desired, e.0) && e.1.state == SlotStateKind::Live && e.1.live is Some
}

/// Working orders that should not stand, from `i` on, are cancelled.
pub open spec fn swept_from(
    slots: Seq<(SlotKey, SlotV)>,
    out: Seq<ActionV>,
    desired: Seq<DesiredSlot>,
    i: int,
    t: Terms,
) -> (Seq<(SlotKey, SlotV)>, Seq<ActionV>)
    decreases slots.len() - i,
{
    if !(0 <= i < slots.len()) {
        (slots, out)
    } else if stray(slots[i], desired) {
        swept_from(
            slots.update(i, (slots[i].0, slots[i].1.withdrawn(t.now))),
            out.push(
                ActionV::Cancel {
                    coid: slots[i].1.live->0.coid,
                    venue: t.venue,
                    symbol: t.symbol,
                },
            ),
            desired,
            i + 1,
            t,
        )
    } else {
        swept_from(slots, out, desired, i + 1, t)
    }
}

/// The orders that should stand are brought about, and working orders that should not are
/// cancelled.
pub open spec fn reconciled(
    st: StateV,
    out: Seq<ActionV>,
    desired: Seq<DesiredSlot>,
    t: Terms,
    gaps: Seq<Option<u64>>,
) -> Option<(StateV, Seq<ActionV>)> {
    match settled_from(st, out, desired, 0, t, gaps) {
        None => None,
        Some(n) => {
            let swept = swept_from(n.0.slots, n.1, desired, 0, t);
            Some((StateV { slots: swept.0, ..n.0 }, swept.1))
        },
    }
}

fn is_wanted(desired: &Vec<DesiredSlot>, key: SlotKey) -> (r: bool)
    ensures
        r == wanted(desired@, key),
{
    let mut i: usize = 0;
    while i < desired.len()
        invariant
            i <= desired.len(),
            forall|j: int| 0 <= j < i ==> (#[trigger] desired@[j]).key != key,
        decreases desired.len() - i,
    {
        if desired[i].key == key {
            return true;
        }
        i = i + 1;
    }
    false
}

fn settle(
    state: &mut CoreState,
    strategy_id: &StrategyId,
    venue: VenueId,
    symbol: &SymbolId,
    d: DesiredSlot,
    requote: u64,
    fair: Option<Px>,
    supports_amend: bool,
    now: Ts,
    gap: Option<u64>,
    out: &mut Vec<Action>,
) -> (r: Option<()>)
    ensures
        ({
            let t = Terms {
                id: strategy_id@,
                venue,
                symbol: symbol@,
                requote,
                fair,
                supports_amend,
                now,
            };
            match r {
                Some(_) => settled(old(state)@, asked(old(out)@), d, t, gap) == Some(
                    (final(state)@, asked(final(out)@)),
                ),
                None => settled(old(state)@, asked(old(out)@), d, t, gap) is None,
            }
        }),
{
    let seq = state.next_seq;
    let slot = state.slot(d.key);
    slot.desired = Some(d.order);
    if slot.is_blocked(now) {
        return Some(());
    }
    match slot.state {
        SlotStateKind::Empty => {
            if seq == u64::MAX {
                return None;
            }
            let coid = make_client_order_id(strategy_id, d.key, seq);
            slot.state = SlotStateKind::PendingNew;
            slot.pending_since = Some(now);
            slot.amend_from = None;
            slot.live = Some(
                LiveOrder {
                    coid: coid.clone(),
                    exchange_id: None,
                    px: d.order.px,
                    qty: d.order.qty,
                    filled_qty: Qty::default(),
                    reduce_only: d.order.reduce_only,
                },
            );
            state.next_seq = seq + 1;
            let a = Action::Place(
                PlaceReq {
                    coid,
                    venue,
                    symbol: symbol.clone(),
                    side: d.key.side,
                    px: d.order.px,
                    qty: d.order.qty,
                    tif: d.order.tif,
                    reduce_only: d.order.reduce_only,
                    order_type: d.order.order_type,
                },
            );
            out.push(a);
            assert(asked(out@) =~= asked(old(out)@).push(a@));
            Some(())
        },
        SlotStateKind::Live => {
            let live = match &slot.live {
                Some(l) => l.clone(),
                None => {
                    return None;
                },
            };
            let off = gap?;
            let need = !live.qty.0.same(d.order.qty.0) || is_above(off, requote);
            if !need {
                return Some(());
            }
            slot.pending_since = Some(now);
            let a = if supports_amend {
                slot.state = SlotStateKind::PendingAmend;
                slot.amend_from = Some((live.px, live.qty));
                let coid = live.coid.clone();
                let mut l = live;
                l.px = d.order.px;
                l.qty = d.order.qty;
                slot.live = Some(l);
                Action::Amend {
                    coid,
                    venue,
                    symbol: symbol.clone(),
                    px: d.order.px,
                    qty: d.order.qty,
                }
            } else {
                slot.state = SlotStateKind::PendingCancel;
                Action::Cancel { coid: live.coid, venue, symbol: symbol.clone() }
            };
            out.push(a);
            assert(asked(out@) =~= asked(old(out)@).push(a@));
            Some(())
        },
        _ => Some(()),
    }
}

/// Brings the orders at the venue to those that should stand. `None` where the order numbers
/// are used up, a figure is no decimal of 96 bits, or a slot that works has no order. `requote` is
/// how far a working order may lie off, and `gaps` how far each does: bits of doubles.
pub fn reconcile_by(
    state: &mut CoreState,
    strategy_id: &StrategyId,
    venue: VenueId,
    symbol: &SymbolId,
    desired: &Vec<DesiredSlot>,
    requote: u64,
    fair: Option<Px>,
    supports_amend: bool,
    now: Ts,
    gaps: &Vec<Option<u64>>,
    out: &mut Vec<Action>,
) -> (r: Option<()>)
    requires
        gaps@.len() == desired@.len(),
    ensures
        ({
            let t = Terms {
                id: strategy_id@,
                venue,
                symbol: symbol@,
                requote,
                fair,
                supports_amend,
                now,
            };
            match r {
                Some(_) => reconciled(old(state)@, asked(old(out)@), desired@, t, gaps@) == Some(
                    (final(state)@, asked(final(out)@)),
                ),
                None => reconciled(old(state)@, asked(old(out)@), desired@, t, gaps@) is None,
            }
        }),
{
    let ghost t = Terms {
        id: strategy_id@,
        venue,
        symbol: symbol@,
        requote,
        fair,
        supports_amend,
        now,
    };
    let ghost goal = settled_from(state@, asked(out@), desired@, 0, t, gaps@);
    let mut i: usize = 0;
    while i < desired.len()
        invariant
            i <= desired.len(),
            t == (Terms {
                id: strategy_id@,
                venue,
                symbol: symbol@,
                requote,
                fair,
                supports_amend,
                now,
            }),
            gaps@.len() == desired@.len(),
            goal == settled_from(old(state)@, asked(old(out)@), desired@, 0, t, gaps@),
            goal == settled_from(state@, asked(out@), desired@, i as int, t, gaps@),
        decreases desired.len() - i,
    {
        settle(
            state,
            strategy_id,
            venue,
            symbol,
            desired[i],
            requote,
            fair,
            supports_amend,
            now,
            gaps[i],
            out,
        )?;
        i = i + 1;
    }
    let ghost mid = state@;
    let ghost swept = swept_from(state@.slots, asked(out@), desired@, 0, t);
    let mut k: usize = 0;
    while k < state.slots.entries.len()
        invariant
            k <= state.slots.entries.len(),
            t == (Terms {
                id: strategy_id@,
                venue,
                symbol: symbol@,
                requote,
                fair,
                supports_amend,
                now,
            }),
            state@ == (StateV { slots: state@.slots, ..mid }),
            swept == swept_from(state@.slots, asked(out@), desired@, k as int, t),
        decreases state.slots.entries.len() - k,
    {
        let key = state.slots.entries[k].key;
        if state.slots.entries[k].slot.state == SlotStateKind::Live && !is_wanted(desired, key) {
            let coid = match &state.slots.entries[k].slot.live {
                Some(l) => Some(l.coid.clone()),
                None => None,
            };
            if let Some(c) = coid {
                let ghost before = state@.slots;
                let ghost said = asked(out@);
                let slot = &mut state.slots.entries[k].slot;
                slot.desired = None;
                slot.state = SlotStateKind::PendingCancel;
                slot.pending_since = Some(now);
                let a = Action::Cancel { coid: c, venue, symbol: symbol.clone() };
                out.push(a);
                assert(asked(out@) =~= said.push(a@));
                assert(state@.slots =~= before.update(
                    k as int,
                    (before[k as int].0, before[k as int].1.withdrawn(now)),
                ));
            }
        }
        k = k + 1;
    }
    Some(())
}

/// How far a slot's working order lies from where it should: bits of a double.
fn read_gap(slot: Option<&Slot>, order: DesiredOrder, fair: Option<Px>) -> (r: Option<u64>)
    ensures
        slot matches Some(s) ==> slot_gap_reads_as(s@, order, fair, r),
{
    match slot {
        Some(s) => {
            if s.state != SlotStateKind::Live {
                return None;
            }
            match &s.live {
                Some(l) => match fair {
                    Some(f) => deviation(order.px, l.px, f),
                    None => Some(MAX_BITS),
                },
                None => None,
            }
        },
        None => None,
    }
}

/// How far working orders lie from where they should, one for each order that should stand: bits
/// of doubles, where there is a working order.
pub fn read_gaps(state: &CoreState, desired: &Vec<DesiredSlot>, fair: Option<Px>) -> (r: Vec<
    Option<u64>,
>)
    ensures
        gaps_read_as(state@, desired@, fair, r@),
{
    let mut r: Vec<Option<u64>> = Vec::new();
    let mut i: usize = 0;
    while i < desired.len()
        invariant
            i <= desired.len(),
            r@.len() == i,
            forall|j: int|
                0 <= j < i ==> slot_gap_reads_as(
                    slot_at(state@.slots, desired@[j].key),
                    desired@[j].order,
                    fair,
                    #[trigger] r@[j],
                ),
        decreases desired.len() - i,
    {
        r.push(read_gap(state.slots.get(desired[i].key), desired[i].order, fair));
        i = i + 1;
    }
    r
}

/// Brings the orders at the venue to those that should stand. `None` where the order numbers
/// are used up, a figure is no decimal of 96 bits, or a slot that works has no order. A threshold
/// and distances that are no integers are compared as the doubles that they are read as, whose
/// rounding is left unsaid.
pub fn reconcile(
    state: &mut CoreState,
    strategy_id: &StrategyId,
    venue: VenueId,
    symbol: &SymbolId,
    desired: &Vec<DesiredSlot>,
    requote: Decimal,
    fair: Option<Px>,
    supports_amend: bool,
    now: Ts,
    out: &mut Vec<Action>,
) -> (r: Option<()>)
    ensures
        exists|limit: u64, gaps: Seq<Option<u64>>|
            {
                let t = Terms {
                    id: strategy_id@,
                    venue,
                    symbol: symbol@,
                    requote: limit,
                    fair,
                    supports_amend,
                    now,
                };
                &&& #[trigger] reads_as(requote, limit)
                &&& #[trigger] gaps_read_as(old(state)@, desired@, fair, gaps)
                &&& match r {
                    Some(_) => reconciled(old(state)@, asked(old(out)@), desired@, t, gaps) == Some(
                        (final(state)@, asked(final(out)@)),
                    ),
                    None => reconciled(old(state)@, asked(old(out)@), desired@, t, gaps) is None,
                }
            },
{
    let limit = requote.as_double();
    let gaps = read_gaps(state, desired, fair);
    assert(reads_as(requote, limit) && gaps_read_as(state@, desired@, fair, gaps@));
    reconcile_by(
        state,
        strategy_id,
        venue,
        symbol,
        desired,
        limit,
        fair,
        supports_amend,
        now,
        &gaps,
        out,
    )
}

/// A slot that a cancellation of all orders reaches.
pub open spec fn reachable(s: SlotV) -> bool {
    ||| s.state == SlotStateKind::Live
    ||| s.state == SlotStateKind::PendingNew
    ||| s.state == SlotStateKind::PendingAmend
}

/// The slots after all orders were asked to be cancelled.
pub open spec fn all_withdrawn(s: Seq<(SlotKey, SlotV)>, now: Ts) -> Seq<(SlotKey, SlotV)> {
    s.map_values(
        |e: (SlotKey, SlotV)|
            (
                e.0,
                if reachable(e.1) {
                    e.1.withdrawn(now)
                } else {
                    e.1
                },
            ),
    )
}

pub fn mark_cancel_all(state: &mut CoreState, now: Ts)
    ensures
        final(state)@ == (StateV { slots: all_withdrawn(old(state)@.slots, now), ..old(state)@ }),
{
    let ghost start = state@;
    let ghost goal = all_withdrawn(start.slots, now);
    let mut i: usize = 0;
    while i < state.slots.entries.len()
        invariant
            i <= state.slots.entries.len(),
            start == old(state)@,
            goal == all_withdrawn(start.slots, now),
            state@.slots.len() == start.slots.len(),
            state@ == (StateV { slots: state@.slots, ..start }),
            forall|j: int| 0 <= j < i ==> #[trigger] state@.slots[j] == goal[j],
            forall|j: int| i <= j < start.slots.len() ==> #[trigger] state@.slots[j]
                == start.slots[j],
        decreases state.slots.entries.len() - i,
    {
        let ghost before = state@.slots;
        let slot = &mut state.slots.entries[i].slot;
        match slot.state {
            SlotStateKind::Live | SlotStateKind::PendingNew | SlotStateKind::PendingAmend => {
                slot.state = SlotStateKind::PendingCancel;
                slot.pending_since = Some(now);
                slot.desired = None;
            },
            _ => {},
        }
        assert(before[i as int] == start.slots[i as int]);
        assert(state@.slots[i as int] =~= goal[i as int]);
        assert(state@.slots =~= before.update(i as int, goal[i as int]));
        i = i + 1;
    }
    assert(state@.slots =~= goal);
}

/// The price at which a lot makes its profit.
pub open spec fn profit_mark(entry: Px, side: Side, take_profit: Decimal) -> Option<Decimal> {
    let factor = match side {
        Side::Buy => decimal_sum(dec_one(), take_profit),
        Side::Sell => decimal_difference(dec_one(), take_profit),
    };
    match factor {
        None => None,
        Some(f) => decimal_product(entry.0, f),
    }
}

/// The price at which a lot is closed at its profit.
pub open spec fn maker_exit(entry: Px, side: Side, take_profit: Decimal, tick: Decimal) -> Option<
    Px,
> {
    match profit_mark(entry, side, take_profit) {
        None => None,
        Some(target) => to_px(exit_px(side.other(), target, tick)),
    }
}

/// The price at which a lot makes its profit is worked out as decimals are added and multiplied, and rounded.
pub open spec fn profit_figures(entry: Px, side: Side, take_profit: Decimal, tick: Decimal) -> bool {
    &&& side == Side::Buy ==> adds(dec_one(), take_profit) && (decimal_sum(dec_one(), take_profit)
        matches Some(f) ==> multiplies(entry.0, f) && (decimal_product(entry.0, f) matches Some(t)
        ==> ceiled(t, tick, tick_ceil(t, tick))))
    &&& side == Side::Sell ==> subtracts(dec_one(), take_profit) && (decimal_difference(
        dec_one(),
        take_profit,
    ) matches Some(f) ==> multiplies(entry.0, f) && (decimal_product(entry.0, f) matches Some(t)
        ==> floored(t, tick, tick_floor(t, tick))))
}

/// The price at which a lot is closed at its profit. `None` where it is no decimal of 96 bits. Where
/// the price that makes the profit can be rounded to ticks, none of the profit is given away.
pub fn exit_px_maker(entry: Px, side: Side, take_profit: Decimal, tick: Decimal) -> (r: Option<Px>)
    ensures
        r == maker_exit(entry, side, take_profit, tick),
        r is Some ==> profit_figures(entry, side, take_profit, tick),
        profit_mark(entry, side, take_profit) matches Some(target) ==> {
            &&& side == Side::Buy && (tick.mantissa > 0 ==> ceils_well(target, tick)) ==> (
            r matches Some(px) && target.is_at_most(px.0))
            &&& side == Side::Sell && (tick.mantissa > 0 ==> floors_well(target, tick)) ==> (
            r matches Some(px) && px.0.is_at_most(target))
        },
{
    let factor = match side {
        Side::Buy => Decimal::one().plus(take_profit)?,
        Side::Sell => Decimal::one().minus(take_profit)?,
    };
    let target = entry.0.times(factor)?;
    proof {
        law_order_transitive(target, target, target);
    }
    Some(Px(round_exit_px(side.opposite(), target, tick)?))
}

/// A slot that waits for the venue, whose outcome is not known, or that is left alone, is asked
/// nothing: it only learns what should stand.
pub proof fn law_waiting_slot_is_not_sent_again(
    st: StateV,
    out: Seq<ActionV>,
    d: DesiredSlot,
    t: Terms,
    gap: Option<u64>,
)
    requires
        ({
            let s = slot_at(st.slots, d.key);
            s.pending() || s.state == SlotStateKind::Unknown || s.blocked(t.now)
        }),
    ensures
        settled(st, out, d, t, gap) == Some(
            (st.put(d.key, SlotV { desired: Some(d.order), ..slot_at(st.slots, d.key) }), out),
        ),
{
}

/// An order that was brought about is not brought about again: the second time nothing is
/// asked.
pub proof fn law_settle_once(
    st: StateV,
    out: Seq<ActionV>,
    d: DesiredSlot,
    t: Terms,
    gap: Option<u64>,
)
    requires
        settled(st, out, d, t, gap) is Some,
    ensures
        ({
            let first = settled(st, out, d, t, gap)->0;
            settled(first.0, first.1, d, t, gap) matches Some(second) && second.1 == first.1
        }),
{
    let s = SlotV { desired: Some(d.order), ..slot_at(st.slots, d.key) };
    let first = settled(st, out, d, t, gap)->0;
    let v = if s.blocked(t.now) {
        s
    } else if s.state == SlotStateKind::Empty {
        placed(s, order_id_text(t.id, d.key, st.next_seq as nat), d.order, t.now)
    } else if s.state == SlotStateKind::Live && needs_move(s.live->0, d.order, t, gap) == Some(true) {
        moved(s, s.live->0, d.order, t).0
    } else {
        s
    };
    assert(first.0.slots == with_slot(st.slots, d.key, v));
    law_slot_put(st.slots, d.key, v, d.key);
    assert(slot_at(first.0.slots, d.key) == v);
    assert((SlotV { desired: Some(d.order), ..v }) == v);
}

/// An order that works when its turn comes is the one that worked before any order was brought
/// about, so how far it lies off can be told beforehand.
pub proof fn law_working_orders_are_those_of_before(
    st: StateV,
    out: Seq<ActionV>,
    d: DesiredSlot,
    t: Terms,
    gap: Option<u64>,
    key: SlotKey,
)
    requires
        settled(st, out, d, t, gap) is Some,
        slot_at((settled(st, out, d, t, gap)->0).0.slots, key).state == SlotStateKind::Live,
    ensures
        slot_at(st.slots, key).state == SlotStateKind::Live,
        slot_at(st.slots, key).live == slot_at(
            (settled(st, out, d, t, gap)->0).0.slots,
            key,
        ).live,
{
    let s = SlotV { desired: Some(d.order), ..slot_at(st.slots, d.key) };
    law_slot_put(st.slots, d.key, s, key);
    law_slot_put(
        st.slots,
        d.key,
        placed(s, order_id_text(t.id, d.key, st.next_seq as nat), d.order, t.now),
        key,
    );
    if s.live is Some {
        law_slot_put(st.slots, d.key, moved(s, s.live->0, d.order, t).0, key);
    }
}

proof fn lemma_swept_keys(
    slots: Seq<(SlotKey, SlotV)>,
    out: Seq<ActionV>,
    desired: Seq<DesiredSlot>,
    i: int,
    t: Terms,
)
    requires
        0 <= i <= slots.len(),
        unique_keys(slots),
    ensures
        unique_keys(swept_from(slots, out, desired, i, t).0),
    decreases slots.len() - i,
{
    if i < slots.len() {
        if stray(slots[i], desired) {
            let next = slots.update(i, (slots[i].0, slots[i].1.withdrawn(t.now)));
            assert forall|a: int, b: int| 0 <= a < b < next.len() implies (#[trigger] next[a]).0
                != (#[trigger] next[b]).0 by {
                assert(next[a].0 == slots[a].0 && next[b].0 == slots[b].0);
            }
            lemma_swept_keys(
                next,
                out.push(
                    ActionV::Cancel {
                        coid: slots[i].1.live->0.coid,
                        venue: t.venue,
                        symbol: t.symbol,
                    },
                ),
                desired,
                i + 1,
                t,
            );
        } else {
            lemma_swept_keys(slots, out, desired, i + 1, t);
        }
    }
}

proof fn lemma_settled_keys(
    st: StateV,
    out: Seq<ActionV>,
    desired: Seq<DesiredSlot>,
    i: int,
    t: Terms,
    gaps: Seq<Option<u64>>,
)
    requires
        0 <= i <= desired.len(),
        st.wf(),
    ensures
        settled_from(st, out, desired, i, t, gaps) matches Some(n) ==> n.0.wf(),
    decreases desired.len() - i,
{
    if i < desired.len() {
        let d = desired[i];
        match settled(st, out, d, t, gaps[i]) {
            None => {},
            Some(n) => {
                let s = SlotV { desired: Some(d.order), ..slot_at(st.slots, d.key) };
                let coid = order_id_text(t.id, d.key, st.next_seq as nat);
                law_slot_put(st.slots, d.key, s, d.key);
                law_slot_put(st.slots, d.key, placed(s, coid, d.order, t.now), d.key);
                if s.live is Some {
                    law_slot_put(st.slots, d.key, moved(s, s.live->0, d.order, t).0, d.key);
                }
                lemma_settled_keys(n.0, n.1, desired, i + 1, t, gaps);
            },
        }
    }
}

/// Bringing orders about leaves no key with two slots.
pub proof fn law_reconcile_keeps_state_sound(
    st: StateV,
    out: Seq<ActionV>,
    desired: Seq<DesiredSlot>,
    t: Terms,
    gaps: Seq<Option<u64>>,
)
    requires
        st.wf(),
    ensures
        reconciled(st, out, desired, t, gaps) matches Some(n) ==> n.0.wf(),
{
    lemma_settled_keys(st, out, desired, 0, t, gaps);
    match settled_from(st, out, desired, 0, t, gaps) {
        None => {},
        Some(n) => {
            lemma_swept_keys(n.0.slots, n.1, desired, 0, t);
        },
    }
}

proof fn lemma_swept_done(
    slots: Seq<(SlotKey, SlotV)>,
    out: Seq<ActionV>,
    desired: Seq<DesiredSlot>,
    i: int,
    t: Terms,
)
    requires
        0 <= i <= slots.len(),
        forall|j: int| 0 <= j < i ==> !stray(#[trigger] slots[j], desired),
    ensures
        swept_from(slots, out, desired, i, t).0.len() == slots.len(),
        forall|j: int|
            0 <= j < slots.len() ==> !stray(
                #[trigger] swept_from(slots, out, desired, i, t).0[j],
                desired,
            ),
    decreases slots.len() - i,
{
    if i < slots.len() {
        if stray(slots[i], desired) {
            let next = slots.update(i, (slots[i].0, slots[i].1.withdrawn(t.now)));
            lemma_swept_done(
                next,
                out.push(
                    ActionV::Cancel {
                        coid: slots[i].1.live->0.coid,
                        venue: t.venue,
                        symbol: t.symbol,
                    },
                ),
                desired,
                i + 1,
                t,
            );
        } else {
            lemma_swept_done(slots, out, desired, i + 1, t);
        }
    }
}

/// When orders were brought about, no order works that should not stand.
pub proof fn law_no_stray_order_is_left(
    st: StateV,
    out: Seq<ActionV>,
    desired: Seq<DesiredSlot>,
    t: Terms,
    gaps: Seq<Option<u64>>,
    i: int,
)
    requires
        reconciled(st, out, desired, t, gaps) is Some,
        0 <= i < (reconciled(st, out, desired, t, gaps)->0).0.slots.len(),
    ensures
        !stray((reconciled(st, out, desired, t, gaps)->0).0.slots[i], desired),
{
    let n = settled_from(st, out, desired, 0, t, gaps)->0;
    lemma_swept_done(n.0.slots, n.1, desired, 0, t);
}

/// How far a working order lies off is read from the price that it should have and the price that it has, over the
/// fair price; without a fair price, or over one of nothing, it lies as far off as can be.
pub proof fn law_gaps_are_those_of_working_orders(
    st: StateV,
    desired: Seq<DesiredSlot>,
    fair: Option<Px>,
    gaps: Seq<Option<u64>>,
    i: int,
    l: LiveV,
)
    requires
        gaps_read_as(st, desired, fair, gaps),
        0 <= i < desired.len(),
        slot_at(st.slots, desired[i].key).state == SlotStateKind::Live,
        slot_at(st.slots, desired[i].key).live == Some(l),
    ensures
        fair is None || (fair->0).0.mantissa == 0 ==> gaps[i] == Some(MAX_BITS),
        fair is Some && (fair->0).0.mantissa != 0 ==> match decimal_difference(
            desired[i].order.px.0,
            l.px.0,
        ) {
            None => gaps[i] is None,
            Some(d) => d.wf() ==> match decimal_quotient(
                if d.mantissa < 0 {
                    d.negated()
                } else {
                    d
                },
                (fair->0).0,
            ) {
                None => gaps[i] is None,
                Some(q) => gaps[i] matches Some(bits) && reads_as(q, bits),
            },
        },
{
    let g = gaps[i];
    assert(slot_gap_reads_as(slot_at(st.slots, desired[i].key), desired[i].order, fair, g));
}

} // verus!
