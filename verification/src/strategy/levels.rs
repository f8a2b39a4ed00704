//! What the orders of a grid come to: how much each is for, and where it stands.
use crate::config::{positive, GridLevel, StrategyConfig};
use crate::strategy::conduct::is_over;
use crate::strategy::machine::{exits_from, leaving_order, leaving_px};
use crate::strategy::quote::{
    buy_figures, buy_rounds_well, grid_from, level_buy_px, level_figures, level_orders, level_qty,
    level_sell_px, maker_exit, profit_figures, sell_figures, sell_rounds_well, DesiredSlot,
};
use crate::types::book::TopOfBook;
use crate::types::decimal::{
    dec_one, dec_zero, decimal_difference, decimal_product, decimal_sum, difference_fits,
    law_order_is_by_worth, lemma_sign, product_fits, quotient_precision, sum_fits, unit_worth,
    worth, Decimal,
};
use crate::types::ids::{Purpose, Side};
use crate::types::instrument::{
    ceils_well, floors_well, law_rounding_stays_within_a_tick, law_size_is_worth_its_notional,
    size_room, sized, tick_ceil, tick_floor, ticks_above, ticks_below, Instrument,
};
use crate::types::num::Px;
use crate::types::order::{OrderType, TimeInForce};
use crate::types::position::{ExitPhase, Lot};
use vstd::arithmetic::power::lemma_pow_positive;
use vstd::prelude::*;

verus! {

/// The notional amount of a size that is worth `n`, at a price and for a contract size.
pub open spec fn amount_of(n: int, fair: Px, inst: Instrument) -> int {
    n * worth(fair.0) * worth(inst.contract_size)
}

/// The notional amount of a level.
pub open spec fn level_amount(lvl: GridLevel) -> int {
    worth(lvl.size) * unit_worth() * unit_worth()
}

/// A size carries a level's amount. Where the amount buys a lot or more, the size is a whole number of lots
/// that comes to the amount, or falls short of it by less than a lot; where it buys less than a lot, the size
/// is the smallest order. All this up to the rounding of two quotients.
pub open spec fn carries_amount(qty: Decimal, fair: Px, lvl: GridLevel, inst: Instrument) -> bool {
    let k = quotient_precision();
    let room = size_room(lvl.size, fair.0, inst.contract_size);
    let whole = level_amount(lvl);
    let lot = worth(inst.lot_size);
    &&& k * (whole - amount_of(lot, fair, inst)) > room ==> {
        &&& k * (amount_of(worth(qty), fair, inst) - whole) <= room
        &&& k * (whole - amount_of(worth(qty) + lot, fair, inst)) <= room
    }
    &&& k * (amount_of(lot, fair, inst) - whole) > room ==> qty == inst.min_qty.larger(inst.lot_size)
}

/// A level and an instrument can be sized: the figures are positive and can be rounded to lots.
pub open spec fn can_be_sized(fair: Px, lvl: GridLevel, inst: Instrument) -> bool {
    &&& fair.0.mantissa > 0 && inst.contract_size.mantissa > 0 && lvl.size.mantissa >= 0
    &&& inst.lot_size.wf() && inst.lot_size.mantissa > 0
    &&& sized(lvl.size, fair, inst.contract_size) matches Some(raw) ==> floors_well(raw, inst.lot_size)
}

proof fn lemma_level_amount(
    fair: Px,
    lvl: GridLevel,
    inst: Instrument,
    allow_buy: bool,
    allow_sell: bool,
    book: Option<TopOfBook>,
)
    requires
        level_figures(fair, lvl, inst, allow_buy, allow_sell, book),
        can_be_sized(fair, lvl, inst),
        level_qty(fair, lvl, inst) is Some,
    ensures
        carries_amount(level_qty(fair, lvl, inst)->0, fair, lvl, inst),
        (level_qty(fair, lvl, inst)->0).mantissa > 0,
{
    let raw = sized(lvl.size, fair, inst.contract_size)->0;
    let q = tick_floor(raw, inst.lot_size)->0;
    let qty = level_qty(fair, lvl, inst)->0;
    law_size_is_worth_its_notional(lvl.size, fair, inst.contract_size);
    let n = ticks_below(raw, inst.lot_size);
    lemma_sign(fair.0);
    lemma_sign(inst.contract_size);
    law_order_is_by_worth(fair.0, fair.0);
    law_order_is_by_worth(inst.contract_size, inst.contract_size);
    lemma_sign(inst.lot_size);
    lemma_sign(inst.min_qty);
    lemma_sign(q);
    law_rounding_stays_within_a_tick(raw, inst.lot_size, q, n);
    law_order_is_by_worth(q, q);
    law_order_is_by_worth(inst.lot_size, inst.lot_size);
    let p = worth(fair.0);
    let c = worth(inst.contract_size);
    let r = worth(raw);
    let l = worth(inst.lot_size);
    let w = worth(q);
    let pc = p * c;
    let k = quotient_precision();
    assert(pc > 0) by (nonlinear_arith)
        requires
            pc == p * c,
            p > 0,
            c > 0,
    ;
    assert(r * p * c == r * pc && l * p * c == l * pc && w * p * c == w * pc && (w + l) * p * c
        == (w + l) * pc) by (nonlinear_arith)
        requires
            pc == p * c,
    ;
    let whole = level_amount(lvl);
    let room = size_room(lvl.size, fair.0, inst.contract_size);
    assert(k * (whole - l * pc) > room ==> r > l) by (nonlinear_arith)
        requires
            k * (r * pc - whole) <= room,
            -(k * (r * pc - whole)) <= room,
            pc > 0,
            k > 0,
    ;
    assert(k * (l * pc - whole) > room ==> r < l) by (nonlinear_arith)
        requires
            k * (r * pc - whole) <= room,
            -(k * (r * pc - whole)) <= room,
            pc > 0,
            k > 0,
    ;
    assert(w > 0 <==> n >= 1) by (nonlinear_arith)
        requires
            w == n * l,
            l > 0,
    ;
    assert(r >= l ==> n >= 1) by (nonlinear_arith)
        requires
            w == n * l,
            r < w + l,
            l > 0,
    ;
    assert(r < l ==> n < 1) by (nonlinear_arith)
        requires
            w == n * l,
            w <= r,
            l > 0,
    ;
    assert(k * (w * pc - whole) <= room) by (nonlinear_arith)
        requires
            k * (r * pc - whole) <= room,
            w <= r,
            pc > 0,
            k > 0,
    ;
    assert(k * (whole - (w + l) * pc) <= room) by (nonlinear_arith)
        requires
            -(k * (r * pc - whole)) <= room,
            r < w + l,
            pc > 0,
            k > 0,
    ;
    if !positive(q) {
        assert(qty == inst.min_qty.larger(inst.lot_size));
        lemma_larger_positive(inst.min_qty, inst.lot_size);
    }
}

proof fn lemma_larger_positive(a: Decimal, b: Decimal)
    requires
        b.mantissa > 0,
    ensures
        a.larger(b).mantissa > 0,
{
    if !a.is_below(b) && a.mantissa <= 0 {
        let x = crate::types::decimal::pow10(a.scale as nat);
        let y = crate::types::decimal::pow10(b.scale as nat);
        lemma_pow_positive(10, a.scale as nat);
        lemma_pow_positive(10, b.scale as nat);
        assert(a.mantissa * y <= 0) by (nonlinear_arith)
            requires
                a.mantissa <= 0,
                y > 0,
        ;
        assert(b.mantissa * x > 0) by (nonlinear_arith)
            requires
                b.mantissa > 0,
                x > 0,
        ;
    }
}

/// A buy keeps its level's distance below the fair price and stays a tick below the best ask, and stands no
/// further off than the next tick.
pub open spec fn buy_stands(px: Decimal, fair: Px, lvl: GridLevel, tick: Decimal, book: Option<TopOfBook>)
    -> bool {
    let u = unit_worth();
    let mark = worth(fair.0) * (u - worth(lvl.distance));
    let next = worth(px) + worth(tick);
    &&& worth(px) * u <= mark
    &&& book matches Some(b) ==> next <= worth(b.ask_px.0)
    &&& next * u > mark || (book matches Some(b) && next + worth(tick) > worth(b.ask_px.0))
}

/// A sell keeps its level's distance above the fair price and stays a tick above the best bid, and stands no
/// further off than the next tick.
pub open spec fn sell_stands(px: Decimal, fair: Px, lvl: GridLevel, tick: Decimal, book: Option<TopOfBook>)
    -> bool {
    let u = unit_worth();
    let mark = worth(fair.0) * (u + worth(lvl.distance));
    let next = worth(px) - worth(tick);
    &&& worth(px) * u >= mark
    &&& book matches Some(b) ==> next >= worth(b.bid_px.0)
    &&& next * u < mark || (book matches Some(b) && next - worth(tick) < worth(b.bid_px.0))
}

/// A level's buy can be priced without rounding other than to ticks.
pub open spec fn buy_fits(fair: Px, lvl: GridLevel, tick: Decimal, book: Option<TopOfBook>) -> bool {
    &&& tick.wf() && tick.mantissa > 0
    &&& difference_fits(dec_one(), lvl.distance)
    &&& decimal_difference(dec_one(), lvl.distance) matches Some(f) ==> product_fits(fair.0, f)
    &&& book matches Some(b) ==> difference_fits(b.ask_px.0, tick)
    &&& buy_rounds_well(fair, lvl, tick, book)
}

/// A level's sell can be priced without rounding other than to ticks.
pub open spec fn sell_fits(fair: Px, lvl: GridLevel, tick: Decimal, book: Option<TopOfBook>) -> bool {
    &&& tick.wf() && tick.mantissa > 0
    &&& sum_fits(dec_one(), lvl.distance)
    &&& decimal_sum(dec_one(), lvl.distance) matches Some(f) ==> product_fits(fair.0, f)
    &&& book matches Some(b) ==> sum_fits(b.bid_px.0, tick)
    &&& sell_rounds_well(fair, lvl, tick, book)
}

proof fn lemma_buy_stands(fair: Px, lvl: GridLevel, tick: Decimal, book: Option<TopOfBook>)
    requires
        buy_figures(fair, lvl, tick, book),
        buy_fits(fair, lvl, tick, book),
        level_buy_px(fair, lvl, tick, book) is Some,
    ensures
        buy_stands(level_buy_px(fair, lvl, tick, book)->0, fair, lvl, tick, book),
        (level_buy_px(fair, lvl, tick, book)->0).wf(),
{
    let px = level_buy_px(fair, lvl, tick, book)->0;
    let f = decimal_difference(dec_one(), lvl.distance)->0;
    let raw = decimal_product(fair.0, f)->0;
    let v = tick_floor(raw, tick)->0;
    let u = unit_worth();
    lemma_one_worth();
    lemma_sign(tick);
    law_rounding_stays_within_a_tick(raw, tick, v, ticks_below(raw, tick));
    let mark = worth(fair.0) * worth(f);
    assert(worth(f) == u - worth(lvl.distance));
    let r = worth(raw);
    let w = worth(v);
    let t = worth(tick);
    assert(w * u <= r * u && (w + t) * u > r * u) by (nonlinear_arith)
        requires
            w <= r < w + t,
            u > 0,
    ;
    if let Some(b) = book {
        let cap = decimal_difference(b.ask_px.0, tick)->0;
        law_order_is_by_worth(cap, v);
        if cap.is_below(v) {
            law_rounding_stays_within_a_tick(cap, tick, px, ticks_below(cap, tick));
            let x = worth(px);
            assert(x * u <= r * u) by (nonlinear_arith)
                requires
                    x <= r,
                    u > 0,
            ;
        }
    }
}

proof fn lemma_sell_stands(fair: Px, lvl: GridLevel, tick: Decimal, book: Option<TopOfBook>)
    requires
        sell_figures(fair, lvl, tick, book),
        sell_fits(fair, lvl, tick, book),
        level_sell_px(fair, lvl, tick, book) is Some,
    ensures
        sell_stands(level_sell_px(fair, lvl, tick, book)->0, fair, lvl, tick, book),
        (level_sell_px(fair, lvl, tick, book)->0).wf(),
{
    let px = level_sell_px(fair, lvl, tick, book)->0;
    let f = decimal_sum(dec_one(), lvl.distance)->0;
    let raw = decimal_product(fair.0, f)->0;
    let v = tick_ceil(raw, tick)->0;
    let u = unit_worth();
    lemma_one_worth();
    lemma_sign(tick);
    law_rounding_stays_within_a_tick(raw, tick, v, ticks_above(raw, tick));
    assert(worth(f) == u + worth(lvl.distance));
    let r = worth(raw);
    let w = worth(v);
    let t = worth(tick);
    assert(w * u >= r * u && (w - t) * u < r * u) by (nonlinear_arith)
        requires
            w - t < r <= w,
            u > 0,
    ;
    if let Some(b) = book {
        let floor = decimal_sum(b.bid_px.0, tick)->0;
        law_order_is_by_worth(v, floor);
        if v.is_below(floor) {
            law_rounding_stays_within_a_tick(floor, tick, px, ticks_above(floor, tick));
            let x = worth(px);
            assert(x * u >= r * u) by (nonlinear_arith)
                requires
                    x >= r,
                    u > 0,
            ;
        }
    }
}

proof fn lemma_one_worth()
    ensures
        worth(dec_one()) == unit_worth(),
        unit_worth() > 0,
{
    lemma_pow_positive(10, 28);
    assert(1 * unit_worth() == unit_worth());
}

/// The orders of a grid are those of its levels, and of every level all are there.
proof fn lemma_grid_members(
    fair: Px,
    levels: Seq<GridLevel>,
    i: int,
    inst: Instrument,
    buy: bool,
    sell: bool,
    book: Option<TopOfBook>,
    acc: Seq<DesiredSlot>,
)
    requires
        0 <= i <= levels.len(),
        grid_from(fair, levels, i, inst, buy, sell, book, acc) is Some,
    ensures
        ({
            let v = grid_from(fair, levels, i, inst, buy, sell, book, acc)->0;
            &&& forall|d: DesiredSlot| #[trigger]
                v.contains(d) ==> acc.contains(d) || exists|n: int|
                    i <= n < levels.len() && of_level(fair, levels, n, inst, buy, sell, book, d)
            &&& forall|d: DesiredSlot| #[trigger] acc.contains(d) ==> v.contains(d)
            &&& forall|n: int|
                #![trigger levels[n]]
                i <= n < levels.len() ==> level_orders(
                    fair,
                    levels[n],
                    (n % 256) as u8,
                    inst,
                    buy,
                    sell,
                    book,
                ) is Some
            &&& forall|n: int, d: DesiredSlot| #[trigger]
                of_level(fair, levels, n, inst, buy, sell, book, d) && i <= n < levels.len()
                    ==> v.contains(d)
        }),
    decreases levels.len() - i,
{
    if i < levels.len() {
        let l = level_orders(fair, levels[i], (i % 256) as u8, inst, buy, sell, book)->0;
        let next = acc + l;
        lemma_grid_members(fair, levels, i + 1, inst, buy, sell, book, next);
        let v = grid_from(fair, levels, i, inst, buy, sell, book, acc)->0;
        assert forall|d: DesiredSlot| next.contains(d) <==> acc.contains(d) || l.contains(d) by {
            if next.contains(d) {
                let j = choose|j: int| 0 <= j < next.len() && next[j] == d;
                if j < acc.len() {
                    assert(acc[j] == d);
                } else {
                    assert(l[j - acc.len()] == d);
                }
            }
            if acc.contains(d) {
                let j = choose|j: int| 0 <= j < acc.len() && acc[j] == d;
                assert(next[j] == d);
            }
            if l.contains(d) {
                let j = choose|j: int| 0 <= j < l.len() && l[j] == d;
                assert(next[acc.len() + j] == d);
            }
        }
        assert forall|d: DesiredSlot| #[trigger] v.contains(d) implies acc.contains(d) || exists|
            n: int,
        |
            i <= n < levels.len() && of_level(fair, levels, n, inst, buy, sell, book, d) by {
            if next.contains(d) && !acc.contains(d) {
                assert(of_level(fair, levels, i, inst, buy, sell, book, d));
            }
        }
        assert forall|n: int, d: DesiredSlot| #[trigger]
            of_level(fair, levels, n, inst, buy, sell, book, d) && i <= n
                < levels.len() implies v.contains(d) by {
            if n == i {
                assert(next.contains(d));
            }
        }
    }
}

/// An order is one of the level at place `n`.
pub open spec fn of_level(
    fair: Px,
    levels: Seq<GridLevel>,
    n: int,
    inst: Instrument,
    buy: bool,
    sell: bool,
    book: Option<TopOfBook>,
    d: DesiredSlot,
) -> bool {
    level_orders(fair, levels[n], (n % 256) as u8, inst, buy, sell, book) matches Some(l)
        && l.contains(d)
}

/// An order does what a level is for: it quotes passively under the level's number, carries the level's
/// amount, and stands at the level's distance.
pub open spec fn serves_level(
    d: DesiredSlot,
    n: int,
    fair: Px,
    lvl: GridLevel,
    inst: Instrument,
    book: Option<TopOfBook>,
) -> bool {
    &&& d.key.purpose == Purpose::GridEntry && d.key.index == n % 256
    &&& !d.order.reduce_only && d.order.tif == TimeInForce::PostOnly && d.order.order_type
        == OrderType::Limit
    &&& d.order.px.0.mantissa > 0
    &&& can_be_sized(fair, lvl, inst) ==> carries_amount(d.order.qty.0, fair, lvl, inst)
        && d.order.qty.0.mantissa > 0
    &&& d.key.side == Side::Buy && buy_fits(fair, lvl, inst.tick_size, book) ==> buy_stands(
        d.order.px.0,
        fair,
        lvl,
        inst.tick_size,
        book,
    )
    &&& d.key.side == Side::Sell && sell_fits(fair, lvl, inst.tick_size, book) ==> sell_stands(
        d.order.px.0,
        fair,
        lvl,
        inst.tick_size,
        book,
    )
}

proof fn lemma_serves(
    fair: Px,
    levels: Seq<GridLevel>,
    n: int,
    inst: Instrument,
    buy: bool,
    sell: bool,
    book: Option<TopOfBook>,
    d: DesiredSlot,
)
    requires
        0 <= n < levels.len(),
        level_figures(fair, levels[n], inst, buy, sell, book),
        of_level(fair, levels, n, inst, buy, sell, book, d),
    ensures
        serves_level(d, n, fair, levels[n], inst, book),
        d.key.side == Side::Buy ==> buy,
        d.key.side == Side::Sell ==> sell,
{
    let lvl = levels[n];
    let tick = inst.tick_size;
    lemma_sign(d.order.px.0);
    if can_be_sized(fair, lvl, inst) {
        lemma_level_amount(fair, lvl, inst, buy, sell, book);
    }
    if d.key.side == Side::Buy {
        if buy_fits(fair, lvl, tick, book) {
            lemma_buy_stands(fair, lvl, tick, book);
        }
    } else if sell_fits(fair, lvl, tick, book) {
        lemma_sell_stands(fair, lvl, tick, book);
    }
}

/// Every order of the grid serves one of its levels, on a side that is allowed.
pub proof fn law_grid_orders_serve_their_level(
    fair: Px,
    levels: Seq<GridLevel>,
    inst: Instrument,
    buy: bool,
    sell: bool,
    book: Option<TopOfBook>,
    j: int,
)
    requires
        grid_from(fair, levels, 0, inst, buy, sell, book, Seq::empty()) is Some,
        forall|i: int|
            0 <= i < levels.len() ==> level_figures(
                fair,
                #[trigger] levels[i],
                inst,
                buy,
                sell,
                book,
            ),
        0 <= j < (grid_from(fair, levels, 0, inst, buy, sell, book, Seq::empty())->0).len(),
    ensures
        ({
            let d = (grid_from(fair, levels, 0, inst, buy, sell, book, Seq::empty())->0)[j];
            &&& d.key.side == Side::Buy ==> buy
            &&& d.key.side == Side::Sell ==> sell
            &&& exists|n: int|
                0 <= n < levels.len() && serves_level(d, n, fair, #[trigger] levels[n], inst, book)
        }),
{
    let v = grid_from(fair, levels, 0, inst, buy, sell, book, Seq::empty())->0;
    let d = v[j];
    lemma_grid_members(fair, levels, 0, inst, buy, sell, book, Seq::empty());
    assert(v.contains(d));
    let n = choose|n: int|
        0 <= n < levels.len() && of_level(fair, levels, n, inst, buy, sell, book, d);
    lemma_serves(fair, levels, n, inst, buy, sell, book, d);
    assert(serves_level(d, n, fair, levels[n], inst, book));
}

/// A level whose price leaves at least a tick has an order on every side that is allowed.
pub proof fn law_every_level_is_quoted(
    fair: Px,
    levels: Seq<GridLevel>,
    inst: Instrument,
    buy: bool,
    sell: bool,
    book: Option<TopOfBook>,
    n: int,
)
    requires
        grid_from(fair, levels, 0, inst, buy, sell, book, Seq::empty()) is Some,
        0 <= n < levels.len(),
        level_figures(fair, levels[n], inst, buy, sell, book),
        can_be_sized(fair, levels[n], inst),
    ensures
        ({
            let v = grid_from(fair, levels, 0, inst, buy, sell, book, Seq::empty())->0;
            let lvl = levels[n];
            let tick = inst.tick_size;
            let u = unit_worth();
            &&& buy && buy_fits(fair, lvl, tick, book) && worth(fair.0) * (u - worth(lvl.distance))
                >= worth(tick) * u && (book matches Some(b) ==> worth(b.ask_px.0) >= 2 * worth(tick))
                ==> exists|d: DesiredSlot| #[trigger]
                v.contains(d) && d.key.side == Side::Buy && serves_level(d, n, fair, lvl, inst, book)
            &&& sell && sell_fits(fair, lvl, tick, book) && worth(lvl.distance) >= 0 ==> exists|
                d: DesiredSlot,
            | #[trigger]
                v.contains(d) && d.key.side == Side::Sell && serves_level(d, n, fair, lvl, inst, book)
        }),
{
    let v = grid_from(fair, levels, 0, inst, buy, sell, book, Seq::empty())->0;
    let lvl = levels[n];
    let tick = inst.tick_size;
    let u = unit_worth();
    lemma_grid_members(fair, levels, 0, inst, buy, sell, book, Seq::empty());
    lemma_level_amount(fair, lvl, inst, buy, sell, book);
    lemma_one_worth();
    let index = (n % 256) as u8;
    let q = level_qty(fair, lvl, inst)->0;
    lemma_sign(q);
    let l = level_orders(fair, lvl, index, inst, buy, sell, book)->0;
    let wt = worth(tick);
    lemma_sign(tick);
    if buy && buy_fits(fair, lvl, tick, book) && worth(fair.0) * (u - worth(lvl.distance)) >= worth(
        tick,
    ) * u && (book matches Some(b) ==> worth(b.ask_px.0) >= 2 * worth(tick)) {
        law_order_is_by_worth(tick, tick);
        let px = level_buy_px(fair, lvl, tick, book)->0;
        lemma_buy_stands(fair, lvl, tick, book);
        law_order_is_by_worth(px, px);
        let w = worth(px);
        assert((w + wt) * u > wt * u ==> w > 0) by (nonlinear_arith)
            requires
                u > 0,
        ;
        let d = crate::strategy::quote::grid_order(Side::Buy, index, px, q);
        assert(l[0] == d);
        assert(of_level(fair, levels, n, inst, buy, sell, book, d));
        lemma_serves(fair, levels, n, inst, buy, sell, book, d);
        assert(v.contains(d));
    }
    if sell && sell_fits(fair, lvl, tick, book) && worth(lvl.distance) >= 0 {
        law_order_is_by_worth(tick, tick);
        let px = level_sell_px(fair, lvl, tick, book)->0;
        lemma_sell_stands(fair, lvl, tick, book);
        law_order_is_by_worth(px, px);
        lemma_fair_positive(fair, lvl, inst, buy, sell, book);
        let w = worth(px);
        let p = worth(fair.0);
        let m = u + worth(lvl.distance);
        assert(w > 0) by (nonlinear_arith)
            requires
                w * u >= p * m,
                p > 0,
                m > 0,
                u > 0,
        ;
        let d = crate::strategy::quote::grid_order(Side::Sell, index, px, q);
        assert(l[l.len() - 1] == d);
        assert(of_level(fair, levels, n, inst, buy, sell, book, d));
        lemma_serves(fair, levels, n, inst, buy, sell, book, d);
        assert(v.contains(d));
    }
}

proof fn lemma_fair_positive(
    fair: Px,
    lvl: GridLevel,
    inst: Instrument,
    buy: bool,
    sell: bool,
    book: Option<TopOfBook>,
)
    requires
        level_figures(fair, lvl, inst, buy, sell, book),
        can_be_sized(fair, lvl, inst),
        level_qty(fair, lvl, inst) is Some,
    ensures
        worth(fair.0) > 0,
{
    lemma_sign(fair.0);
    lemma_sign(inst.contract_size);
    law_order_is_by_worth(fair.0, fair.0);
}

/// A profit's price can be worked out without rounding other than to ticks.
pub open spec fn profit_fits(entry: Px, side: Side, take_profit: Decimal, tick: Decimal) -> bool {
    &&& tick.wf() && tick.mantissa > 0
    &&& side == Side::Buy ==> sum_fits(dec_one(), take_profit) && (decimal_sum(dec_one(), take_profit)
        matches Some(f) ==> product_fits(entry.0, f) && (decimal_product(entry.0, f) matches Some(t)
        ==> ceils_well(t, tick)))
    &&& side == Side::Sell ==> difference_fits(dec_one(), take_profit) && (decimal_difference(
        dec_one(),
        take_profit,
    ) matches Some(f) ==> product_fits(entry.0, f) && (decimal_product(entry.0, f) matches Some(t)
        ==> floors_well(t, tick)))
}

/// A lot that was bought is offered at its price and the profit on top, rounded up to the next tick; one that
/// was sold is bid for at its price less the profit, rounded down to the next tick.
pub proof fn law_exit_makes_its_profit(entry: Px, side: Side, take_profit: Decimal, tick: Decimal)
    requires
        profit_figures(entry, side, take_profit, tick),
        profit_fits(entry, side, take_profit, tick),
        maker_exit(entry, side, take_profit, tick) is Some,
    ensures
        ({
            let px = worth((maker_exit(entry, side, take_profit, tick)->0).0);
            let u = unit_worth();
            let up = worth(entry.0) * (u + worth(take_profit));
            let down = worth(entry.0) * (u - worth(take_profit));
            &&& side == Side::Buy ==> px * u >= up && (px - worth(tick)) * u < up
            &&& side == Side::Sell ==> px * u <= down && (px + worth(tick)) * u > down
        }),
{
    let v = (maker_exit(entry, side, take_profit, tick)->0).0;
    let u = unit_worth();
    lemma_one_worth();
    lemma_sign(tick);
    let t = worth(tick);
    let x = worth(v);
    match side {
        Side::Buy => {
            let f = decimal_sum(dec_one(), take_profit)->0;
            let raw = decimal_product(entry.0, f)->0;
            law_rounding_stays_within_a_tick(raw, tick, v, ticks_above(raw, tick));
            let r = worth(raw);
            assert(x * u >= r * u && (x - t) * u < r * u) by (nonlinear_arith)
                requires
                    x - t < r <= x,
                    u > 0,
            ;
        },
        Side::Sell => {
            let f = decimal_difference(dec_one(), take_profit)->0;
            let raw = decimal_product(entry.0, f)->0;
            law_rounding_stays_within_a_tick(raw, tick, v, ticks_below(raw, tick));
            let r = worth(raw);
            assert(x * u <= r * u && (x + t) * u > r * u) by (nonlinear_arith)
                requires
                    x <= r < x + t,
                    u > 0,
            ;
        },
    }
}

/// An order lets a lot leave: it closes all that remains of it, on the other side, and can only reduce. With the
/// taker it is a market order at the other side's best price; with the maker it is a limit order that never
/// takes, at the price that makes the profit, or for the fast exit at its own side's best price.
pub open spec fn lets_leave(
    lot: Lot,
    d: DesiredSlot,
    cfg: StrategyConfig,
    maker: Instrument,
    book: Option<TopOfBook>,
) -> bool {
    let taker = lot.phase == ExitPhase::TakerExit;
    &&& d.key.purpose == Purpose::Exit && d.key.side != lot.side && d.key.index == lot.id.0 % 200
    &&& d.order.qty == lot.remaining && d.order.reduce_only
    &&& taker ==> d.order.order_type == OrderType::Market && d.order.tif == TimeInForce::Ioc
    &&& !taker ==> d.order.order_type == OrderType::Limit && d.order.tif == TimeInForce::PostOnly
    &&& taker ==> d.order.px == (match book {
        Some(b) => if lot.side == Side::Buy {
            b.bid_px
        } else {
            b.ask_px
        },
        None => lot.entry_px,
    })
    &&& lot.phase == ExitPhase::MakerTp ==> maker_exit(
        lot.entry_px,
        lot.side,
        cfg.exit.take_profit,
        maker.tick_size,
    ) == Some(d.order.px)
    &&& lot.phase == ExitPhase::FastMaker ==> match book {
        Some(b) => if lot.side == Side::Buy {
            tick_ceil(b.ask_px.0, maker.tick_size) == Some(d.order.px.0)
        } else {
            tick_floor(b.bid_px.0, maker.tick_size) == Some(d.order.px.0)
        },
        None => maker_exit(lot.entry_px, lot.side, dec_zero(), maker.tick_size) == Some(d.order.px),
    }
}

/// `v` are orders for the lots of a list that are not over, in their order: `at` says which.
pub open spec fn all_leave(
    lots: Seq<Lot>,
    v: Seq<DesiredSlot>,
    at: Seq<int>,
    cfg: StrategyConfig,
    maker: Instrument,
    book: Option<TopOfBook>,
) -> bool {
    &&& v.len() == at.len()
    &&& forall|j: int| 0 <= j < at.len() ==> 0 <= #[trigger] at[j] < lots.len()
    &&& forall|j: int, k: int| 0 <= j < k < at.len() ==> #[trigger] at[j] < #[trigger] at[k]
    &&& forall|j: int|
        0 <= j < v.len() ==> lets_leave(lots[at[j]], #[trigger] v[j], cfg, maker, book)
    &&& forall|i: int| 0 <= i < lots.len() ==> (at.contains(i) <==> !is_over(#[trigger] lots[i]))
}

proof fn lemma_all_leave(
    lots: Seq<Lot>,
    i: int,
    cfg: StrategyConfig,
    maker: Instrument,
    book: Option<TopOfBook>,
    acc: Seq<DesiredSlot>,
    at: Seq<int>,
) -> (full: Seq<int>)
    requires
        0 <= i <= lots.len(),
        all_leave(lots.take(i), acc, at, cfg, maker, book),
        exits_from(lots, i, cfg, maker, book, acc) is Some,
    ensures
        all_leave(lots, exits_from(lots, i, cfg, maker, book, acc)->0, full, cfg, maker, book),
    decreases lots.len() - i,
{
    if i < lots.len() {
        let before = lots.take(i);
        let upto = lots.take(i + 1);
        assert(upto =~= before.push(lots[i]));
        if lots[i].remaining.0.zero_valued() || lots[i].phase == ExitPhase::Closed {
            assert(all_leave(upto, acc, at, cfg, maker, book)) by {
                assert forall|j: int| 0 <= j < acc.len() implies lets_leave(
                    upto[at[j]],
                    #[trigger] acc[j],
                    cfg,
                    maker,
                    book,
                ) by {
                    let w = at[j];
                    assert(0 <= w < before.len());
                    assert(upto[w] == before[w]);
                }
                assert forall|k: int| 0 <= k < upto.len() implies (at.contains(k) <==> !is_over(
                    #[trigger] upto[k],
                )) by {
                    if k < i {
                        assert(upto[k] == before[k]);
                    } else if at.contains(k) {
                        let j = choose|j: int| 0 <= j < at.len() && at[j] == k;
                        assert(0 <= at[j] < before.len());
                    }
                }
            }
            lemma_all_leave(lots, i + 1, cfg, maker, book, acc, at)
        } else {
            let px = leaving_px(lots[i], cfg, maker, book)->0;
            let d = leaving_order(lots[i], px);
            let more = acc.push(d);
            let more_at = at.push(i);
            assert(lets_leave(lots[i], d, cfg, maker, book));
            assert(all_leave(upto, more, more_at, cfg, maker, book)) by {
                assert forall|j: int| 0 <= j < more.len() implies lets_leave(
                    upto[more_at[j]],
                    #[trigger] more[j],
                    cfg,
                    maker,
                    book,
                ) by {
                    if j < acc.len() {
                        assert(more[j] == acc[j] && more_at[j] == at[j]);
                        let w = at[j];
                        assert(0 <= w < before.len());
                        assert(upto[w] == before[w]);
                    } else {
                        assert(upto[more_at[j]] == lots[i]);
                    }
                }
                assert forall|j: int| 0 <= j < more_at.len() implies 0 <= #[trigger] more_at[j]
                    < upto.len() by {
                    if j < at.len() {
                        assert(more_at[j] == at[j]);
                    }
                }
                assert forall|j: int, k: int| 0 <= j < k < more_at.len() implies (
                #[trigger] more_at[j]) < (#[trigger] more_at[k]) by {
                    assert(more_at[j] == at[j]);
                    assert(0 <= at[j] < before.len());
                    if k < at.len() {
                        assert(more_at[k] == at[k]);
                    }
                }
                assert forall|k: int| 0 <= k < upto.len() implies (more_at.contains(k) <==> !is_over(
                    #[trigger] upto[k],
                )) by {
                    if k < i {
                        assert(upto[k] == before[k]);
                        if at.contains(k) {
                            let j = choose|j: int| 0 <= j < at.len() && at[j] == k;
                            assert(more_at[j] == k);
                        }
                        if more_at.contains(k) {
                            let j = choose|j: int| 0 <= j < more_at.len() && more_at[j] == k;
                            assert(at[j] == k);
                        }
                    } else {
                        assert(more_at[at.len() as int] == k);
                    }
                }
            }
            lemma_all_leave(lots, i + 1, cfg, maker, book, more, more_at)
        }
    } else {
        assert(lots.take(i) =~= lots);
        at
    }
}

/// Every lot that is not over has one order that lets it leave, in the order of the lots, and there are no
/// others.
pub proof fn law_every_lot_can_leave(
    lots: Seq<Lot>,
    cfg: StrategyConfig,
    maker: Instrument,
    book: Option<TopOfBook>,
)
    requires
        exits_from(lots, 0, cfg, maker, book, Seq::empty()) is Some,
    ensures
        exists|at: Seq<int>| #[trigger]
            all_leave(
                lots,
                exits_from(lots, 0, cfg, maker, book, Seq::empty())->0,
                at,
                cfg,
                maker,
                book,
            ),
{
    let at = lemma_all_leave(lots, 0, cfg, maker, book, Seq::empty(), Seq::empty());
}

} // verus!
