//! Instruments and how prices and sizes are rounded on them.
use crate::types::decimal::{
    at_scale, close_quotient, common_scale, dec_zero, decimal_ceil, decimal_floor, decimal_product,
    decimal_quotient, divides, exact_product, fits, keeps_side, law_order_is_by_worth,
    lemma_rescale, lemma_sign, lemma_worth, pow10, quotient_precision, unit_worth, worth, Decimal,
    MAX_MANTISSA, MAX_SCALE,
};
use crate::types::ids::{Side, SymbolId, VenueId};
use crate::types::num::Px;
use vstd::arithmetic::div_mod::{lemma_fundamental_div_mod, lemma_mod_bound};
use vstd::arithmetic::power::{lemma_pow0, lemma_pow_adds, lemma_pow_positive};
use vstd::prelude::*;

verus! {

#[derive(Clone, Copy, Debug, PartialEq, Eq, Structural)]
pub enum ContractKind {
    Stock,
    Crypto,
    Other,
}

#[derive(Clone, Copy, Debug, PartialEq, Eq, Structural)]
pub enum InstrumentStatus {
    Trading,
    Halt,
    Closed,
}

#[derive(Debug)]
pub struct Instrument {
    pub venue: VenueId,
    pub symbol: SymbolId,
    pub native_symbol: String,
    pub tick_size: Decimal,
    pub lot_size: Decimal,
    pub contract_size: Decimal,
    pub min_qty: Decimal,
    pub min_notional: Decimal,
    pub quote_ccy: String,
    pub maker_fee: Decimal,
    pub taker_fee: Decimal,
    pub kind: ContractKind,
    pub status: InstrumentStatus,
    pub volume_24h: Decimal,
}

impl Clone for Instrument {
    fn clone(&self) -> (r: Self)
        ensures
            r == *self,
    {
        Instrument {
            venue: self.venue,
            symbol: self.symbol.clone(),
            native_symbol: self.native_symbol.clone(),
            tick_size: self.tick_size,
            lot_size: self.lot_size,
            contract_size: self.contract_size,
            min_qty: self.min_qty,
            min_notional: self.min_notional,
            quote_ccy: self.quote_ccy.clone(),
            maker_fee: self.maker_fee,
            taker_fee: self.taker_fee,
            kind: self.kind,
            status: self.status,
            volume_24h: self.volume_24h,
        }
    }
}

/// What is known of an instrument.
#[verifier::ext_equal]
pub struct InstV {
    pub venue: VenueId,
    pub symbol: Seq<char>,
    pub native_symbol: Seq<char>,
    pub tick_size: Decimal,
    pub lot_size: Decimal,
    pub contract_size: Decimal,
    pub min_qty: Decimal,
    pub min_notional: Decimal,
    pub quote_ccy: Seq<char>,
    pub maker_fee: Decimal,
    pub taker_fee: Decimal,
    pub kind: ContractKind,
    pub status: InstrumentStatus,
    pub volume_24h: Decimal,
}

impl View for Instrument {
    type V = InstV;

    open spec fn view(&self) -> InstV {
        InstV {
            venue: self.venue,
            symbol: self.symbol@,
            native_symbol: self.native_symbol@,
            tick_size: self.tick_size,
            lot_size: self.lot_size,
            contract_size: self.contract_size,
            min_qty: self.min_qty,
            min_notional: self.min_notional,
            quote_ccy: self.quote_ccy@,
            maker_fee: self.maker_fee,
            taker_fee: self.taker_fee,
            kind: self.kind,
            status: self.status,
            volume_24h: self.volume_24h,
        }
    }
}

/// What is known of a list of instruments.
pub open spec fn insts(v: Seq<Instrument>) -> Seq<InstV> {
    v.map_values(|i: Instrument| i@)
}

impl Instrument {
    pub fn is_tradable(&self) -> (r: bool)
        ensures
            r == (self.status == InstrumentStatus::Trading),
    {
        self.status == InstrumentStatus::Trading
    }
}

/// The whole number of ticks below a price, times the tick. A tick that is not positive leaves
/// the price as it is.
pub open spec fn tick_floor(px: Decimal, tick: Decimal) -> Option<Decimal> {
    if !dec_zero().is_below(tick) {
        Some(px)
    } else {
        match decimal_quotient(px, tick) {
            Some(q) => match decimal_floor(q) {
                Some(n) => decimal_product(n, tick),
                None => None,
            },
            None => None,
        }
    }
}

/// The whole number of ticks above a price, times the tick. A tick that is not positive leaves
/// the price as it is.
pub open spec fn tick_ceil(px: Decimal, tick: Decimal) -> Option<Decimal> {
    if !dec_zero().is_below(tick) {
        Some(px)
    } else {
        match decimal_quotient(px, tick) {
            Some(q) => match decimal_ceil(q) {
                Some(n) => decimal_product(n, tick),
                None => None,
            },
            None => None,
        }
    }
}

/// The size of an integer.
pub open spec fn size_of_int(n: int) -> int {
    if n < 0 {
        -n
    } else {
        n
    }
}

/// A price and a positive tick of fewer than 27 digits between them: so few that a rounded quotient
/// falls on the right side of every whole number of ticks.
pub open spec fn ordinary(px: Decimal, tick: Decimal) -> bool {
    let s = common_scale(px, tick);
    &&& tick.mantissa > 0
    &&& size_of_int(at_scale(px, s)) + at_scale(tick, s) < quotient_precision()
}

/// The greatest whole number of ticks that does not lie above a price.
pub open spec fn ticks_below(px: Decimal, tick: Decimal) -> int {
    let s = common_scale(px, tick);
    at_scale(px, s) / at_scale(tick, s)
}

/// The least whole number of ticks that does not lie below a price.
pub open spec fn ticks_above(px: Decimal, tick: Decimal) -> int {
    let s = common_scale(px, tick);
    -((-at_scale(px, s)) / at_scale(tick, s))
}

/// `v` is that many ticks.
pub open spec fn is_ticks(v: Decimal, tick: Decimal, n: int) -> bool {
    v.mantissa * pow10(tick.scale as nat) == (n * tick.mantissa) * pow10(v.scale as nat)
}

/// The computed quotient of a price and a tick is not rounded onto an integer: where it is one, the
/// price is that many ticks.
pub open spec fn lands_right(px: Decimal, tick: Decimal) -> bool {
    decimal_quotient(px, tick) matches Some(q) && (q.mantissa as int % pow10(q.scale as nat) == 0
        ==> is_ticks(px, tick, q.mantissa as int / pow10(q.scale as nat)))
}

/// That many ticks are a decimal of 96 bits with no more digits than the tick has.
pub open spec fn ticks_fit(n: int, tick: Decimal) -> bool {
    exists|k: nat|
        #![trigger pow10(k)]
        k <= tick.scale && (n * tick.mantissa) % pow10(k) == 0 && fits(
            (n * tick.mantissa) / pow10(k),
        )
}

/// A price can be rounded down to a whole number of ticks.
pub open spec fn floors_well(px: Decimal, tick: Decimal) -> bool {
    lands_right(px, tick) && ticks_fit(ticks_below(px, tick), tick)
}

/// A price can be rounded up to a whole number of ticks.
pub open spec fn ceils_well(px: Decimal, tick: Decimal) -> bool {
    lands_right(px, tick) && ticks_fit(ticks_above(px, tick), tick)
}

/// `r` is a price rounded down: the greatest whole number of ticks that does not lie above it. A tick
/// that is not positive leaves the price as it is.
pub open spec fn floored(px: Decimal, tick: Decimal, r: Option<Decimal>) -> bool {
    if tick.mantissa <= 0 {
        r == Some(px)
    } else {
        floors_well(px, tick) ==> (r matches Some(v) && is_ticks(v, tick, ticks_below(px, tick))
            && v.is_at_most(px) && v.wf())
    }
}

/// `r` is a price rounded up: the least whole number of ticks that does not lie below it. A tick that
/// is not positive leaves the price as it is.
pub open spec fn ceiled(px: Decimal, tick: Decimal, r: Option<Decimal>) -> bool {
    if tick.mantissa <= 0 {
        r == Some(px)
    } else {
        ceils_well(px, tick) ==> (r matches Some(v) && is_ticks(v, tick, ticks_above(px, tick))
            && px.is_at_most(v) && v.wf())
    }
}

/// Floor `px` to a multiple of `tick`. A price and a tick of fewer than 27 digits between them can be
/// rounded wherever they can be divided.
pub fn floor_to_tick(px: Decimal, tick: Decimal) -> (r: Option<Decimal>)
    ensures
        r == tick_floor(px, tick),
        floored(px, tick, r),
        ordinary(px, tick) && decimal_quotient(px, tick) is Some ==> floors_well(
            px,
            tick,
        ) && ceils_well(px, tick),
{
    if !tick.is_positive() {
        return Some(px);
    }
    let q = px.checked_div(tick)?;
    proof {
        if ordinary(px, tick) {
            lemma_ordinary(px, tick, q);
        }
        lemma_floor_value(q, decimal_floor(q)->0);
    }
    let n = q.floor()?;
    let v = n.checked_mul(tick);
    proof {
        if floors_well(px, tick) {
            lemma_floor(px, tick, q, n, v);
        }
    }
    v
}

/// Ceil `px` to a multiple of `tick`. A price and a tick of fewer than 27 digits between them can be
/// rounded wherever they can be divided.
pub fn ceil_to_tick(px: Decimal, tick: Decimal) -> (r: Option<Decimal>)
    ensures
        r == tick_ceil(px, tick),
        ceiled(px, tick, r),
        ordinary(px, tick) && decimal_quotient(px, tick) is Some ==> floors_well(
            px,
            tick,
        ) && ceils_well(px, tick),
{
    if !tick.is_positive() {
        return Some(px);
    }
    let q = px.checked_div(tick)?;
    proof {
        if ordinary(px, tick) {
            lemma_ordinary(px, tick, q);
        }
        lemma_ceil_value(q, decimal_ceil(q)->0);
    }
    let n = q.ceil()?;
    let v = n.checked_mul(tick);
    proof {
        if ceils_well(px, tick) {
            lemma_ceil(px, tick, q, n, v);
        }
    }
    v
}

/// A whole number of ticks does not lie above a price exactly where it is at most the number that the
/// price is rounded down to, and does not lie below it exactly where it is at least the number that the
/// price is rounded up to.
pub proof fn law_rounding_is_to_the_nearest_ticks(px: Decimal, tick: Decimal, v: Decimal, n: int)
    requires
        tick.mantissa > 0,
        is_ticks(v, tick, n),
    ensures
        v.is_at_most(px) <==> n <= ticks_below(px, tick),
        px.is_at_most(v) <==> n >= ticks_above(px, tick),
{
    let s = common_scale(px, tick);
    let p = at_scale(px, s);
    let t = at_scale(tick, s);
    lemma_at_scale_positive(tick, s);
    lemma_ticks_order(px, tick, v, n);
    lemma_count(p, t, n);
    lemma_count(-p, t, -n);
    assert((-n) * t == -(n * t)) by (nonlinear_arith);
}

proof fn lemma_count(p: int, t: int, n: int)
    requires
        t > 0,
    ensures
        n * t <= p <==> n <= p / t,
{
    lemma_fundamental_div_mod(p, t);
    lemma_mod_bound(p, t);
    let q = p / t;
    assert(t * q == q * t) by (nonlinear_arith);
    if n <= q {
        assert(n * t <= q * t) by (nonlinear_arith)
            requires
                n <= q,
                t > 0,
        ;
    } else {
        assert(n * t >= q * t + t) by (nonlinear_arith)
            requires
                n >= q + 1,
                t > 0,
        ;
    }
}

/// A price that is rounded stays within a tick: rounded down it is at most the price and more than the price
/// less a tick, rounded up at least the price and less than the price and a tick.
pub proof fn law_rounding_stays_within_a_tick(px: Decimal, tick: Decimal, v: Decimal, n: int)
    requires
        px.wf(),
        tick.wf(),
        v.scale <= MAX_SCALE,
        tick.mantissa > 0,
        is_ticks(v, tick, n),
    ensures
        worth(v) == n * worth(tick),
        n == ticks_below(px, tick) ==> worth(v) <= worth(px) < worth(v) + worth(tick),
        n == ticks_above(px, tick) ==> worth(v) - worth(tick) < worth(px) <= worth(v),
{
    let s = common_scale(px, tick);
    let p = at_scale(px, s);
    let t = at_scale(tick, s);
    let g = pow10((MAX_SCALE - s) as nat);
    lemma_pow_positive(10, (MAX_SCALE - s) as nat);
    lemma_at_scale_positive(tick, s);
    lemma_rescale(px, s);
    lemma_rescale(tick, s);
    lemma_is_ticks_worth(v, tick, n);
    lemma_fundamental_div_mod(p, t);
    lemma_mod_bound(p, t);
    lemma_fundamental_div_mod(-p, t);
    lemma_mod_bound(-p, t);
    let a = p / t;
    let b = (-p) / t;
    assert(t * a == a * t && t * b == b * t) by (nonlinear_arith);
    assert((-b) * t == -(b * t)) by (nonlinear_arith);
    assert(n * (t * g) == (n * t) * g) by (nonlinear_arith);
    if n == a {
        assert((n * t) * g <= p * g && p * g < (n * t) * g + t * g) by (nonlinear_arith)
            requires
                n * t <= p < n * t + t,
                g >= 1,
        ;
    }
    if n == -b {
        assert((n * t) * g - t * g < p * g && p * g <= (n * t) * g) by (nonlinear_arith)
            requires
                n * t - t < p <= n * t,
                g >= 1,
        ;
    }
}

proof fn lemma_is_ticks_worth(v: Decimal, tick: Decimal, n: int)
    requires
        v.scale <= MAX_SCALE,
        tick.scale <= MAX_SCALE,
        is_ticks(v, tick, n),
    ensures
        worth(v) == n * worth(tick),
{
    let pv = pow10(v.scale as nat);
    let pt = pow10(tick.scale as nat);
    let u = unit_worth();
    lemma_pow_positive(10, v.scale as nat);
    lemma_pow_positive(10, tick.scale as nat);
    lemma_worth(v);
    lemma_worth(tick);
    let x = worth(v);
    let y = worth(tick);
    let m = v.mantissa as int;
    let t = tick.mantissa as int;
    assert((x * pv) * pt == (m * pt) * u) by (nonlinear_arith)
        requires
            x * pv == m * u,
    ;
    assert(((n * y) * pv) * pt == ((n * t) * pv) * u) by (nonlinear_arith)
        requires
            y * pt == t * u,
    ;
    let w = pv * pt;
    assert(w > 0) by (nonlinear_arith)
        requires
            w == pv * pt,
            pv > 0,
            pt > 0,
    ;
    assert(x * w == (n * y) * w) by (nonlinear_arith)
        requires
            w == pv * pt,
            (x * pv) * pt == ((n * y) * pv) * pt,
    ;
    assert(x == n * y) by (nonlinear_arith)
        requires
            x * w == (n * y) * w,
            w > 0,
    ;
}

/// A price that is a whole number of ticks is rounded to itself.
pub proof fn law_whole_ticks_stay(px: Decimal, tick: Decimal, n: int)
    requires
        tick.mantissa > 0,
        is_ticks(px, tick, n),
    ensures
        ticks_below(px, tick) == n,
        ticks_above(px, tick) == n,
{
    let s = common_scale(px, tick);
    let p = at_scale(px, s);
    let t = at_scale(tick, s);
    lemma_at_scale_positive(tick, s);
    let m = lemma_common(px, tick, n);
    let x = ticks_at(n, px, tick);
    let pa = pow10(px.scale as nat);
    assert((n * tick.mantissa) * pa == n * (tick.mantissa * pa)) by (nonlinear_arith);
    assert(x == p) by (nonlinear_arith)
        requires
            m * x == m * p,
            m >= 1,
    ;
    assert((-n) * t == -(n * t)) by (nonlinear_arith);
    vstd::arithmetic::div_mod::lemma_fundamental_div_mod_converse(p, t, n, 0);
    vstd::arithmetic::div_mod::lemma_fundamental_div_mod_converse(-p, t, -n, 0);
}

proof fn lemma_whole(q: Decimal, n: int)
    ensures
        n == q.whole_below() ==> n * pow10(q.scale as nat) <= q.mantissa,
        n == q.whole_below() ==> q.mantissa < (n + 1) * pow10(q.scale as nat),
        n == q.whole_above() ==> n * pow10(q.scale as nat) >= q.mantissa,
        n == q.whole_above() ==> q.mantissa > (n - 1) * pow10(q.scale as nat),
{
    let p = pow10(q.scale as nat);
    lemma_pow_positive(10, q.scale as nat);
    lemma_fundamental_div_mod(q.mantissa as int, p);
    lemma_mod_bound(q.mantissa as int, p);
    lemma_fundamental_div_mod(-(q.mantissa as int), p);
    lemma_mod_bound(-(q.mantissa as int), p);
    let a = q.mantissa as int / p;
    let b = (-(q.mantissa as int)) / p;
    assert(a * p == p * a) by (nonlinear_arith);
    assert((a + 1) * p == p * a + p) by (nonlinear_arith);
    assert((-b) * p == -(p * b)) by (nonlinear_arith);
    assert((-b - 1) * p == -(p * b) - p) by (nonlinear_arith);
}

/// A count `n` of ticks that does not lie above the computed quotient does not lie above the
/// true one by more than the error of the computed one.
proof fn lemma_error_above(n: int, d: int, b: int, a: int, pa: int, pb: int, pd: int, k: int, f: int)
    requires
        n * pd <= d,
        b > 0,
        pa > 0,
        pd > 0,
        k > 0,
        k * (d * b * pa - a * pb * pd) <= pd * f,
    ensures
        k * (n * (b * pa) - a * pb) <= f,
{
    let c = b * pa;
    assert(c > 0) by (nonlinear_arith)
        requires
            b > 0,
            pa > 0,
            c == b * pa,
    ;
    assert(d * b * pa == d * c) by (nonlinear_arith)
        requires
            c == b * pa,
    ;
    assert((n * pd) * c <= d * c) by (nonlinear_arith)
        requires
            n * pd <= d,
            c > 0,
    ;
    let e = n * c - a * pb;
    assert(pd * e == (n * pd) * c - a * pb * pd) by (nonlinear_arith)
        requires
            e == n * c - a * pb,
    ;
    assert(k * (pd * e) <= k * (d * c - a * pb * pd)) by (nonlinear_arith)
        requires
            k > 0,
            pd * e <= d * c - a * pb * pd,
    ;
    assert(pd * (k * e) <= pd * f) by (nonlinear_arith)
        requires
            k * (pd * e) <= pd * f,
    ;
    assert(k * e <= f) by (nonlinear_arith)
        requires
            pd * (k * e) <= pd * f,
            pd > 0,
    ;
}

/// The mirror image: a count that does not lie below the computed quotient.
proof fn lemma_error_below(n: int, d: int, b: int, a: int, pa: int, pb: int, pd: int, k: int, f: int)
    requires
        n * pd >= d,
        b > 0,
        pa > 0,
        pd > 0,
        k > 0,
        -(k * (d * b * pa - a * pb * pd)) <= pd * f,
    ensures
        k * (a * pb - n * (b * pa)) <= f,
{
    let c = b * pa;
    assert(c > 0) by (nonlinear_arith)
        requires
            b > 0,
            pa > 0,
            c == b * pa,
    ;
    assert(d * b * pa == d * c) by (nonlinear_arith)
        requires
            c == b * pa,
    ;
    assert((n * pd) * c >= d * c) by (nonlinear_arith)
        requires
            n * pd >= d,
            c > 0,
    ;
    let e = a * pb - n * c;
    assert(pd * e == a * pb * pd - (n * pd) * c) by (nonlinear_arith)
        requires
            e == a * pb - n * c,
    ;
    assert(k * (pd * e) <= k * (a * pb * pd - d * c)) by (nonlinear_arith)
        requires
            k > 0,
            pd * e <= a * pb * pd - d * c,
    ;
    assert(k * (a * pb * pd - d * c) == -(k * (d * c - a * pb * pd))) by (nonlinear_arith);
    assert(pd * (k * e) <= pd * f) by (nonlinear_arith)
        requires
            k * (pd * e) <= pd * f,
    ;
    assert(k * e <= f) by (nonlinear_arith)
        requires
            pd * (k * e) <= pd * f,
            pd > 0,
    ;
}

/// `x` counts of ticks and a price, written out to one scale.
spec fn ticks_at(n: int, px: Decimal, tick: Decimal) -> int {
    n * at_scale(tick, common_scale(px, tick))
}

/// Brings the products with the powers of ten down to the common scale.
proof fn lemma_common(px: Decimal, tick: Decimal, n: int) -> (m: int)
    ensures
        m >= 1,
        px.mantissa * pow10(tick.scale as nat) == m * at_scale(px, common_scale(px, tick)),
        tick.mantissa * pow10(px.scale as nat) == m * at_scale(tick, common_scale(px, tick)),
        n * (tick.mantissa * pow10(px.scale as nat)) == m * ticks_at(n, px, tick),
{
    let sa = px.scale as nat;
    let sb = tick.scale as nat;
    lemma_pow_positive(10, sa);
    lemma_pow_positive(10, sb);
    let low = if sa <= sb {
        sa
    } else {
        sb
    };
    let m = pow10(low);
    lemma_pow_positive(10, low);
    if sa <= sb {
        lemma_pow_adds(10, sa, (sb - sa) as nat);
        let g = pow10((sb - sa) as nat);
        assert(px.mantissa * (m * g) == m * (px.mantissa * g)) by (nonlinear_arith);
        lemma_pow0(10);
        assert(at_scale(tick, common_scale(px, tick)) == tick.mantissa) by {
            assert(tick.mantissa * 1 == tick.mantissa);
        }
        assert(tick.mantissa * m == m * tick.mantissa) by (nonlinear_arith);
    } else {
        lemma_pow_adds(10, sb, (sa - sb) as nat);
        let g = pow10((sa - sb) as nat);
        assert(tick.mantissa * (m * g) == m * (tick.mantissa * g)) by (nonlinear_arith);
        lemma_pow0(10);
        assert(at_scale(px, common_scale(px, tick)) == px.mantissa) by {
            assert(px.mantissa * 1 == px.mantissa);
        }
        assert(px.mantissa * m == m * px.mantissa) by (nonlinear_arith);
    }
    let t = at_scale(tick, common_scale(px, tick));
    assert(n * (m * t) == m * (n * t)) by (nonlinear_arith);
    m
}

proof fn lemma_tick_mantissa(px: Decimal, tick: Decimal, n: int)
    requires
        tick.mantissa > 0,
        size_of_int(ticks_at(n, px, tick)) < quotient_precision(),
    ensures
        fits(n * tick.mantissa),
{
    let g = pow10((common_scale(px, tick) - tick.scale) as nat);
    lemma_pow_positive(10, (common_scale(px, tick) - tick.scale) as nat);
    let b = tick.mantissa as int;
    let x = n * (b * g);
    assert(size_of_int(n * b) <= size_of_int(x)) by {
        if n >= 0 {
            assert(0 <= n * b <= n * (b * g)) by (nonlinear_arith)
                requires
                    n >= 0,
                    b > 0,
                    g >= 1,
            ;
        } else {
            assert(n * (b * g) <= n * b <= 0) by (nonlinear_arith)
                requires
                    n < 0,
                    b > 0,
                    g >= 1,
            ;
        }
    }
}

/// Where a price and a tick stand to one another, from how far a computed quotient may be off.
proof fn lemma_scaled(px: Decimal, tick: Decimal, q: Decimal, n: int)
    requires
        px.wf(),
        tick.wf(),
        ordinary(px, tick),
        close_quotient(px, tick, q),
    ensures
        ({
            let pd = pow10(q.scale as nat);
            let p = at_scale(px, common_scale(px, tick));
            let x = ticks_at(n, px, tick);
            &&& n * pd <= q.mantissa ==> x <= p
            &&& n * pd >= q.mantissa ==> p <= x
        }),
{
    let k = quotient_precision();
    let pa = pow10(px.scale as nat);
    let pb = pow10(tick.scale as nat);
    let pd = pow10(q.scale as nat);
    lemma_pow_positive(10, px.scale as nat);
    lemma_pow_positive(10, tick.scale as nat);
    lemma_pow_positive(10, q.scale as nat);
    let a = px.mantissa as int;
    let b = tick.mantissa as int;
    let d = q.mantissa as int;
    let m = lemma_common(px, tick, n);
    let p = at_scale(px, common_scale(px, tick));
    let t = at_scale(tick, common_scale(px, tick));
    let x = ticks_at(n, px, tick);
    let w = size_of_int(p);
    let f = size_of_int(a) * pb + b * pa;
    assert(px.magnitude().mantissa == size_of_int(a) && tick.magnitude().mantissa == b);
    let g = pow10((common_scale(px, tick) - px.scale) as nat);
    lemma_pow_positive(10, (common_scale(px, tick) - px.scale) as nat);
    assert(size_of_int(a) * pb == m * w) by {
        if a >= 0 {
            assert(a * g >= 0) by (nonlinear_arith)
                requires
                    a >= 0,
                    g > 0,
            ;
        } else {
            assert(a * g < 0) by (nonlinear_arith)
                requires
                    a < 0,
                    g > 0,
            ;
            assert((-a) * pb == -(a * pb)) by (nonlinear_arith);
            assert(m * (-p) == -(m * p)) by (nonlinear_arith);
        }
    }
    assert(m * (w + t) == m * w + m * t) by (nonlinear_arith);
    if n * pd <= d {
        lemma_error_above(n, d, b, a, pa, pb, pd, k, f);
        assert(k * (m * x - m * p) <= m * (w + t));
        assert(x <= p) by (nonlinear_arith)
            requires
                k * (m * x - m * p) <= m * (w + t),
                m >= 1,
                w + t < k,
                k > 0,
        ;
    }
    if n * pd >= d {
        lemma_error_below(n, d, b, a, pa, pb, pd, k, f);
        assert(k * (m * p - m * x) <= m * (w + t));
        assert(p <= x) by (nonlinear_arith)
            requires
                k * (m * p - m * x) <= m * (w + t),
                m >= 1,
                w + t < k,
                k > 0,
        ;
    }
}

/// Ordinary figures are divided and multiplied without harm.
proof fn lemma_ordinary(px: Decimal, tick: Decimal, q: Decimal)
    requires
        px.wf(),
        tick.wf(),
        ordinary(px, tick),
        decimal_quotient(px, tick) == Some(q),
        close_quotient(px, tick, q),
    ensures
        floors_well(px, tick),
        ceils_well(px, tick),
{
    let s = common_scale(px, tick);
    let p = at_scale(px, s);
    let t = at_scale(tick, s);
    let pd = pow10(q.scale as nat);
    let pa = pow10(px.scale as nat);
    lemma_pow_positive(10, q.scale as nat);
    lemma_at_scale_positive(tick, s);
    let d = q.mantissa as int;
    if d % pd == 0 {
        let n = d / pd;
        lemma_fundamental_div_mod(d, pd);
        assert(n * pd == pd * n) by (nonlinear_arith);
        lemma_scaled(px, tick, q, n);
        let m = lemma_common(px, tick, n);
        assert((n * tick.mantissa) * pa == n * (tick.mantissa * pa)) by (nonlinear_arith);
        assert(is_ticks(px, tick, n));
    }
    lemma_fundamental_div_mod(p, t);
    lemma_mod_bound(p, t);
    lemma_fundamental_div_mod(-p, t);
    lemma_mod_bound(-p, t);
    let lo = p / t;
    let hi = -((-p) / t);
    assert(t * lo == lo * t) by (nonlinear_arith);
    assert(t * (-hi) == -(hi * t)) by (nonlinear_arith);
    lemma_tick_mantissa(px, tick, lo);
    lemma_tick_mantissa(px, tick, hi);
    lemma_pow0(10);
    assert(pow10(0) == 1);
    assert((lo * tick.mantissa) % 1 == 0 && (lo * tick.mantissa) / 1 == lo * tick.mantissa);
    assert((hi * tick.mantissa) % 1 == 0 && (hi * tick.mantissa) / 1 == hi * tick.mantissa);
    assert(ticks_fit(lo, tick)) by {
        assert(0 <= tick.scale && (lo * tick.mantissa) % pow10(0) == 0 && fits(
            (lo * tick.mantissa) / pow10(0),
        ));
    }
    assert(ticks_fit(hi, tick)) by {
        assert(0 <= tick.scale && (hi * tick.mantissa) % pow10(0) == 0 && fits(
            (hi * tick.mantissa) / pow10(0),
        ));
    }
}

/// On which side of a number of ticks a price lies, from where its computed quotient lies.
proof fn lemma_landed(px: Decimal, tick: Decimal, q: Decimal, n: int)
    requires
        tick.mantissa > 0,
        decimal_quotient(px, tick) == Some(q),
        lands_right(px, tick),
        keeps_side(px, tick, q),
    ensures
        ({
            let pd = pow10(q.scale as nat);
            let p = at_scale(px, common_scale(px, tick));
            let x = ticks_at(n, px, tick);
            &&& n * pd <= q.mantissa ==> x <= p
            &&& n * pd >= q.mantissa ==> p <= x
            &&& n * pd > q.mantissa ==> p < x
            &&& n * pd < q.mantissa ==> x < p
        }),
{
    let pd = pow10(q.scale as nat);
    let pa = pow10(px.scale as nat);
    let pb = pow10(tick.scale as nat);
    lemma_pow_positive(10, q.scale as nat);
    let b = tick.mantissa as int;
    let d = q.mantissa as int;
    let m = lemma_common(px, tick, n);
    let p = at_scale(px, common_scale(px, tick));
    let x = ticks_at(n, px, tick);
    let true_p = px.mantissa * pb;
    let true_x = n * (b * pa);
    assert(true_p <= true_x ==> d <= n * pd);
    assert(true_p >= true_x ==> d >= n * pd);
    if n * pd == d {
        vstd::arithmetic::div_mod::lemma_fundamental_div_mod_converse(d, pd, n, 0);
        assert((n * b) * pa == n * (b * pa)) by (nonlinear_arith);
        assert(true_p == true_x);
    }
    assert(true_p <= true_x ==> p <= x) by (nonlinear_arith)
        requires
            true_p == m * p,
            true_x == m * x,
            m >= 1,
    ;
    assert(true_p >= true_x ==> p >= x) by (nonlinear_arith)
        requires
            true_p == m * p,
            true_x == m * x,
            m >= 1,
    ;
    assert(true_p < true_x ==> p < x) by (nonlinear_arith)
        requires
            true_p == m * p,
            true_x == m * x,
            m >= 1,
    ;
    assert(true_p > true_x ==> p > x) by (nonlinear_arith)
        requires
            true_p == m * p,
            true_x == m * x,
            m >= 1,
    ;
}

proof fn lemma_product(n: Decimal, tick: Decimal, v: Option<Decimal>, count: int)
    requires
        n.scale == 0,
        n.mantissa == count,
        ticks_fit(count, tick),
        tick.wf(),
        exact_product(n.mantissa * tick.mantissa, (n.scale + tick.scale) as nat, v),
    ensures
        v matches Some(x) && is_ticks(x, tick, count),
{
    let k = choose|k: nat|
        #![trigger pow10(k)]
        k <= tick.scale && (count * tick.mantissa) % pow10(k) == 0 && fits(
            (count * tick.mantissa) / pow10(k),
        );
    assert(pow10(k) == pow10(k));
}

proof fn lemma_floor(px: Decimal, tick: Decimal, q: Decimal, n: Decimal, v: Option<Decimal>)
    requires
        tick.wf(),
        tick.mantissa > 0,
        q.wf(),
        decimal_quotient(px, tick) == Some(q),
        floors_well(px, tick),
        keeps_side(px, tick, q),
        decimal_floor(q) == Some(n),
        exact_product(n.mantissa * tick.mantissa, (n.scale + tick.scale) as nat, v),
    ensures
        v matches Some(x) && is_ticks(x, tick, ticks_below(px, tick)) && x.is_at_most(px),
{
    let s = common_scale(px, tick);
    let nn = n.mantissa as int;
    let p = at_scale(px, s);
    let t = at_scale(tick, s);
    let x = ticks_at(nn, px, tick);
    lemma_at_scale_positive(tick, s);
    lemma_floor_value(q, n);
    lemma_whole(q, nn);
    lemma_landed(px, tick, q, nn);
    lemma_landed(px, tick, q, nn + 1);
    assert((nn + 1) * t == nn * t + t) by (nonlinear_arith);
    assert(x <= p < x + t);
    assert(p / t == nn) by {
        vstd::arithmetic::div_mod::lemma_fundamental_div_mod_converse(p, t, nn, p - x);
    }
    lemma_product(n, tick, v, nn);
    lemma_ticks_order(px, tick, v->0, nn);
}

/// A price and a number of ticks are ordered as they are when written out to one scale.
proof fn lemma_ticks_order(px: Decimal, tick: Decimal, v: Decimal, n: int)
    requires
        is_ticks(v, tick, n),
    ensures
        ticks_at(n, px, tick) <= at_scale(px, common_scale(px, tick)) <==> v.is_at_most(px),
        at_scale(px, common_scale(px, tick)) <= ticks_at(n, px, tick) <==> px.is_at_most(v),
{
    let m = lemma_common(px, tick, n);
    let p = at_scale(px, common_scale(px, tick));
    let x = ticks_at(n, px, tick);
    let pa = pow10(px.scale as nat);
    let pb = pow10(tick.scale as nat);
    let pv = pow10(v.scale as nat);
    let a = px.mantissa as int;
    let b = tick.mantissa as int;
    let c = v.mantissa as int;
    lemma_pow_positive(10, px.scale as nat);
    lemma_pow_positive(10, tick.scale as nat);
    lemma_pow_positive(10, v.scale as nat);
    assert((n * b) * pa == n * (b * pa)) by (nonlinear_arith);
    let left = c * pa;
    let right = a * pv;
    assert(left * pb == (m * x) * pv) by (nonlinear_arith)
        requires
            left == c * pa,
            c * pb == (n * b) * pv,
            (n * b) * pa == m * x,
    ;
    assert(right * pb == (m * p) * pv) by (nonlinear_arith)
        requires
            right == a * pv,
            a * pb == m * p,
    ;
    lemma_same_order(left, right, pb, x, p, m, pv);
    lemma_same_order(right, left, pb, p, x, m, pv);
}

proof fn lemma_same_order(l: int, r: int, pb: int, x: int, p: int, m: int, pv: int)
    requires
        l * pb == (m * x) * pv,
        r * pb == (m * p) * pv,
        pb > 0,
        m >= 1,
        pv > 0,
    ensures
        l <= r <==> x <= p,
{
    let w = m * pv;
    assert(w > 0) by (nonlinear_arith)
        requires
            w == m * pv,
            m >= 1,
            pv > 0,
    ;
    assert((m * x) * pv == x * w && (m * p) * pv == p * w) by (nonlinear_arith)
        requires
            w == m * pv,
    ;
    if l <= r {
        assert(l * pb <= r * pb) by (nonlinear_arith)
            requires
                l <= r,
                pb > 0,
        ;
        assert(x <= p) by (nonlinear_arith)
            requires
                x * w <= p * w,
                w > 0,
        ;
    }
    if x <= p {
        assert(x * w <= p * w) by (nonlinear_arith)
            requires
                x <= p,
                w > 0,
        ;
        assert(l <= r) by (nonlinear_arith)
            requires
                l * pb <= r * pb,
                pb > 0,
        ;
    }
}

proof fn lemma_floor_value(q: Decimal, n: Decimal)
    requires
        q.wf(),
        decimal_floor(q) == Some(n),
    ensures
        n.mantissa == q.whole_below(),
        n.scale == 0,
{
    lemma_pow0(10);
    if q.scale != 0 {
        lemma_quotient_fits(q);
    }
}

proof fn lemma_ceil_value(q: Decimal, n: Decimal)
    requires
        q.wf(),
        decimal_ceil(q) == Some(n),
    ensures
        n.mantissa == q.whole_above(),
        n.scale == 0,
{
    lemma_pow0(10);
    if q.scale != 0 {
        lemma_quotient_fits(q);
    } else {
        assert(-((-q.mantissa) as int / 1) == q.mantissa);
    }
}

proof fn lemma_quotient_fits(q: Decimal)
    requires
        q.wf(),
    ensures
        i128::MIN <= q.whole_below() <= i128::MAX,
        i128::MIN <= q.whole_above() <= i128::MAX,
{
    let p = pow10(q.scale as nat);
    lemma_pow_positive(10, q.scale as nat);
    let x = q.mantissa as int;
    let y = -x;
    assert(p >= 1);
    assert(x / p <= MAX_MANTISSA && x / p >= -MAX_MANTISSA)
        by (nonlinear_arith)
        requires
            p >= 1,
            -MAX_MANTISSA <= x <= MAX_MANTISSA,
    ;
    assert(y / p <= MAX_MANTISSA && y / p >= -MAX_MANTISSA)
        by (nonlinear_arith)
        requires
            p >= 1,
            -MAX_MANTISSA <= y <= MAX_MANTISSA,
    ;
}

proof fn lemma_ceil(px: Decimal, tick: Decimal, q: Decimal, n: Decimal, v: Option<Decimal>)
    requires
        tick.wf(),
        tick.mantissa > 0,
        q.wf(),
        decimal_quotient(px, tick) == Some(q),
        ceils_well(px, tick),
        keeps_side(px, tick, q),
        decimal_ceil(q) == Some(n),
        exact_product(n.mantissa * tick.mantissa, (n.scale + tick.scale) as nat, v),
    ensures
        v matches Some(x) && is_ticks(x, tick, ticks_above(px, tick)) && px.is_at_most(x),
{
    let s = common_scale(px, tick);
    let nn = n.mantissa as int;
    let p = at_scale(px, s);
    let t = at_scale(tick, s);
    let x = ticks_at(nn, px, tick);
    lemma_at_scale_positive(tick, s);
    lemma_ceil_value(q, n);
    lemma_whole(q, nn);
    lemma_landed(px, tick, q, nn);
    lemma_landed(px, tick, q, nn - 1);
    assert((nn - 1) * t == nn * t - t) by (nonlinear_arith);
    assert(x - t < p <= x);
    assert((-p) / t == -nn) by {
        assert((-nn) * t == -(nn * t)) by (nonlinear_arith);
        vstd::arithmetic::div_mod::lemma_fundamental_div_mod_converse(-p, t, -nn, x - p);
    }
    lemma_product(n, tick, v, nn);
    lemma_ticks_order(px, tick, v->0, nn);
}

proof fn lemma_at_scale_positive(d: Decimal, s: u32)
    requires
        d.mantissa > 0,
    ensures
        at_scale(d, s) > 0,
{
    lemma_pow_positive(10, (s - d.scale) as nat);
    let g = pow10((s - d.scale) as nat);
    assert(d.mantissa * g > 0) by (nonlinear_arith)
        requires
            d.mantissa > 0,
            g > 0,
    ;
}

/// The price for a buy: rounded down.
pub fn round_buy_px(px: Decimal, tick: Decimal) -> (r: Option<Decimal>)
    ensures
        r == tick_floor(px, tick),
        floored(px, tick, r),
        ordinary(px, tick) && decimal_quotient(px, tick) is Some ==> floors_well(
            px,
            tick,
        ) && ceils_well(px, tick),
{
    floor_to_tick(px, tick)
}

/// The price for a sell: rounded up.
pub fn round_sell_px(px: Decimal, tick: Decimal) -> (r: Option<Decimal>)
    ensures
        r == tick_ceil(px, tick),
        ceiled(px, tick, r),
        ordinary(px, tick) && decimal_quotient(px, tick) is Some ==> floors_well(
            px,
            tick,
        ) && ceils_well(px, tick),
{
    ceil_to_tick(px, tick)
}

/// A size, rounded down to a whole number of lots.
pub fn round_qty_down(qty: Decimal, lot: Decimal) -> (r: Option<Decimal>)
    ensures
        r == tick_floor(qty, lot),
        floored(qty, lot, r),
        ordinary(qty, lot) && decimal_quotient(qty, lot) is Some ==> floors_well(qty, lot),
{
    floor_to_tick(qty, lot)
}

/// The price that an exit is rounded to.
pub open spec fn exit_px(exit_side: Side, target: Decimal, tick: Decimal) -> Option<Decimal> {
    match exit_side {
        Side::Sell => tick_ceil(target, tick),
        Side::Buy => tick_floor(target, tick),
    }
}

/// Exit rounding must not give away target profit:
/// - covering a long (sell): the price is not below the target, so it is rounded up
/// - covering a short (buy): the price is not above the target, so it is rounded down
pub fn round_exit_px(exit_side: Side, target: Decimal, tick: Decimal) -> (r: Option<Decimal>)
    ensures
        r == exit_px(exit_side, target, tick),
        exit_side == Side::Sell ==> ceiled(target, tick, r),
        exit_side == Side::Buy ==> floored(target, tick, r),
        ordinary(target, tick) && decimal_quotient(target, tick) is Some ==> floors_well(
            target,
            tick,
        ) && ceils_well(target, tick),
{
    match exit_side {
        Side::Sell => round_sell_px(target, tick),
        Side::Buy => round_buy_px(target, tick),
    }
}

/// The size that a notional amount buys at a price; none at a price or contract size that is
/// not positive.
pub open spec fn sized(notional: Decimal, px: Px, contract_size: Decimal) -> Option<Decimal> {
    if !dec_zero().is_below(px.0) || !dec_zero().is_below(contract_size) {
        Some(dec_zero())
    } else {
        match decimal_quotient(notional, px.0) {
            Some(q) => decimal_quotient(q, contract_size),
            None => None,
        }
    }
}

/// The size that a notional amount buys is worked out as decimals are divided.
pub open spec fn size_divides(notional: Decimal, px: Px, contract_size: Decimal) -> bool {
    px.0.mantissa > 0 && contract_size.mantissa > 0 ==> {
        &&& divides(notional, px.0)
        &&& decimal_quotient(notional, px.0) matches Some(q) ==> divides(q, contract_size)
    }
}

pub fn notional_to_qty(notional: Decimal, px: Px, contract_size: Decimal) -> (r: Option<Decimal>)
    ensures
        r == sized(notional, px, contract_size),
        r is Some ==> size_divides(notional, px, contract_size),
{
    if !px.0.is_positive() || !contract_size.is_positive() {
        return Some(Decimal::zero());
    }
    notional.over(px.0)?.over(contract_size)
}

/// By how much the notional amount of a computed size may differ from the amount that it was computed from,
/// times `10^27`: a few parts of the amount, the price and the amount of one contract.
pub open spec fn size_room(notional: Decimal, px: Decimal, contract_size: Decimal) -> int {
    let u = unit_worth();
    u * (u * (3 * worth(notional) + 2 * worth(px)) + worth(contract_size) * worth(px))
}

/// The size that an amount buys, times the price and the contract size, is the amount again, up to the
/// rounding of two quotients; at a price or contract size that is not positive it is nothing.
pub proof fn law_size_is_worth_its_notional(notional: Decimal, px: Px, contract_size: Decimal)
    requires
        notional.mantissa >= 0,
        size_divides(notional, px, contract_size),
        sized(notional, px, contract_size) is Some,
    ensures
        ({
            let r = sized(notional, px, contract_size)->0;
            let u = unit_worth();
            let k = quotient_precision();
            let off = worth(r) * worth(px.0) * worth(contract_size) - worth(notional) * u * u;
            if px.0.mantissa > 0 && contract_size.mantissa > 0 {
                let room = size_room(notional, px.0, contract_size);
                r.wf() && r.mantissa >= 0 && k * off <= room && -(k * off) <= room
            } else {
                r == dec_zero()
            }
        }),
{
    lemma_sign(px.0);
    lemma_sign(contract_size);
    if px.0.mantissa > 0 && contract_size.mantissa > 0 {
        let q = decimal_quotient(notional, px.0)->0;
        let r = decimal_quotient(q, contract_size)->0;
        law_order_is_by_worth(notional, px.0);
        law_order_is_by_worth(px.0, px.0);
        law_order_is_by_worth(contract_size, contract_size);
        law_order_is_by_worth(q, r);
        law_order_is_by_worth(r, q);
        lemma_sign(notional);
        lemma_sign(q);
        lemma_sign(r);
        lemma_pow_positive(10, MAX_SCALE as nat);
        lemma_two_quotients(
            worth(notional),
            worth(px.0),
            worth(contract_size),
            worth(q),
            worth(r),
            unit_worth(),
            quotient_precision(),
        );
    }
}

proof fn lemma_two_quotients(n: int, p: int, c: int, q: int, r: int, u: int, k: int)
    requires
        n >= 0,
        p > 0,
        c > 0,
        q >= 0,
        r >= 0,
        u > 0,
        k >= 1,
        k * (q * p - n * u) <= u * (n + p),
        -(k * (q * p - n * u)) <= u * (n + p),
        k * (r * c - q * u) <= u * (q + c),
        -(k * (r * c - q * u)) <= u * (q + c),
    ensures
        k * (r * p * c - n * u * u) <= u * (u * (3 * n + 2 * p) + c * p),
        -(k * (r * p * c - n * u * u)) <= u * (u * (3 * n + 2 * p) + c * p),
{
    let e = q * p - n * u;
    let g = r * c - q * u;
    let off = r * p * c - n * u * u;
    assert(off == g * p + e * u) by (nonlinear_arith)
        requires
            off == r * p * c - n * u * u,
            g == r * c - q * u,
            e == q * p - n * u,
    ;
    assert(k * off == (k * g) * p + (k * e) * u) by (nonlinear_arith)
        requires
            off == g * p + e * u,
    ;
    assert(0 <= u * (n + p)) by (nonlinear_arith)
        requires
            u > 0,
            n + p > 0,
    ;
    assert(e <= u * (n + p)) by (nonlinear_arith)
        requires
            k * e <= u * (n + p),
            k >= 1,
            0 <= u * (n + p),
    ;
    assert((k * g) * p <= (u * (q + c)) * p) by (nonlinear_arith)
        requires
            k * g <= u * (q + c),
            p > 0,
    ;
    assert(-((k * g) * p) <= (u * (q + c)) * p) by (nonlinear_arith)
        requires
            -(k * g) <= u * (q + c),
            p > 0,
    ;
    assert((k * e) * u <= (u * (n + p)) * u) by (nonlinear_arith)
        requires
            k * e <= u * (n + p),
            u > 0,
    ;
    assert(-((k * e) * u) <= (u * (n + p)) * u) by (nonlinear_arith)
        requires
            -(k * e) <= u * (n + p),
            u > 0,
    ;
    let top = n * u + u * (n + p);
    assert(u * (q * p) <= u * top) by (nonlinear_arith)
        requires
            q * p <= top,
            u > 0,
    ;
    assert((u * (q + c)) * p == u * (q * p) + u * (c * p)) by (nonlinear_arith);
    assert(u * top + u * (c * p) + (u * (n + p)) * u == u * (u * (3 * n + 2 * p) + c * p))
        by (nonlinear_arith)
        requires
            top == n * u + u * (n + p),
    ;
}

} // verus!
