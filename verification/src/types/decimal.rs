//! Decimal numbers of 96-bit mantissa and at most 28 fractional digits.
//!
//! A [`Decimal`] holds the two integers that make up such a number. Comparison, sign and
//! absolute value are worked out here; every other operation is handed to `rust_decimal`.
use crate::types::double::{double_finite, double_key};
use vstd::arithmetic::mul::{
    lemma_mul_inequality, lemma_mul_is_associative, lemma_mul_is_commutative,
    lemma_mul_strict_inequality,
};
use vstd::arithmetic::power::{lemma_pow0, lemma_pow1, lemma_pow_adds, lemma_pow_positive, pow};
use vstd::prelude::*;

verus! {

/// Largest mantissa that 96 bits hold.
pub const MAX_MANTISSA: i128 = 79228162514264337593543950335;

/// Largest number of fractional digits.
pub const MAX_SCALE: u32 = 28;

/// The number `mantissa / 10^scale`.
#[derive(Clone, Copy, Debug)]
pub struct Decimal {
    pub mantissa: i128,
    pub scale: u32,
}

/// `10^n`.
pub open spec fn pow10(n: nat) -> int {
    pow(10, n)
}

impl Decimal {
    /// The number is one that 96 bits and 28 fractional digits can hold.
    pub open spec fn wf(self) -> bool {
        &&& -MAX_MANTISSA <= self.mantissa <= MAX_MANTISSA
        &&& self.scale <= MAX_SCALE
    }

    /// `self < other` as numbers.
    pub open spec fn is_below(self, other: Decimal) -> bool {
        self.mantissa * pow10(other.scale as nat) < other.mantissa * pow10(self.scale as nat)
    }

    /// `self` and `other` are the same number, whatever their scales.
    pub open spec fn is_same(self, other: Decimal) -> bool {
        self.mantissa * pow10(other.scale as nat) == other.mantissa * pow10(self.scale as nat)
    }

    /// `self <= other` as numbers.
    pub open spec fn is_at_most(self, other: Decimal) -> bool {
        !other.is_below(self)
    }

    /// The number is zero.
    pub open spec fn zero_valued(self) -> bool {
        self.mantissa == 0
    }

    /// The number with the opposite sign.
    pub open spec fn negated(self) -> Decimal {
        Decimal { mantissa: (-self.mantissa) as i128, scale: self.scale }
    }

    /// The number without its sign.
    pub open spec fn magnitude(self) -> Decimal {
        if self.mantissa < 0 {
            self.negated()
        } else {
            self
        }
    }

    /// The larger of two numbers; the first where they are the same.
    pub open spec fn larger(self, other: Decimal) -> Decimal {
        if self.is_below(other) {
            other
        } else {
            self
        }
    }

    /// The smaller of two numbers; the first where they are the same.
    pub open spec fn smaller(self, other: Decimal) -> Decimal {
        if other.is_below(self) {
            other
        } else {
            self
        }
    }

    /// The largest integer at most `self`.
    pub open spec fn whole_below(self) -> int {
        self.mantissa as int / pow10(self.scale as nat)
    }

    /// The smallest integer at least `self`.
    pub open spec fn whole_above(self) -> int {
        -((-self.mantissa) as int / pow10(self.scale as nat))
    }
}

/// The decimal zero.
pub open spec fn dec_zero() -> Decimal {
    Decimal { mantissa: 0, scale: 0 }
}

/// The decimal one.
pub open spec fn dec_one() -> Decimal {
    Decimal { mantissa: 1, scale: 0 }
}

/// The decimal of an integer.
pub open spec fn dec_int(n: int) -> Decimal {
    Decimal { mantissa: n as i128, scale: 0 }
}

/// A number written with `scale` fractional digits, as an integer count of its last digit.
pub open spec fn at_scale(d: Decimal, scale: u32) -> int {
    d.mantissa * pow10((scale - d.scale) as nat)
}

/// The larger of two scales.
pub open spec fn common_scale(a: Decimal, b: Decimal) -> u32 {
    if a.scale < b.scale {
        b.scale
    } else {
        a.scale
    }
}

/// An integer fits a 96-bit mantissa.
pub open spec fn fits(n: int) -> bool {
    -MAX_MANTISSA <= n <= MAX_MANTISSA
}

/// What `Decimal::checked_add` of `rust_decimal` returns.
pub uninterp spec fn decimal_sum(a: Decimal, b: Decimal) -> Option<Decimal>;

/// What `Decimal::checked_sub` of `rust_decimal` returns.
pub uninterp spec fn decimal_difference(a: Decimal, b: Decimal) -> Option<Decimal>;

/// What `Decimal::checked_mul` of `rust_decimal` returns.
pub uninterp spec fn decimal_product(a: Decimal, b: Decimal) -> Option<Decimal>;

/// What `Decimal::checked_div` of `rust_decimal` returns.
pub uninterp spec fn decimal_quotient(a: Decimal, b: Decimal) -> Option<Decimal>;

/// What the `FromStr` of `rust_decimal::Decimal` reads in a text; `None` where it refuses it.
pub uninterp spec fn decimal_parsed(text: Seq<char>) -> Option<Decimal>;

/// What the `Display` of `rust_decimal::Decimal` writes.
pub uninterp spec fn decimal_text(d: Decimal) -> Seq<char>;

/// The IEEE 754 double bits of what `Decimal::to_f64` of `rust_decimal` returns for an integer.
pub uninterp spec fn integer_double(n: i128) -> u64;

/// The integer that a decimal without a fraction stands for.
pub open spec fn whole_value(d: Decimal) -> Option<i128> {
    if d.mantissa as int % pow10(d.scale as nat) == 0 {
        Some((d.mantissa as int / pow10(d.scale as nat)) as i128)
    } else {
        None
    }
}

/// Bits of a double that a decimal may be read as. How a fraction is rounded is not the same everywhere, nor
/// at any two times; that the double is finite and has the number's sign is. A value that is no decimal of
/// 96 bits is read as zero.
pub open spec fn reads_as(d: Decimal, bits: u64) -> bool {
    if !d.wf() {
        bits == 0
    } else {
        &&& double_finite(bits)
        &&& d.mantissa >= 0 ==> double_key(bits) >= 0
        &&& d.mantissa <= 0 ==> double_key(bits) <= 0
        &&& whole_value(d) matches Some(n) ==> bits == integer_double(n)
        &&& may_be_read(d, bits)
    }
}

/// Bits that `Decimal::double_bits` may hand out for a decimal.
pub closed spec fn may_be_read(d: Decimal, bits: u64) -> bool {
    call_ensures(Decimal::double_bits, (d,), bits)
}

/// `10^27`.
pub open spec fn quotient_precision() -> int {
    1000000000000000000000000000
}

/// `d` differs from the true quotient of `a` by `b` by at most one part in `10^27` of that
/// quotient and `10^-27`. Both sides are multiplied out to integers.
pub open spec fn close_quotient(a: Decimal, b: Decimal, d: Decimal) -> bool {
    let pa = pow10(a.scale as nat);
    let pb = pow10(b.scale as nat);
    let pd = pow10(d.scale as nat);
    let off = d.mantissa * b.mantissa * pa - a.mantissa * pb * pd;
    let room = pd * (a.magnitude().mantissa * pb + b.magnitude().mantissa * pa);
    quotient_precision() * off <= room && -(quotient_precision() * off) <= room
}

/// `d` lies on no other side of an integer than the true quotient of `a` by a positive `b`: where that
/// is an integer, so is `d`, and the same one. The quotient is multiplied out to integers.
pub open spec fn keeps_side(a: Decimal, b: Decimal, d: Decimal) -> bool {
    forall|n: int|
        #![trigger n * (b.mantissa * pow10(a.scale as nat))]
        {
            let p = a.mantissa * pow10(b.scale as nat);
            let x = n * (b.mantissa * pow10(a.scale as nat));
            &&& p <= x ==> d.mantissa <= n * pow10(d.scale as nat)
            &&& p >= x ==> d.mantissa >= n * pow10(d.scale as nat)
        }
}

/// Where the product `m / 10^s` can be written with fewer digits, so that it fits 96 bits and 28
/// fractional digits, `r` is that number.
pub open spec fn exact_product(m: int, s: nat, r: Option<Decimal>) -> bool {
    forall|k: nat|
        #![trigger pow10(k)]
        k <= s && s - k <= MAX_SCALE && m % pow10(k) == 0 && fits(m / pow10(k)) ==> (r matches Some(
            d,
        ) && d.mantissa * pow10(s) == m * pow10(d.scale as nat))
}

/// What `Decimal::floor` returns.
pub open spec fn decimal_floor(d: Decimal) -> Option<Decimal> {
    if !d.wf() {
        None
    } else if d.scale == 0 {
        Some(d)
    } else {
        Some(dec_int(d.whole_below()))
    }
}

/// What `Decimal::ceil` returns.
pub open spec fn decimal_ceil(d: Decimal) -> Option<Decimal> {
    if !d.wf() {
        None
    } else if d.scale == 0 {
        Some(d)
    } else {
        Some(dec_int(d.whole_above()))
    }
}

/// `r` is `d` without the trailing zeros of its fraction.
pub open spec fn is_normalized(d: Decimal, r: Decimal) -> bool {
    &&& r.scale <= d.scale
    &&& d.mantissa == r.mantissa * pow10((d.scale - r.scale) as nat)
    &&& r.mantissa == 0 ==> r.scale == 0
    &&& r.scale > 0 ==> r.mantissa as int % 10 != 0
}

/// What `Decimal::to_i64` returns: the integer part where 64 bits hold it.
pub open spec fn decimal_to_i64(d: Decimal) -> Option<i64> {
    let t = if d.mantissa < 0 {
        d.whole_above()
    } else {
        d.whole_below()
    };
    if d.wf() && i64::MIN <= t <= i64::MAX {
        Some(t as i64)
    } else {
        None
    }
}

impl Decimal {
    /// `num / 10^scale`.
    pub fn new(num: i64, scale: u32) -> (r: Decimal)
        requires
            scale <= MAX_SCALE,
        ensures
            r == (Decimal { mantissa: num as i128, scale }),
            r.wf(),
    {
        Decimal { mantissa: num as i128, scale }
    }

    pub fn zero() -> (r: Decimal)
        ensures
            r == dec_zero(),
    {
        Decimal { mantissa: 0, scale: 0 }
    }

    pub fn one() -> (r: Decimal)
        ensures
            r == dec_one(),
    {
        Decimal { mantissa: 1, scale: 0 }
    }

    pub fn from_int(n: i64) -> (r: Decimal)
        ensures
            r == dec_int(n as int),
            r.wf(),
    {
        Decimal { mantissa: n as i128, scale: 0 }
    }

    pub fn is_zero(self) -> (r: bool)
        ensures
            r == self.zero_valued(),
    {
        self.mantissa == 0
    }

    pub fn is_positive(self) -> (r: bool)
        ensures
            r == dec_zero().is_below(self),
            r == (self.mantissa > 0),
    {
        proof {
            lemma_sign(self);
        }
        self.mantissa > 0
    }

    pub fn is_negative(self) -> (r: bool)
        ensures
            r == self.is_below(dec_zero()),
            r == (self.mantissa < 0),
    {
        proof {
            lemma_sign(self);
        }
        self.mantissa < 0
    }

    /// The opposite number. `None` where the value is no decimal of 96 bits.
    pub fn checked_neg(self) -> (r: Option<Decimal>)
        ensures
            r == (if self.wf() { Some(self.negated()) } else { None }),
    {
        if self.valid() {
            Some(Decimal { mantissa: -self.mantissa, scale: self.scale })
        } else {
            None
        }
    }

    /// The absolute value. `None` where the value is no decimal of 96 bits.
    pub fn checked_abs(self) -> (r: Option<Decimal>)
        ensures
            r == decimal_abs(self),
    {
        if !self.valid() {
            None
        } else if self.mantissa < 0 {
            Some(Decimal { mantissa: -self.mantissa, scale: self.scale })
        } else {
            Some(self)
        }
    }

    /// Whether 96 bits and 28 fractional digits hold the number.
    pub fn valid(self) -> (r: bool)
        ensures
            r == self.wf(),
    {
        -MAX_MANTISSA <= self.mantissa && self.mantissa <= MAX_MANTISSA && self.scale <= MAX_SCALE
    }

    /// Negative, zero or positive as `self` is below, at or above `other`.
    fn order(self, other: Decimal) -> (r: i8)
        ensures
            (r < 0) == self.is_below(other),
            (r == 0) == self.is_same(other),
            (r > 0) == other.is_below(self),
    {
        if self.scale <= other.scale {
            let r = lift_order(self.mantissa, other.scale - self.scale, other.mantissa);
            proof {
                lemma_align(self, other);
            }
            r
        } else {
            let r = lift_order(other.mantissa, self.scale - other.scale, self.mantissa);
            proof {
                lemma_align(other, self);
            }
            -r
        }
    }

    /// The larger of two decimals; `self` where they are the same number.
    pub fn max(self, other: Decimal) -> (r: Decimal)
        ensures
            r == self.larger(other),
    {
        if self.order(other) < 0 {
            other
        } else {
            self
        }
    }

    /// The smaller of two decimals; `self` where they are the same number.
    pub fn min(self, other: Decimal) -> (r: Decimal)
        ensures
            r == self.smaller(other),
    {
        if other.order(self) < 0 {
            other
        } else {
            self
        }
    }

    /// Whether `self` is below `other`.
    pub fn below(self, other: Decimal) -> (r: bool)
        ensures
            r == self.is_below(other),
    {
        self.order(other) < 0
    }

    /// Whether `self` is at most `other`.
    pub fn at_most(self, other: Decimal) -> (r: bool)
        ensures
            r == self.is_at_most(other),
    {
        self.order(other) <= 0
    }

    /// Whether `self` and `other` are the same number.
    pub fn same(self, other: Decimal) -> (r: bool)
        ensures
            r == self.is_same(other),
    {
        self.order(other) == 0
    }
}

/// The absolute value, where `d` is a decimal of 96 bits.
pub open spec fn decimal_abs(d: Decimal) -> Option<Decimal> {
    if d.wf() {
        Some(d.magnitude())
    } else {
        None
    }
}

/// Compares `a * 10^n` with `b`.
fn lift_order(a: i128, n: u32, b: i128) -> (r: i8)
    ensures
        -1 <= r <= 1,
        (r < 0) == (a * pow10(n as nat) < b),
        (r == 0) == (a * pow10(n as nat) == b),
        (r > 0) == (a * pow10(n as nat) > b),
{
    let mut v: i128 = a;
    let mut left: u32 = n;
    while left > 0 && v != 0
        invariant
            left <= n,
            v * pow10(left as nat) == a * pow10(n as nat),
        decreases left,
    {
        match v.checked_mul(10) {
            Some(w) => {
                proof {
                    lemma_pow_step((left - 1) as nat);
                    lemma_mul_is_associative(v as int, 10, pow10((left - 1) as nat));
                }
                v = w;
                left = left - 1;
            },
            None => {
                proof {
                    lemma_pow_step((left - 1) as nat);
                    lemma_pow_positive(10, (left - 1) as nat);
                    lemma_mul_is_associative(v as int, 10, pow10((left - 1) as nat));
                    if v > 0 {
                        lemma_mul_inequality(1, pow10((left - 1) as nat), v * 10);
                        lemma_mul_is_commutative(v * 10, pow10((left - 1) as nat));
                    } else {
                        lemma_mul_inequality(1, pow10((left - 1) as nat), -(v * 10));
                        lemma_mul_is_commutative(v * 10, pow10((left - 1) as nat));
                        assert(pow10((left - 1) as nat) * (-(v * 10)) == -(pow10((left - 1) as nat)
                            * (v * 10))) by (nonlinear_arith);
                    }
                }
                return if v > 0 {
                    1
                } else {
                    -1
                };
            },
        }
    }
    proof {
        lemma_pow0(10);
        if v == 0 {
            assert(v * pow10(left as nat) == 0) by (nonlinear_arith)
                requires
                    v == 0,
            ;
        }
    }
    if v < b {
        -1
    } else if v == b {
        0
    } else {
        1
    }
}

/// `10^(n+1) == 10 * 10^n`.
proof fn lemma_pow_step(n: nat)
    ensures
        pow10(n + 1) == 10 * pow10(n),
{
    lemma_pow1(10);
    lemma_pow_adds(10, 1, n);
}

/// Where `a` has no more fractional digits than `b`, comparing the two numbers is comparing
/// `a`'s mantissa, written with `b`'s digits, with `b`'s mantissa.
pub proof fn lemma_align(a: Decimal, b: Decimal)
    requires
        a.scale <= b.scale,
    ensures
        a.is_below(b) == (at_scale(a, b.scale) < b.mantissa),
        a.is_same(b) == (at_scale(a, b.scale) == b.mantissa),
        b.is_below(a) == (at_scale(a, b.scale) > b.mantissa),
{
    let n = (b.scale - a.scale) as nat;
    let p = pow10(a.scale as nat);
    lemma_pow_adds(10, n, a.scale as nat);
    lemma_pow_positive(10, a.scale as nat);
    let x = a.mantissa * pow10(n);
    let y = b.mantissa as int;
    lemma_mul_is_associative(a.mantissa as int, pow10(n), p);
    assert(a.mantissa * pow10(b.scale as nat) == x * p);
    if x < y {
        lemma_mul_strict_inequality(x, y, p);
    } else if x > y {
        lemma_mul_strict_inequality(y, x, p);
    }
}

/// Comparing with zero is looking at the mantissa's sign.
pub proof fn lemma_sign(d: Decimal)
    ensures
        d.is_below(dec_zero()) == (d.mantissa < 0),
        dec_zero().is_below(d) == (d.mantissa > 0),
        d.is_same(dec_zero()) == (d.mantissa == 0),
{
    lemma_pow0(10);
    lemma_pow_positive(10, d.scale as nat);
    assert(0 * pow10(d.scale as nat) == 0) by (nonlinear_arith);
}

impl Default for Decimal {
    fn default() -> (r: Self)
        ensures
            r == dec_zero(),
    {
        Decimal { mantissa: 0, scale: 0 }
    }
}

impl PartialEq for Decimal {
    fn eq(&self, other: &Decimal) -> (r: bool) {
        self.same(*other)
    }
}

impl vstd::std_specs::cmp::PartialEqSpecImpl for Decimal {
    open spec fn obeys_eq_spec() -> bool {
        true
    }

    open spec fn eq_spec(&self, other: &Decimal) -> bool {
        self.is_same(*other)
    }
}

impl Eq for Decimal {
}

impl PartialOrd for Decimal {
    fn partial_cmp(&self, other: &Decimal) -> (r: Option<core::cmp::Ordering>) {
        let o: i8 = self.order(*other);
        if o < 0 {
            Some(core::cmp::Ordering::Less)
        } else if o == 0 {
            Some(core::cmp::Ordering::Equal)
        } else {
            Some(core::cmp::Ordering::Greater)
        }
    }
}

impl vstd::std_specs::cmp::PartialOrdSpecImpl for Decimal {
    open spec fn obeys_partial_cmp_spec() -> bool {
        true
    }

    open spec fn partial_cmp_spec(&self, other: &Decimal) -> Option<core::cmp::Ordering> {
        if self.is_below(*other) {
            Some(core::cmp::Ordering::Less)
        } else if self.is_same(*other) {
            Some(core::cmp::Ordering::Equal)
        } else {
            Some(core::cmp::Ordering::Greater)
        }
    }
}

impl Decimal {
    /// Calls `rust_decimal::Decimal::checked_add`. Claimed of it: it is a function of the two
    /// numbers; a sum with zero is the other number as it stands; where both numbers, written
    /// with the larger of the two scales, and their sum fit 96 bits, the result is that sum at
    /// that scale; any result is a decimal of 96 bits. A value that is none is refused first.
    #[verifier::external_body]
    pub(crate) fn checked_add(self, other: Decimal) -> (r: Option<Decimal>)
        ensures
            r == decimal_sum(self, other),
            r matches Some(d) ==> d.wf() && self.wf() && other.wf(),
            self.wf() && other.wf() && self.mantissa == 0 ==> r == Some(other),
            self.wf() && other.wf() && self.mantissa != 0 && other.mantissa == 0 ==> r == Some(self),
            self.wf() && other.wf() && self.mantissa != 0 && other.mantissa != 0 && ({
                let s = common_scale(self, other);
                fits(at_scale(self, s)) && fits(at_scale(other, s)) && fits(
                    at_scale(self, s) + at_scale(other, s),
                )
            }) ==> r == Some(
                Decimal {
                    mantissa: (at_scale(self, common_scale(self, other)) + at_scale(
                        other,
                        common_scale(self, other),
                    )) as i128,
                    scale: common_scale(self, other),
                },
            ),
    {
        let a = rust_decimal::Decimal::try_from_i128_with_scale(self.mantissa, self.scale).ok()?;
        let b = rust_decimal::Decimal::try_from_i128_with_scale(other.mantissa, other.scale).ok()?;
        let c = a.checked_add(b)?;
        Some(Decimal { mantissa: c.mantissa(), scale: c.scale() })
    }

    /// Calls `rust_decimal::Decimal::checked_sub`. Claimed of it: it is a function of the two
    /// numbers; zero less a number is the opposite number; a number less zero is the number as
    /// it stands; where both numbers, written with the larger of the two scales, and their
    /// difference fit 96 bits, the result is that difference at that scale; any result is a
    /// decimal of 96 bits. A value that is none is refused first.
    #[verifier::external_body]
    pub(crate) fn checked_sub(self, other: Decimal) -> (r: Option<Decimal>)
        ensures
            r == decimal_difference(self, other),
            r matches Some(d) ==> d.wf() && self.wf() && other.wf(),
            self.wf() && other.wf() && self.mantissa == 0 ==> r == Some(other.negated()),
            self.wf() && other.wf() && self.mantissa != 0 && other.mantissa == 0 ==> r == Some(self),
            self.wf() && other.wf() && self.mantissa != 0 && other.mantissa != 0 && ({
                let s = common_scale(self, other);
                fits(at_scale(self, s)) && fits(at_scale(other, s)) && fits(
                    at_scale(self, s) - at_scale(other, s),
                )
            }) ==> r == Some(
                Decimal {
                    mantissa: (at_scale(self, common_scale(self, other)) - at_scale(
                        other,
                        common_scale(self, other),
                    )) as i128,
                    scale: common_scale(self, other),
                },
            ),
    {
        let a = rust_decimal::Decimal::try_from_i128_with_scale(self.mantissa, self.scale).ok()?;
        let b = rust_decimal::Decimal::try_from_i128_with_scale(other.mantissa, other.scale).ok()?;
        let c = a.checked_sub(b)?;
        Some(Decimal { mantissa: c.mantissa(), scale: c.scale() })
    }

    /// Calls `rust_decimal::Decimal::checked_mul`. Claimed of it: it is a function of the two
    /// numbers; a product with zero is zero without fractional digits; where the product of the
    /// mantissas fits 96 bits and the scales add up to at most 28, the result is that product at
    /// that scale; where it does once trailing zeros are dropped, the result is the same number, since
    /// no more digits are dropped than needed; any result is a decimal of 96 bits. A value that is none is refused first.
    #[verifier::external_body]
    pub(crate) fn checked_mul(self, other: Decimal) -> (r: Option<Decimal>)
        ensures
            r == decimal_product(self, other),
            r matches Some(d) ==> d.wf() && self.wf() && other.wf(),
            self.wf() && other.wf() ==> exact_product(
                self.mantissa * other.mantissa,
                (self.scale + other.scale) as nat,
                r,
            ),
            self.wf() && other.wf() && (self.mantissa == 0 || other.mantissa == 0) ==> r == Some(
                dec_zero(),
            ),
            self.wf() && other.wf() && self.mantissa != 0 && other.mantissa != 0 && fits(
                self.mantissa * other.mantissa,
            ) && self.scale + other.scale <= MAX_SCALE ==> r == Some(
                Decimal {
                    mantissa: (self.mantissa * other.mantissa) as i128,
                    scale: (self.scale + other.scale) as u32,
                },
            ),
    {
        let a = rust_decimal::Decimal::try_from_i128_with_scale(self.mantissa, self.scale).ok()?;
        let b = rust_decimal::Decimal::try_from_i128_with_scale(other.mantissa, other.scale).ok()?;
        let c = a.checked_mul(b)?;
        Some(Decimal { mantissa: c.mantissa(), scale: c.scale() })
    }

    /// Calls `rust_decimal::Decimal::checked_div`. Claimed of it: it is a function of the two
    /// numbers; there is no quotient by zero; zero divided is zero without fractional digits;
    /// where the divisor's mantissa divides the dividend's, and the result fits 96 bits, the
    /// quotient is exact and keeps the digits that the dividend has more than the divisor; any
    /// other quotient is rounded where it has 28 fractional digits or its mantissa would outgrow
    /// 96 bits with one more, so that it is off by less than one part in `10^27` and `10^-27`;
    /// since it is rounded to a digit no higher than that of the ones, it may fall onto an integer but
    /// never passes one; a quotient of positive numbers is not negative; any result is a decimal of 96
    /// bits. A value that is none is refused first.
    #[verifier::external_body]
    pub(crate) fn checked_div(self, other: Decimal) -> (r: Option<Decimal>)
        ensures
            r == decimal_quotient(self, other),
            r matches Some(d) ==> d.wf() && self.wf() && other.wf() && other.mantissa != 0
                && close_quotient(self, other, d) && (self.mantissa > 0 && other.mantissa > 0
                ==> d.mantissa >= 0),
            self.wf() && other.wf() && self.mantissa == 0 && other.mantissa != 0 ==> r == Some(
                dec_zero(),
            ),
            r matches Some(d) ==> (other.mantissa > 0 ==> keeps_side(self, other, d)),
            self.wf() && other.wf() && self.mantissa != 0 ==> forall|q: int|
                #![trigger q * other.mantissa]
                self.mantissa == q * other.mantissa && other.mantissa != 0 ==> {
                    &&& self.scale >= other.scale ==> r == Some(
                        Decimal { mantissa: q as i128, scale: (self.scale - other.scale) as u32 },
                    )
                    &&& self.scale < other.scale && fits(
                        q * pow10((other.scale - self.scale) as nat),
                    ) ==> r == Some(dec_int(q * pow10((other.scale - self.scale) as nat)))
                },
    {
        let a = rust_decimal::Decimal::try_from_i128_with_scale(self.mantissa, self.scale).ok()?;
        let b = rust_decimal::Decimal::try_from_i128_with_scale(other.mantissa, other.scale).ok()?;
        let c = a.checked_div(b)?;
        Some(Decimal { mantissa: c.mantissa(), scale: c.scale() })
    }

    /// Calls `rust_decimal::Decimal::floor`: the largest integer at most the number, without
    /// fractional digits. `None` where the value is no decimal of 96 bits.
    #[verifier::external_body]
    pub(crate) fn floor(self) -> (r: Option<Decimal>)
        ensures
            r == decimal_floor(self),
            r matches Some(d) ==> d.wf(),
    {
        let a = rust_decimal::Decimal::try_from_i128_with_scale(self.mantissa, self.scale).ok()?;
        let c = a.floor();
        Some(Decimal { mantissa: c.mantissa(), scale: c.scale() })
    }

    /// Calls `rust_decimal::Decimal::ceil`: the smallest integer at least the number, without
    /// fractional digits. `None` where the value is no decimal of 96 bits.
    #[verifier::external_body]
    pub(crate) fn ceil(self) -> (r: Option<Decimal>)
        ensures
            r == decimal_ceil(self),
            r matches Some(d) ==> d.wf(),
    {
        let a = rust_decimal::Decimal::try_from_i128_with_scale(self.mantissa, self.scale).ok()?;
        let c = a.ceil();
        Some(Decimal { mantissa: c.mantissa(), scale: c.scale() })
    }

    /// Calls `rust_decimal::Decimal::normalize`: the same number without the trailing zeros of
    /// its fraction. `None` where the value is no decimal of 96 bits.
    #[verifier::external_body]
    pub(crate) fn normalize(self) -> (r: Option<Decimal>)
        ensures
            (r is Some) == self.wf(),
            r matches Some(d) ==> is_normalized(self, d) && d.wf(),
    {
        let a = rust_decimal::Decimal::try_from_i128_with_scale(self.mantissa, self.scale).ok()?;
        let c = a.normalize();
        Some(Decimal { mantissa: c.mantissa(), scale: c.scale() })
    }

    /// Calls `to_i64` of `rust_decimal::Decimal`: the integer part, where 64 bits hold it.
    #[verifier::external_body]
    pub(crate) fn to_i64(self) -> (r: Option<i64>)
        ensures
            r == decimal_to_i64(self),
    {
        let a = rust_decimal::Decimal::try_from_i128_with_scale(self.mantissa, self.scale).ok()?;
        rust_decimal::prelude::ToPrimitive::to_i64(&a)
    }

    /// The double that the number is read as, by its bits. How a fraction is rounded is left unsaid.
    pub fn as_double(self) -> (r: u64)
        ensures
            reads_as(self, r),
    {
        self.double_bits()
    }

    /// Calls `to_f64` of `rust_decimal::Decimal` and hands out the bits of the double. Claimed of
    /// it: the double is finite and has the number's sign, and that of a number without a fraction
    /// is a function of the integer. How a fraction is rounded rests on `f64::powi`, whose precision
    /// varies, and is left unsaid. A value that is no decimal of 96 bits gives zero bits.
    #[verifier::external_body]
    fn double_bits(self) -> (r: u64)
        ensures
            !self.wf() ==> r == 0,
            self.wf() ==> double_finite(r),
            self.wf() && self.mantissa >= 0 ==> double_key(r) >= 0,
            self.wf() && self.mantissa <= 0 ==> double_key(r) <= 0,
            self.wf() && whole_value(self) is Some ==> r == integer_double(whole_value(self)->0),
    {
        match rust_decimal::Decimal::try_from_i128_with_scale(self.mantissa, self.scale) {
            Ok(a) => rust_decimal::prelude::ToPrimitive::to_f64(&a).unwrap_or_default().to_bits(),
            Err(_) => 0,
        }
    }

    /// Calls the `Display` of `rust_decimal::Decimal`. Claimed of it: it is a function of the
    /// number, and `FromStr` reads the same digits back. A value that is no decimal of 96 bits is
    /// written as an empty text.
    #[verifier::external_body]
    pub(crate) fn text(self) -> (r: String)
        ensures
            r@ == decimal_text(self),
            self.wf() ==> decimal_parsed(r@) == Some(self),
    {
        match rust_decimal::Decimal::try_from_i128_with_scale(self.mantissa, self.scale) {
            Ok(a) => a.to_string(),
            Err(_) => String::new(),
        }
    }

    /// Calls the `FromStr` of `rust_decimal::Decimal`. Claimed of it: it is a function of the
    /// text, and what it reads is a decimal of 96 bits.
    #[verifier::external_body]
    pub(crate) fn parse(text: &str) -> (r: Option<Decimal>)
        ensures
            r == decimal_parsed(text@),
            r matches Some(d) ==> d.wf(),
    {
        let a: rust_decimal::Decimal = text.parse().ok()?;
        Some(Decimal { mantissa: a.mantissa(), scale: a.scale() })
    }
}

/// The number without the trailing zeros of its fraction.
pub open spec fn normal_form(d: Decimal) -> Decimal {
    choose|r: Decimal| is_normalized(d, r)
}

/// A number has one form without trailing zeros.
pub proof fn lemma_normal_unique(d: Decimal, a: Decimal, b: Decimal)
    requires
        is_normalized(d, a),
        is_normalized(d, b),
    ensures
        a == b,
{
    lemma_normal_scales(d, a, b);
    lemma_normal_scales(d, b, a);
    let p = pow10((d.scale - a.scale) as nat);
    lemma_pow_positive(10, (d.scale - a.scale) as nat);
    assert(a.mantissa == b.mantissa) by (nonlinear_arith)
        requires
            a.mantissa * p == b.mantissa * p,
            p > 0,
    ;
}

proof fn lemma_normal_scales(d: Decimal, a: Decimal, b: Decimal)
    requires
        is_normalized(d, a),
        is_normalized(d, b),
    ensures
        a.scale >= b.scale,
{
    if a.scale < b.scale {
        let g = pow10((b.scale - a.scale) as nat);
        let p = pow10((d.scale - b.scale) as nat);
        lemma_pow_positive(10, (d.scale - b.scale) as nat);
        lemma_pow_adds(10, (b.scale - a.scale) as nat, (d.scale - b.scale) as nat);
        assert(a.mantissa * (g * p) == (a.mantissa * g) * p) by (nonlinear_arith);
        assert(a.mantissa * g == b.mantissa) by (nonlinear_arith)
            requires
                (a.mantissa * g) * p == b.mantissa * p,
                p > 0,
        ;
        let h = pow10((b.scale - a.scale - 1) as nat);
        lemma_pow_step((b.scale - a.scale - 1) as nat);
        assert(a.mantissa * (10 * h) == 10 * (a.mantissa * h)) by (nonlinear_arith);
        let k = a.mantissa * h;
        assert(b.mantissa as int == 10 * k);
        assert((10 * k) % 10 == 0);
    }
}

impl Decimal {
    /// The number without the trailing zeros of its fraction. `None` where the value is no decimal
    /// of 96 bits.
    pub fn normal(self) -> (r: Option<Decimal>)
        ensures
            r == (if self.wf() {
                Some(normal_form(self))
            } else {
                None
            }),
            r matches Some(d) ==> is_normalized(self, d) && d.wf(),
    {
        let n = self.normalize()?;
        proof {
            assert(is_normalized(self, n));
            lemma_normal_unique(self, n, normal_form(self));
        }
        Some(n)
    }
}

/// The order of decimals is transitive.
pub proof fn law_order_transitive(a: Decimal, b: Decimal, c: Decimal)
    ensures
        a.is_at_most(b) && b.is_at_most(c) ==> a.is_at_most(c),
        a.is_below(b) && b.is_at_most(c) ==> a.is_below(c),
        a.is_at_most(b) && b.is_below(c) ==> a.is_below(c),
        a.is_below(b) ==> a.is_at_most(b),
        a.is_same(b) ==> a.is_at_most(b) && b.is_at_most(a),
        a.is_same(a),
{
    let pa = pow10(a.scale as nat);
    let pb = pow10(b.scale as nat);
    let pc = pow10(c.scale as nat);
    lemma_pow_positive(10, a.scale as nat);
    lemma_pow_positive(10, b.scale as nat);
    lemma_pow_positive(10, c.scale as nat);
    let x = a.mantissa as int;
    let y = b.mantissa as int;
    let z = c.mantissa as int;
    assert(x * pb * pc == x * pc * pb) by (nonlinear_arith);
    assert(y * pa * pc == y * pc * pa) by (nonlinear_arith);
    assert(z * pb * pa == z * pa * pb) by (nonlinear_arith);
    if x * pb <= y * pa {
        assert(x * pb * pc <= y * pa * pc) by (nonlinear_arith)
            requires
                x * pb <= y * pa,
                pc > 0,
        ;
    }
    if x * pb < y * pa {
        assert(x * pb * pc < y * pa * pc) by (nonlinear_arith)
            requires
                x * pb < y * pa,
                pc > 0,
        ;
    }
    if y * pc <= z * pb {
        assert(y * pc * pa <= z * pb * pa) by (nonlinear_arith)
            requires
                y * pc <= z * pb,
                pa > 0,
        ;
    }
    if y * pc < z * pb {
        assert(y * pc * pa < z * pb * pa) by (nonlinear_arith)
            requires
                y * pc < z * pb,
                pa > 0,
        ;
    }
    if x * pc * pb <= z * pa * pb {
        assert(x * pc <= z * pa) by (nonlinear_arith)
            requires
                x * pc * pb <= z * pa * pb,
                pb > 0,
        ;
    }
    if x * pc * pb < z * pa * pb {
        assert(x * pc < z * pa) by (nonlinear_arith)
            requires
                x * pc * pb < z * pa * pb,
                pb > 0,
        ;
    }
}

/// A number as a count of `10^-28`, the least that a decimal can tell apart.
pub open spec fn worth(d: Decimal) -> int {
    at_scale(d, MAX_SCALE)
}

/// What one is worth.
pub open spec fn unit_worth() -> int {
    pow10(MAX_SCALE as nat)
}

/// Two numbers and what they come to together, written with the larger of their scales, fit 96 bits.
pub open spec fn sum_fits(a: Decimal, b: Decimal) -> bool {
    let s = common_scale(a, b);
    &&& a.wf() && b.wf()
    &&& fits(at_scale(a, s)) && fits(at_scale(b, s)) && fits(at_scale(a, s) + at_scale(b, s))
}

/// Two numbers and their difference, written with the larger of their scales, fit 96 bits.
pub open spec fn difference_fits(a: Decimal, b: Decimal) -> bool {
    let s = common_scale(a, b);
    &&& a.wf() && b.wf()
    &&& fits(at_scale(a, s)) && fits(at_scale(b, s)) && fits(at_scale(a, s) - at_scale(b, s))
}

/// The product of two numbers fits 96 bits and 28 fractional digits once trailing zeros are dropped.
pub open spec fn product_fits(a: Decimal, b: Decimal) -> bool {
    let m = a.mantissa * b.mantissa;
    let s = a.scale + b.scale;
    &&& a.wf() && b.wf()
    &&& exists|k: nat|
        #![trigger pow10(k)]
        k <= s && s - k <= MAX_SCALE && m % pow10(k) == 0 && fits(m / pow10(k))
}

/// What a computed sum promises: it is exact where the numbers and their sum fit, and the other number where
/// one is zero.
pub open spec fn sum_known(a: Decimal, b: Decimal) -> bool {
    &&& decimal_sum(a, b) matches Some(d) ==> d.wf() && a.wf() && b.wf()
    &&& a.wf() && b.wf() && a.mantissa == 0 ==> decimal_sum(a, b) == Some(b)
    &&& a.wf() && b.wf() && a.mantissa != 0 && b.mantissa == 0 ==> decimal_sum(a, b) == Some(a)
    &&& a.mantissa != 0 && b.mantissa != 0 && sum_fits(a, b) ==> decimal_sum(a, b) == Some(
        Decimal {
            mantissa: (at_scale(a, common_scale(a, b)) + at_scale(b, common_scale(a, b))) as i128,
            scale: common_scale(a, b),
        },
    )
}

/// What a computed product promises: it is exact where the product fits once trailing zeros are dropped.
pub open spec fn product_known(a: Decimal, b: Decimal) -> bool {
    &&& decimal_product(a, b) matches Some(d) ==> d.wf() && a.wf() && b.wf()
    &&& a.wf() && b.wf() ==> exact_product(
        a.mantissa * b.mantissa,
        (a.scale + b.scale) as nat,
        decimal_product(a, b),
    )
    &&& a.wf() && b.wf() && a.mantissa != 0 && b.mantissa != 0 && fits(a.mantissa * b.mantissa)
        && a.scale + b.scale <= MAX_SCALE ==> decimal_product(a, b) == Some(
        Decimal {
            mantissa: (a.mantissa * b.mantissa) as i128,
            scale: (a.scale + b.scale) as u32,
        },
    )
}

/// The computed sum of two numbers is their sum, where that fits.
pub open spec fn adds(a: Decimal, b: Decimal) -> bool {
    &&& decimal_sum(a, b) matches Some(d) ==> d.wf() && a.wf() && b.wf()
    &&& sum_fits(a, b) ==> (decimal_sum(a, b) matches Some(d) && worth(d) == worth(a) + worth(b)
        && d.scale <= common_scale(a, b))
}

/// The computed difference of two numbers is their difference, where that fits.
pub open spec fn subtracts(a: Decimal, b: Decimal) -> bool {
    &&& decimal_difference(a, b) matches Some(d) ==> d.wf() && a.wf() && b.wf()
    &&& difference_fits(a, b) ==> (decimal_difference(a, b) matches Some(d) && worth(d) == worth(a)
        - worth(b) && d.scale <= common_scale(a, b))
}

/// The computed product of two numbers is their product, where that fits.
pub open spec fn multiplies(a: Decimal, b: Decimal) -> bool {
    &&& decimal_product(a, b) matches Some(d) ==> d.wf() && a.wf() && b.wf()
    &&& product_fits(a, b) ==> (decimal_product(a, b) matches Some(d) && worth(d) * unit_worth()
        == worth(a) * worth(b))
    &&& a.wf() && b.wf() && a.mantissa != 0 && b.mantissa != 0 && fits(a.mantissa * b.mantissa)
        && a.scale + b.scale <= MAX_SCALE ==> decimal_product(a, b) == Some(
        Decimal {
            mantissa: (a.mantissa * b.mantissa) as i128,
            scale: (a.scale + b.scale) as u32,
        },
    )
}

/// The size of an integer.
pub open spec fn abs_int(n: int) -> int {
    if n < 0 {
        -n
    } else {
        n
    }
}

/// The computed quotient of two numbers is off by at most one part in `10^27` of the quotient and
/// `10^-27`, and lies on no other side of zero than the quotient by a positive number.
pub open spec fn divides(a: Decimal, b: Decimal) -> bool {
    decimal_quotient(a, b) matches Some(d) ==> {
        let off = worth(d) * worth(b) - worth(a) * unit_worth();
        let room = unit_worth() * (abs_int(worth(a)) + abs_int(worth(b)));
        &&& d.wf() && a.wf() && b.wf() && b.mantissa != 0
        &&& quotient_precision() * off <= room && -(quotient_precision() * off) <= room
        &&& b.mantissa > 0 && a.mantissa >= 0 ==> d.mantissa >= 0
        &&& b.mantissa > 0 && a.mantissa <= 0 ==> d.mantissa <= 0
    }
}

impl Decimal {
    /// The sum. `None` where it is no decimal of 96 bits.
    pub fn plus(self, other: Decimal) -> (r: Option<Decimal>)
        ensures
            r == decimal_sum(self, other),
            r matches Some(d) ==> d.wf(),
            adds(self, other),
    {
        let r = self.checked_add(other);
        proof {
            lemma_adds(self, other);
        }
        r
    }

    /// The difference. `None` where it is no decimal of 96 bits.
    pub fn minus(self, other: Decimal) -> (r: Option<Decimal>)
        ensures
            r == decimal_difference(self, other),
            r matches Some(d) ==> d.wf(),
            subtracts(self, other),
    {
        let r = self.checked_sub(other);
        proof {
            if difference_fits(self, other) {
                let s = common_scale(self, other);
                lemma_rescale(self, s);
                lemma_rescale(other, s);
                let g = pow10((MAX_SCALE - s) as nat);
                let x = at_scale(self, s);
                let y = at_scale(other, s);
                assert((x - y) * g == x * g - y * g) by (nonlinear_arith);
                lemma_worth_sign(self);
                lemma_worth_sign(other);
                let h = pow10((MAX_SCALE - other.scale) as nat);
                assert((-other.mantissa) * h == -(other.mantissa * h)) by (nonlinear_arith);
            }
        }
        r
    }

    /// The product. `None` where it is no decimal of 96 bits.
    pub fn times(self, other: Decimal) -> (r: Option<Decimal>)
        ensures
            r == decimal_product(self, other),
            r matches Some(d) ==> d.wf(),
            multiplies(self, other),
    {
        let r = self.checked_mul(other);
        proof {
            lemma_multiplies(self, other);
        }
        r
    }

    /// The quotient. `None` where it is no decimal of 96 bits.
    pub fn over(self, other: Decimal) -> (r: Option<Decimal>)
        ensures
            r == decimal_quotient(self, other),
            r matches Some(d) ==> d.wf(),
            r matches Some(d) ==> (other.mantissa > 0 ==> keeps_side(self, other, d)),
            divides(self, other),
    {
        let r = self.checked_div(other);
        proof {
            if let Some(d) = r {
                lemma_quotient_worth(self, other, d);
                if other.mantissa > 0 {
                    let x = other.mantissa * pow10(self.scale as nat);
                    assert(0 * x == 0);
                    assert(0 * (other.mantissa * pow10(self.scale as nat)) == 0);
                    lemma_pow_positive(10, other.scale as nat);
                    let g = pow10(other.scale as nat);
                    assert(self.mantissa >= 0 ==> self.mantissa * g >= 0) by (nonlinear_arith)
                        requires
                            g > 0,
                    ;
                    assert(self.mantissa <= 0 ==> self.mantissa * g <= 0) by (nonlinear_arith)
                        requires
                            g > 0,
                    ;
                }
            }
        }
        r
    }
}

/// What a computed sum promises makes it the sum.
pub proof fn lemma_adds(a: Decimal, b: Decimal)
    requires
        sum_known(a, b),
    ensures
        adds(a, b),
{
    if sum_fits(a, b) {
        let s = common_scale(a, b);
        lemma_rescale(a, s);
        lemma_rescale(b, s);
        let g = pow10((MAX_SCALE - s) as nat);
        let x = at_scale(a, s);
        let y = at_scale(b, s);
        assert((x + y) * g == x * g + y * g) by (nonlinear_arith);
        lemma_worth_sign(a);
        lemma_worth_sign(b);
    }
}

/// What a computed product promises makes it the product.
pub proof fn lemma_multiplies(a: Decimal, b: Decimal)
    requires
        product_known(a, b),
    ensures
        multiplies(a, b),
{
    if product_fits(a, b) {
        let m = a.mantissa * b.mantissa;
        let s = (a.scale + b.scale) as nat;
        let k = choose|k: nat|
            #![trigger pow10(k)]
            k <= s && s - k <= MAX_SCALE && m % pow10(k) == 0 && fits(m / pow10(k));
        assert(pow10(k) == pow10(k));
        lemma_product_worth(a, b, decimal_product(a, b)->0);
    }
}

/// A number written with more digits is worth the same.
pub proof fn lemma_rescale(d: Decimal, s: u32)
    requires
        d.scale <= s <= MAX_SCALE,
    ensures
        at_scale(d, s) * pow10((MAX_SCALE - s) as nat) == worth(d),
{
    let a = pow10((s - d.scale) as nat);
    let b = pow10((MAX_SCALE - s) as nat);
    lemma_pow_adds(10, (s - d.scale) as nat, (MAX_SCALE - s) as nat);
    assert((d.mantissa * a) * b == d.mantissa * (a * b)) by (nonlinear_arith);
}

proof fn lemma_worth_sign(d: Decimal)
    ensures
        d.mantissa == 0 ==> worth(d) == 0,
        d.mantissa > 0 ==> worth(d) > 0,
        d.mantissa < 0 ==> worth(d) < 0,
{
    let g = pow10((MAX_SCALE - d.scale) as nat);
    lemma_pow_positive(10, (MAX_SCALE - d.scale) as nat);
    let m = d.mantissa as int;
    assert(m == 0 ==> m * g == 0) by (nonlinear_arith);
    assert(m > 0 ==> m * g > 0) by (nonlinear_arith)
        requires
            g > 0,
    ;
    assert(m < 0 ==> m * g < 0) by (nonlinear_arith)
        requires
            g > 0,
    ;
}

/// What a number is worth, with the power of ten that it is divided by.
pub proof fn lemma_worth(d: Decimal)
    requires
        d.scale <= MAX_SCALE,
    ensures
        worth(d) * pow10(d.scale as nat) == d.mantissa * unit_worth(),
{
    let g = pow10((MAX_SCALE - d.scale) as nat);
    let p = pow10(d.scale as nat);
    lemma_pow_adds(10, (MAX_SCALE - d.scale) as nat, d.scale as nat);
    assert((d.mantissa * g) * p == d.mantissa * (g * p)) by (nonlinear_arith);
}

proof fn lemma_product_worth(a: Decimal, b: Decimal, d: Decimal)
    requires
        a.wf(),
        b.wf(),
        d.wf(),
        d.mantissa * pow10((a.scale + b.scale) as nat) == (a.mantissa * b.mantissa) * pow10(
            d.scale as nat,
        ),
    ensures
        worth(d) * unit_worth() == worth(a) * worth(b),
{
    let u = unit_worth();
    let pa = pow10(a.scale as nat);
    let pb = pow10(b.scale as nat);
    let pd = pow10(d.scale as nat);
    lemma_pow_positive(10, a.scale as nat);
    lemma_pow_positive(10, b.scale as nat);
    lemma_pow_positive(10, d.scale as nat);
    lemma_pow_adds(10, a.scale as nat, b.scale as nat);
    lemma_worth(a);
    lemma_worth(b);
    lemma_worth(d);
    let x = worth(a);
    let y = worth(b);
    let z = worth(d);
    let am = a.mantissa as int;
    let bm = b.mantissa as int;
    let dm = d.mantissa as int;
    let p = pa * pb;
    assert((x * y) * p == (x * pa) * (y * pb)) by (nonlinear_arith)
        requires
            p == pa * pb,
    ;
    assert((am * u) * (bm * u) == (am * bm) * (u * u)) by (nonlinear_arith);
    assert(((x * y) * p) * pd == (am * bm * pd) * (u * u)) by (nonlinear_arith)
        requires
            (x * y) * p == (am * bm) * (u * u),
    ;
    assert(((z * u) * p) * pd == (dm * p) * (u * u)) by (nonlinear_arith)
        requires
            z * pd == dm * u,
    ;
    let w = p * pd;
    assert(w > 0) by (nonlinear_arith)
        requires
            w == pa * pb * pd,
            pa > 0,
            pb > 0,
            pd > 0,
    ;
    assert((z * u) * w == (x * y) * w) by (nonlinear_arith)
        requires
            ((z * u) * p) * pd == ((x * y) * p) * pd,
            w == p * pd,
    ;
    assert(z * u == x * y) by (nonlinear_arith)
        requires
            (z * u) * w == (x * y) * w,
            w > 0,
    ;
}

proof fn lemma_quotient_worth(a: Decimal, b: Decimal, d: Decimal)
    requires
        a.wf(),
        b.wf(),
        d.wf(),
        close_quotient(a, b, d),
    ensures
        ({
            let off = worth(d) * worth(b) - worth(a) * unit_worth();
            let room = unit_worth() * (abs_int(worth(a)) + abs_int(worth(b)));
            quotient_precision() * off <= room && -(quotient_precision() * off) <= room
        }),
{
    let u = unit_worth();
    let k = quotient_precision();
    let pa = pow10(a.scale as nat);
    let pb = pow10(b.scale as nat);
    let pd = pow10(d.scale as nat);
    lemma_pow_positive(10, a.scale as nat);
    lemma_pow_positive(10, b.scale as nat);
    lemma_pow_positive(10, d.scale as nat);
    lemma_pow_positive(10, MAX_SCALE as nat);
    lemma_worth(a);
    lemma_worth(b);
    lemma_worth(d);
    lemma_worth_sign(a);
    lemma_worth_sign(b);
    let x = worth(a);
    let y = worth(b);
    let z = worth(d);
    let am = a.mantissa as int;
    let bm = b.mantissa as int;
    let dm = d.mantissa as int;
    let aa = abs_int(am);
    let ba = abs_int(bm);
    assert(a.magnitude().mantissa == aa && b.magnitude().mantissa == ba);
    let off = dm * bm * pa - am * pb * pd;
    let room = pd * (aa * pb + ba * pa);
    let off2 = z * y - x * u;
    let room2 = u * (abs_int(x) + abs_int(y));
    let w = pa * pb * pd;
    let uu = u * u;
    assert(w > 0) by (nonlinear_arith)
        requires
            w == pa * pb * pd,
            pa > 0,
            pb > 0,
            pd > 0,
    ;
    assert(uu > 0) by (nonlinear_arith)
        requires
            uu == u * u,
            u > 0,
    ;
    let zp = z * pd;
    let yp = y * pb;
    assert((z * y) * w == (zp * yp) * pa) by (nonlinear_arith)
        requires
            zp == z * pd,
            yp == y * pb,
            w == pa * pb * pd,
    ;
    assert((dm * u) * (bm * u) * pa == (dm * bm * pa) * uu) by (nonlinear_arith)
        requires
            uu == u * u,
    ;
    assert((x * u) * w == (am * pb * pd) * uu) by (nonlinear_arith)
        requires
            x * pa == am * u,
            w == pa * pb * pd,
            uu == u * u,
    ;
    assert(off2 * w == off * uu) by (nonlinear_arith)
        requires
            off2 == z * y - x * u,
            off == dm * bm * pa - am * pb * pd,
            (z * y) * w == (dm * bm * pa) * uu,
            (x * u) * w == (am * pb * pd) * uu,
    ;
    let xa = abs_int(x);
    let ya = abs_int(y);
    assert(xa * pa == aa * u) by {
        assert((-x) * pa == -(x * pa)) by (nonlinear_arith);
        assert((-am) * u == -(am * u)) by (nonlinear_arith);
    }
    assert(ya * pb == ba * u) by {
        assert((-y) * pb == -(y * pb)) by (nonlinear_arith);
        assert((-bm) * u == -(bm * u)) by (nonlinear_arith);
    }
    assert((u * xa) * w == (pd * (aa * pb)) * uu) by (nonlinear_arith)
        requires
            xa * pa == aa * u,
            w == pa * pb * pd,
            uu == u * u,
    ;
    assert((u * ya) * w == (pd * (ba * pa)) * uu) by (nonlinear_arith)
        requires
            ya * pb == ba * u,
            w == pa * pb * pd,
            uu == u * u,
    ;
    assert(room2 * w == room * uu) by (nonlinear_arith)
        requires
            room2 == u * (xa + ya),
            room == pd * (aa * pb + ba * pa),
            (u * xa) * w == (pd * (aa * pb)) * uu,
            (u * ya) * w == (pd * (ba * pa)) * uu,
    ;
    lemma_scale_bound(k, off, room, off2, room2, w, uu);
    lemma_scale_bound(k, -off, room, -off2, room2, w, uu);
    assert((-off2) * w == -(off2 * w)) by (nonlinear_arith);
    assert((-off) * uu == -(off * uu)) by (nonlinear_arith);
    assert(k * (-off) == -(k * off)) by (nonlinear_arith);
    assert(k * (-off2) == -(k * off2)) by (nonlinear_arith);
}

/// A bound stays one when both sides are written in another unit.
proof fn lemma_scale_bound(k: int, off: int, room: int, off2: int, room2: int, w: int, uu: int)
    ensures
        k * off <= room && off2 * w == off * uu && room2 * w == room * uu && w > 0 && uu > 0 ==> k
            * off2 <= room2,
{
    if k * off <= room && off2 * w == off * uu && room2 * w == room * uu && w > 0 && uu > 0 {
        assert((k * off) * uu <= room * uu) by (nonlinear_arith)
            requires
                k * off <= room,
                uu > 0,
        ;
        assert((k * off2) * w == (k * off) * uu) by (nonlinear_arith)
            requires
                off2 * w == off * uu,
        ;
        assert(k * off2 <= room2) by (nonlinear_arith)
            requires
                (k * off2) * w <= room2 * w,
                w > 0,
        ;
    }
}

/// Decimals are ordered as what they are worth.
pub proof fn law_order_is_by_worth(a: Decimal, b: Decimal)
    requires
        a.scale <= MAX_SCALE,
        b.scale <= MAX_SCALE,
    ensures
        a.is_below(b) <==> worth(a) < worth(b),
        a.is_same(b) <==> worth(a) == worth(b),
        a.is_at_most(b) <==> worth(a) <= worth(b),
        dec_zero().is_below(a) <==> worth(a) > 0,
        a.is_below(dec_zero()) <==> worth(a) < 0,
        a.zero_valued() <==> worth(a) == 0,
{
    lemma_sign(a);
    lemma_worth_sign(a);
    let s = common_scale(a, b);
    let g = pow10((MAX_SCALE - s) as nat);
    lemma_pow_positive(10, (MAX_SCALE - s) as nat);
    lemma_rescale(a, s);
    lemma_rescale(b, s);
    if a.scale <= b.scale {
        lemma_align(a, b);
    } else {
        lemma_align(b, a);
    }
    lemma_pow0(10);
    let x = at_scale(a, s);
    let y = at_scale(b, s);
    assert(at_scale(a, a.scale) == a.mantissa && at_scale(b, b.scale) == b.mantissa) by {
        assert(a.mantissa * 1 == a.mantissa && b.mantissa * 1 == b.mantissa);
    }
    assert(x < y ==> x * g < y * g) by (nonlinear_arith)
        requires
            g > 0,
    ;
    assert(y < x ==> y * g < x * g) by (nonlinear_arith)
        requires
            g > 0,
    ;
}

/// The larger of two numbers is one of them and below neither; the smaller is one of them and above neither; a
/// number without its sign is not negative and as far from zero.
pub proof fn law_extremes(a: Decimal, b: Decimal)
    ensures
        a.larger(b) == a || a.larger(b) == b,
        a.is_at_most(a.larger(b)) && b.is_at_most(a.larger(b)),
        a.smaller(b) == a || a.smaller(b) == b,
        a.smaller(b).is_at_most(a) && a.smaller(b).is_at_most(b),
        a.wf() ==> a.magnitude().mantissa >= 0 && a.magnitude().scale == a.scale && (
        a.magnitude().mantissa == a.mantissa || a.magnitude().mantissa == -a.mantissa),
{
    law_order_transitive(a, b, a);
    law_order_transitive(b, a, b);
    law_order_transitive(a, a, b);
    law_order_transitive(b, b, a);
}

} // verus!
