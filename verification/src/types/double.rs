//! The order of IEEE 754 doubles, worked out on their bits.
use vstd::prelude::*;

verus! {

/// The sign bit.
pub const SIGN_BIT: u64 = 0x8000_0000_0000_0000;

/// The bits of positive infinity; the bits of a larger magnitude are no number.
pub const INFINITY_BITS: u64 = 0x7FF0_0000_0000_0000;

/// The bits of the largest finite double.
pub const MAX_BITS: u64 = 0x7FEF_FFFF_FFFF_FFFF;

/// The bits without the sign.
pub open spec fn double_magnitude(bits: u64) -> int {
    if bits >= SIGN_BIT {
        bits - SIGN_BIT
    } else {
        bits as int
    }
}

/// An integer that orders doubles as their values do: the two zeros share one.
pub open spec fn double_key(bits: u64) -> int {
    if bits >= SIGN_BIT {
        -(bits - SIGN_BIT)
    } else {
        bits as int
    }
}

/// The double is a finite number.
pub open spec fn double_finite(bits: u64) -> bool {
    double_magnitude(bits) < INFINITY_BITS
}

/// The double is a number, if perhaps an infinite one.
pub open spec fn double_number(bits: u64) -> bool {
    double_magnitude(bits) <= INFINITY_BITS
}

/// `a > b` for doubles: false where one of them is no number.
pub open spec fn double_above(a: u64, b: u64) -> bool {
    double_number(a) && double_number(b) && double_key(a) > double_key(b)
}

fn magnitude_of(bits: u64) -> (r: u64)
    ensures
        r == double_magnitude(bits),
{
    if bits >= SIGN_BIT {
        bits - SIGN_BIT
    } else {
        bits
    }
}

/// The integer that orders doubles.
pub fn key_of(bits: u64) -> (r: i128)
    ensures
        r == double_key(bits),
{
    if bits >= SIGN_BIT {
        -((bits - SIGN_BIT) as i128)
    } else {
        bits as i128
    }
}

/// Whether the double is a finite number.
pub fn is_finite(bits: u64) -> (r: bool)
    ensures
        r == double_finite(bits),
{
    magnitude_of(bits) < INFINITY_BITS
}

/// Whether `a > b` for doubles.
pub fn is_above(a: u64, b: u64) -> (r: bool)
    ensures
        r == double_above(a, b),
{
    magnitude_of(a) <= INFINITY_BITS && magnitude_of(b) <= INFINITY_BITS && key_of(a) > key_of(b)
}

/// No double lies above itself, and of two doubles at most one lies above the other.
pub proof fn law_above_is_strict(a: u64, b: u64)
    ensures
        !double_above(a, a),
        !(double_above(a, b) && double_above(b, a)),
{
}

/// The numbers of bits without a sign grow with the bits, those of bits with a sign fall with them, and both are zero
/// where there is nothing but the sign: so the numbers of positive doubles lie above those of negative ones.
pub proof fn law_key_follows_the_bits(a: u64, b: u64)
    ensures
        double_key(0) == 0 && double_key(SIGN_BIT) == 0,
        a < SIGN_BIT && b < SIGN_BIT ==> (double_key(a) < double_key(b) <==> a < b),
        a >= SIGN_BIT && b >= SIGN_BIT ==> (double_key(a) < double_key(b) <==> b < a),
        a > SIGN_BIT && b < SIGN_BIT ==> double_key(a) < double_key(b),
        double_finite(a) && double_finite(b) ==> (double_above(a, b) <==> double_key(a) > double_key(b)),
{
}

} // verus!
