//! Points in time and the clocks that tell them.
use vstd::prelude::*;

verus! {

/// The 64-bit integer nearest to `n`.
pub open spec fn clamp_i64(n: int) -> int {
    if n > i64::MAX {
        i64::MAX as int
    } else if n < i64::MIN {
        i64::MIN as int
    } else {
        n
    }
}

/// The quotient of `a` by a positive `b`, cut off towards zero.
pub open spec fn cut_quotient(a: int, b: int) -> int {
    if a >= 0 {
        a / b
    } else {
        -((-a) / b)
    }
}

/// An unsigned 64-bit integer read as a signed one.
pub open spec fn as_signed(n: u64) -> int {
    if n <= i64::MAX {
        n as int
    } else {
        n - 0x1_0000_0000_0000_0000
    }
}

/// A signed 64-bit integer read as an unsigned one.
pub open spec fn as_unsigned(n: int) -> int {
    if n >= 0 {
        n
    } else {
        n + 0x1_0000_0000_0000_0000
    }
}

/// Reads an unsigned 64-bit integer as a signed one.
pub fn to_signed(n: u64) -> (r: i64)
    ensures
        r == as_signed(n),
{
    if n <= i64::MAX as u64 {
        n as i64
    } else {
        let low: u64 = n - 0x8000_0000_0000_0000;
        (low as i64) + i64::MIN
    }
}

/// Reads a signed 64-bit integer as an unsigned one.
pub fn to_unsigned(n: i64) -> (r: u64)
    ensures
        r == as_unsigned(n as int),
{
    if n >= 0 {
        n as u64
    } else {
        let m: i128 = (n as i128) + 0x1_0000_0000_0000_0000;
        m as u64
    }
}

/// `a * b`, held within 64 bits.
pub fn saturating_product(a: i64, b: i64) -> (r: i64)
    requires
        b > 0,
    ensures
        r == clamp_i64(a * b),
{
    match a.checked_mul(b) {
        Some(v) => v,
        None => {
            proof {
                if a >= 0 {
                    assert(a * b >= 0) by (nonlinear_arith)
                        requires
                            a >= 0,
                            b > 0,
                    ;
                } else {
                    assert(a * b < 0) by (nonlinear_arith)
                        requires
                            a < 0,
                            b > 0,
                    ;
                }
            }
            if a > 0 {
                i64::MAX
            } else {
                i64::MIN
            }
        },
    }
}

/// `a + b`, held within 64 bits.
pub fn saturating_sum(a: i64, b: i64) -> (r: i64)
    ensures
        r == clamp_i64(a + b),
{
    match a.checked_add(b) {
        Some(v) => v,
        None => if a > 0 {
            i64::MAX
        } else {
            i64::MIN
        },
    }
}

/// `a - b`, held within 64 bits.
pub fn saturating_difference(a: i64, b: i64) -> (r: i64)
    ensures
        r == clamp_i64(a - b),
{
    match a.checked_sub(b) {
        Some(v) => v,
        None => if b < 0 {
            i64::MAX
        } else {
            i64::MIN
        },
    }
}

/// Nanoseconds since the Unix epoch.
#[derive(Clone, Copy, Debug, PartialEq, Eq, PartialOrd, Ord, Hash, Structural)]
pub struct Ts(pub i64);

impl Default for Ts {
    fn default() -> (r: Self)
        ensures
            r == Ts(0),
    {
        Ts(0)
    }
}

impl Ts {
    /// The time `ms` milliseconds later, held within 64 bits.
    pub open spec fn later(self, ms: int) -> Ts {
        Ts(clamp_i64(self.0 + clamp_i64(ms * 1_000_000)) as i64)
    }

    /// Whole milliseconds from `earlier` to `self`; `None` where 64 bits do not hold the
    /// difference in nanoseconds.
    pub open spec fn ms_since(self, earlier: Ts) -> Option<int> {
        if i64::MIN <= self.0 - earlier.0 <= i64::MAX {
            Some(cut_quotient(self.0 - earlier.0, 1_000_000))
        } else {
            None
        }
    }

    pub fn from_millis(ms: i64) -> (r: Self)
        ensures
            r.0 == clamp_i64(ms * 1_000_000),
    {
        Ts(saturating_product(ms, 1_000_000))
    }

    pub fn from_secs(secs: i64) -> (r: Self)
        ensures
            r.0 == clamp_i64(secs * 1_000_000_000),
    {
        Ts(saturating_product(secs, 1_000_000_000))
    }

    pub fn from_micros(us: i64) -> (r: Self)
        ensures
            r.0 == clamp_i64(us * 1_000),
    {
        Ts(saturating_product(us, 1_000))
    }

    pub fn millis(self) -> (r: i64)
        ensures
            r == cut_quotient(self.0 as int, 1_000_000),
    {
        self.0 / 1_000_000
    }

    pub fn saturating_add_millis(self, ms: i64) -> (r: Self)
        ensures
            r == self.later(ms as int),
    {
        Ts(saturating_sum(self.0, saturating_product(ms, 1_000_000)))
    }

    /// Whole milliseconds from `earlier` to `self`.
    pub fn duration_since_ms(self, earlier: Self) -> (r: i64)
        requires
            i64::MIN <= self.0 - earlier.0 <= i64::MAX,
        ensures
            self.ms_since(earlier) == Some(r as int),
    {
        (self.0 - earlier.0) / 1_000_000
    }

    /// Whole milliseconds from `earlier` to `self`, where 64 bits hold the difference.
    pub fn checked_ms_since(self, earlier: Self) -> (r: Option<i64>)
        ensures
            match r {
                Some(v) => self.ms_since(earlier) == Some(v as int),
                None => self.ms_since(earlier) is None,
            },
    {
        match self.0.checked_sub(earlier.0) {
            Some(d) => Some(d / 1_000_000),
            None => None,
        }
    }

    /// The time that the system's clock shows.
    pub fn now_system() -> Self {
        Ts(system_nanos())
    }

    /// Whole seconds of the time, its milliseconds read as an unsigned number.
    pub fn unsigned_secs(self) -> (r: u64)
        ensures
            r == as_unsigned(cut_quotient(self.0 as int, 1_000_000)) / 1000,
    {
        to_unsigned(self.millis()) / 1000
    }

    /// Whole milliseconds of the time, read as an unsigned number.
    pub fn unsigned_millis(self) -> (r: u64)
        ensures
            r == as_unsigned(cut_quotient(self.0 as int, 1_000_000)),
    {
        to_unsigned(self.millis())
    }
}

/// Calls `std::time::SystemTime::now`. Nothing is claimed of the time that it tells.
#[verifier::external_body]
fn system_nanos() -> i64 {
    let d = std::time::SystemTime::now().duration_since(std::time::UNIX_EPOCH).unwrap_or_default();
    d.as_nanos() as i64
}

/// What tells the time.
pub trait Clock: Send + Sync {
    fn now(&self) -> Ts;
}

/// The system's clock.
#[derive(Debug, Default, Clone, Copy)]
pub struct SystemClock;

impl Clock for SystemClock {
    fn now(&self) -> Ts {
        Ts::now_system()
    }
}

/// A clock that stands still until it is moved.
#[derive(Debug)]
pub struct TestClock {
    pub now: Ts,
}

impl TestClock {
    pub fn new(start: Ts) -> (r: Self)
        ensures
            r.now == start,
    {
        TestClock { now: start }
    }

    pub fn set(&mut self, ts: Ts)
        ensures
            final(self).now == ts,
    {
        self.now = ts;
    }

    /// Moves the clock; past the end of 64 bits it starts over at the other end.
    pub fn advance_ms(&mut self, ms: i64)
        ensures
            final(self).now == Ts(
                vstd::wrapping::i64_specs::wrapping_add(
                    old(self).now.0,
                    clamp_i64(ms * 1_000_000) as i64,
                ),
            ),
    {
        self.now = Ts(self.now.0.wrapping_add(saturating_product(ms, 1_000_000)));
    }
}

impl Clock for TestClock {
    fn now(&self) -> (r: Ts)
        ensures
            r == self.now,
    {
        self.now
    }
}

} // verus!
