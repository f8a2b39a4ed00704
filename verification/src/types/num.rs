//! Prices and quantities.
use crate::types::decimal::{
    dec_int, dec_zero, decimal_abs, decimal_difference, decimal_parsed, decimal_product,
    decimal_quotient, decimal_sum, decimal_text, Decimal,
};
use vstd::prelude::*;

verus! {

#[derive(Clone, Copy, Debug)]
pub struct Px(pub Decimal);

#[derive(Clone, Copy, Debug)]
pub struct Qty(pub Decimal);

/// A price of a number that may have failed to come out.
pub open spec fn to_px(d: Option<Decimal>) -> Option<Px> {
    match d {
        Some(v) => Some(Px(v)),
        None => None,
    }
}

/// A quantity of a number that may have failed to come out.
pub open spec fn to_qty(d: Option<Decimal>) -> Option<Qty> {
    match d {
        Some(v) => Some(Qty(v)),
        None => None,
    }
}

/// The price half way between two.
pub open spec fn mid_px(bid: Px, ask: Px) -> Option<Px> {
    match decimal_sum(bid.0, ask.0) {
        Some(s) => to_px(decimal_quotient(s, dec_int(2))),
        None => None,
    }
}

impl Default for Px {
    fn default() -> (r: Self)
        ensures
            r == Px(dec_zero()),
    {
        Px(Decimal::zero())
    }
}

impl PartialEq for Px {
    fn eq(&self, other: &Self) -> (r: bool) {
        self.0.same(other.0)
    }
}

impl vstd::std_specs::cmp::PartialEqSpecImpl for Px {
    open spec fn obeys_eq_spec() -> bool {
        true
    }

    open spec fn eq_spec(&self, other: &Self) -> bool {
        self.0.is_same(other.0)
    }
}

impl Eq for Px {

}

impl Px {
    pub fn new(v: Decimal) -> (r: Self)
        ensures
            r == Px(v),
    {
        Px(v)
    }

    /// The price that a text writes out; `None` where it is no decimal.
    pub fn from_str_exact(s: &str) -> (r: Option<Self>)
        ensures
            r == to_px(decimal_parsed(s@)),
    {
        match Decimal::parse(s) {
            Some(v) => Some(Px(v)),
            None => None,
        }
    }

    pub fn is_positive(self) -> (r: bool)
        ensures
            r == dec_zero().is_below(self.0),
            r == (self.0.mantissa > 0),
    {
        self.0.is_positive()
    }

    /// The price half way between two.
    pub fn mid(bid: Self, ask: Self) -> (r: Option<Self>)
        ensures
            r == mid_px(bid, ask),
    {
        let s = bid.0.checked_add(ask.0)?;
        let q = s.checked_div(Decimal::from_int(2))?;
        Some(Px(q))
    }

    pub fn abs(self) -> (r: Option<Self>)
        ensures
            r == to_px(decimal_abs(self.0)),
    {
        Some(Px(self.0.checked_abs()?))
    }

    pub fn plus(self, rhs: Self) -> (r: Option<Self>)
        ensures
            r == to_px(decimal_sum(self.0, rhs.0)),
    {
        Some(Px(self.0.checked_add(rhs.0)?))
    }

    pub fn minus(self, rhs: Self) -> (r: Option<Self>)
        ensures
            r == to_px(decimal_difference(self.0, rhs.0)),
    {
        Some(Px(self.0.checked_sub(rhs.0)?))
    }

    pub fn times(self, rhs: Decimal) -> (r: Option<Self>)
        ensures
            r == to_px(decimal_product(self.0, rhs)),
    {
        Some(Px(self.0.checked_mul(rhs)?))
    }

    pub fn text(self) -> (r: String)
        ensures
            r@ == decimal_text(self.0),
    {
        self.0.text()
    }
}

impl Default for Qty {
    fn default() -> (r: Self)
        ensures
            r == Qty(dec_zero()),
    {
        Qty(Decimal::zero())
    }
}

impl PartialEq for Qty {
    fn eq(&self, other: &Self) -> (r: bool) {
        self.0.same(other.0)
    }
}

impl vstd::std_specs::cmp::PartialEqSpecImpl for Qty {
    open spec fn obeys_eq_spec() -> bool {
        true
    }

    open spec fn eq_spec(&self, other: &Self) -> bool {
        self.0.is_same(other.0)
    }
}

impl Eq for Qty {

}

impl Qty {
    pub fn new(v: Decimal) -> (r: Self)
        ensures
            r == Qty(v),
    {
        Qty(v)
    }

    /// The quantity that a text writes out; `None` where it is no decimal.
    pub fn from_str_exact(s: &str) -> (r: Option<Self>)
        ensures
            r == to_qty(decimal_parsed(s@)),
    {
        match Decimal::parse(s) {
            Some(v) => Some(Qty(v)),
            None => None,
        }
    }

    pub fn is_zero(self) -> (r: bool)
        ensures
            r == self.0.zero_valued(),
    {
        self.0.is_zero()
    }

    pub fn is_positive(self) -> (r: bool)
        ensures
            r == dec_zero().is_below(self.0),
            r == (self.0.mantissa > 0),
    {
        self.0.is_positive()
    }

    pub fn abs(self) -> (r: Option<Self>)
        ensures
            r == to_qty(decimal_abs(self.0)),
    {
        Some(Qty(self.0.checked_abs()?))
    }

    pub fn signum(self) -> (r: i32)
        ensures
            r == (if dec_zero().is_below(self.0) {
                1int
            } else if self.0.is_below(dec_zero()) {
                -1
            } else {
                0
            }),
    {
        if self.0.is_positive() {
            1
        } else if self.0.is_negative() {
            -1
        } else {
            0
        }
    }

    pub fn plus(self, rhs: Self) -> (r: Option<Self>)
        ensures
            r == to_qty(decimal_sum(self.0, rhs.0)),
    {
        Some(Qty(self.0.checked_add(rhs.0)?))
    }

    pub fn minus(self, rhs: Self) -> (r: Option<Self>)
        ensures
            r == to_qty(decimal_difference(self.0, rhs.0)),
    {
        Some(Qty(self.0.checked_sub(rhs.0)?))
    }

    pub fn text(self) -> (r: String)
        ensures
            r@ == decimal_text(self.0),
    {
        self.0.text()
    }
}

} // verus!
