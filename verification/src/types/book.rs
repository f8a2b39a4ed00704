//! The best bid and ask of a book, and rates of exchange.
use crate::types::decimal::{dec_zero, Decimal};
use crate::types::ids::{SymbolId, VenueId};
use crate::types::num::{mid_px, Px, Qty};
use crate::types::time::Ts;
use vstd::prelude::*;

verus! {

#[derive(Debug)]
pub struct TopOfBook {
    pub venue: VenueId,
    pub symbol: SymbolId,
    pub bid_px: Px,
    pub bid_qty: Qty,
    pub ask_px: Px,
    pub ask_qty: Qty,
    pub exchange_ts: Ts,
    pub recv_ts: Ts,
}

impl Clone for TopOfBook {
    fn clone(&self) -> (r: Self)
        ensures
            r == *self,
    {
        TopOfBook {
            venue: self.venue,
            symbol: self.symbol.clone(),
            bid_px: self.bid_px,
            bid_qty: self.bid_qty,
            ask_px: self.ask_px,
            ask_qty: self.ask_qty,
            exchange_ts: self.exchange_ts,
            recv_ts: self.recv_ts,
        }
    }
}

/// What the best bid and ask are.
#[verifier::ext_equal]
pub struct BookV {
    pub venue: VenueId,
    pub symbol: Seq<char>,
    pub bid_px: Px,
    pub bid_qty: Qty,
    pub ask_px: Px,
    pub ask_qty: Qty,
    pub exchange_ts: Ts,
    pub recv_ts: Ts,
}

impl View for TopOfBook {
    type V = BookV;

    open spec fn view(&self) -> BookV {
        BookV {
            venue: self.venue,
            symbol: self.symbol@,
            bid_px: self.bid_px,
            bid_qty: self.bid_qty,
            ask_px: self.ask_px,
            ask_qty: self.ask_qty,
            exchange_ts: self.exchange_ts,
            recv_ts: self.recv_ts,
        }
    }
}

impl TopOfBook {
    /// Both sides are there and do not touch.
    pub open spec fn two_sided(self) -> bool {
        &&& dec_zero().is_below(self.bid_px.0)
        &&& dec_zero().is_below(self.ask_px.0)
        &&& self.bid_px.0.is_below(self.ask_px.0)
        &&& dec_zero().is_below(self.bid_qty.0)
        &&& dec_zero().is_below(self.ask_qty.0)
    }

    /// The middle of a valid book.
    pub open spec fn middle(self) -> Option<Px> {
        if self.two_sided() {
            mid_px(self.bid_px, self.ask_px)
        } else {
            None
        }
    }

    /// The middle of a valid book; `None` for any other, and where the sum of the two prices is
    /// no decimal of 96 bits.
    pub fn mid(&self) -> (r: Option<Px>)
        ensures
            r == self.middle(),
    {
        if self.is_valid() {
            Px::mid(self.bid_px, self.ask_px)
        } else {
            None
        }
    }

    pub fn is_valid(&self) -> (r: bool)
        ensures
            r == self.two_sided(),
    {
        self.bid_px.is_positive() && self.ask_px.is_positive() && self.bid_px.0.below(self.ask_px.0)
            && self.bid_qty.is_positive() && self.ask_qty.is_positive()
    }

    pub fn crossed(&self) -> (r: bool)
        ensures
            r == (dec_zero().is_below(self.bid_px.0) && dec_zero().is_below(self.ask_px.0)
                && self.ask_px.0.is_at_most(self.bid_px.0)),
    {
        self.bid_px.is_positive() && self.ask_px.is_positive() && self.ask_px.0.at_most(
            self.bid_px.0,
        )
    }
}

/// A valid book is not a crossed one.
pub proof fn law_valid_not_crossed(b: TopOfBook)
    requires
        b.two_sided(),
    ensures
        !b.ask_px.0.is_at_most(b.bid_px.0),
{
}

#[derive(Clone, Debug)]
pub struct BookUpdate {
    pub book: TopOfBook,
    pub seq: Option<u64>,
}

#[derive(Clone, Debug)]
pub struct FxUpdate {
    pub pair: String,
    pub rate: Decimal,
    pub ts: Ts,
}

} // verus!
