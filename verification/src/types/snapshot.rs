//! What a strategy shows of itself.
use crate::text::opt_view;
use crate::types::book::TopOfBook;
use crate::types::ids::{
    ClientOrderId, RunMode, Side, SlotKey, StrategyId, StrategyMode, SymbolId, VenueId,
};
use crate::types::num::{Px, Qty};
use crate::types::order::SlotStateKind;
use crate::types::position::Lot;
use vstd::prelude::*;

verus! {

#[derive(Clone, Copy, Debug)]
pub struct LinkStatus {
    pub ref_md: bool,
    pub maker_md: bool,
    pub private: bool,
    pub trading: bool,
}

impl Default for LinkStatus {
    fn default() -> (r: Self)
        ensures
            r == (LinkStatus { ref_md: false, maker_md: false, private: false, trading: false }),
    {
        LinkStatus { ref_md: false, maker_md: false, private: false, trading: false }
    }
}

#[derive(Debug)]
pub struct QuotePermission {
    pub allow_new_buy: bool,
    pub allow_new_sell: bool,
    pub force_cancel_all: bool,
    pub force_flatten: bool,
    pub reason: Option<String>,
}

impl Clone for QuotePermission {
    fn clone(&self) -> (r: Self)
        ensures
            r == *self,
    {
        QuotePermission {
            allow_new_buy: self.allow_new_buy,
            allow_new_sell: self.allow_new_sell,
            force_cancel_all: self.force_cancel_all,
            force_flatten: self.force_flatten,
            reason: self.reason.clone(),
        }
    }
}

/// What may be quoted, and why no more.
#[verifier::ext_equal]
pub struct PermV {
    pub allow_new_buy: bool,
    pub allow_new_sell: bool,
    pub force_cancel_all: bool,
    pub force_flatten: bool,
    pub reason: Option<Seq<char>>,
}

impl View for QuotePermission {
    type V = PermV;

    open spec fn view(&self) -> PermV {
        PermV {
            allow_new_buy: self.allow_new_buy,
            allow_new_sell: self.allow_new_sell,
            force_cancel_all: self.force_cancel_all,
            force_flatten: self.force_flatten,
            reason: opt_view(self.reason),
        }
    }
}

impl PermV {
    /// Everything may be quoted.
    pub open spec fn all() -> PermV {
        PermV {
            allow_new_buy: true,
            allow_new_sell: true,
            force_cancel_all: false,
            force_flatten: false,
            reason: None,
        }
    }

    /// Nothing new may be quoted.
    pub open spec fn only_reduce(reason: Seq<char>) -> PermV {
        PermV {
            allow_new_buy: false,
            allow_new_sell: false,
            force_cancel_all: false,
            force_flatten: false,
            reason: Some(reason),
        }
    }
}

impl QuotePermission {
    pub fn open() -> (r: Self)
        ensures
            r@ == PermV::all(),
    {
        QuotePermission {
            allow_new_buy: true,
            allow_new_sell: true,
            force_cancel_all: false,
            force_flatten: false,
            reason: None,
        }
    }

    pub fn reduce_only(reason: &str) -> (r: Self)
        ensures
            r@ == PermV::only_reduce(reason@),
    {
        QuotePermission {
            allow_new_buy: false,
            allow_new_sell: false,
            force_cancel_all: false,
            force_flatten: false,
            reason: Some(reason.to_owned()),
        }
    }
}

#[derive(Clone, Debug)]
pub struct SlotView {
    pub key: SlotKey,
    pub state: SlotStateKind,
    pub coid: Option<ClientOrderId>,
    pub side: Side,
    pub px: Option<Px>,
    pub qty: Option<Qty>,
    pub filled_qty: Qty,
    pub desired_px: Option<Px>,
    pub desired_qty: Option<Qty>,
}

/// What a strategy shows of itself. The spread figures are bits of IEEE 754 doubles.
#[derive(Clone, Debug)]
pub struct StateSnapshot {
    pub strategy_id: StrategyId,
    pub name: String,
    pub lifecycle: StrategyMode,
    pub run_mode: RunMode,
    pub maker_venue: VenueId,
    pub maker_symbol: SymbolId,
    pub ref_venue: VenueId,
    pub ref_symbol: SymbolId,
    pub fair_price: Option<Px>,
    pub natural_spread: Option<u64>,
    pub spread_vol: Option<u64>,
    pub spread_t: Option<u64>,
    pub ref_book: Option<TopOfBook>,
    pub maker_book: Option<TopOfBook>,
    pub permission: QuotePermission,
    pub slots: Vec<SlotView>,
    pub lots: Vec<Lot>,
    pub net_qty: Qty,
    pub links: LinkStatus,
    pub warmup_samples: usize,
    pub warmup_needed: usize,
    pub enabled: bool,
}

} // verus!
