//! Lots of inventory, positions and balances.
use crate::types::decimal::Decimal;
use crate::types::ids::{LotId, Side, SymbolId, VenueId};
use crate::types::num::{Px, Qty};
use crate::types::time::Ts;
use vstd::prelude::*;

verus! {

#[derive(Clone, Copy, Debug, PartialEq, Eq, Structural)]
pub enum ExitPhase {
    MakerTp,
    FastMaker,
    TakerExit,
    Closed,
}

#[derive(Clone, Copy, Debug)]
pub struct Lot {
    pub id: LotId,
    pub side: Side,
    pub qty: Qty,
    pub remaining: Qty,
    pub entry_px: Px,
    pub opened_at: Ts,
    pub phase: ExitPhase,
    pub fast_deadline: Ts,
    pub force_deadline: Ts,
}

#[derive(Clone, Debug)]
pub struct PositionSnapshot {
    pub venue: VenueId,
    pub symbol: SymbolId,
    pub net_qty: Qty,
    pub avg_px: Option<Px>,
    pub ts: Ts,
}

/// What a position is.
#[verifier::ext_equal]
pub struct PosV {
    pub venue: VenueId,
    pub symbol: Seq<char>,
    pub net_qty: Qty,
    pub avg_px: Option<Px>,
    pub ts: Ts,
}

impl View for PositionSnapshot {
    type V = PosV;

    open spec fn view(&self) -> PosV {
        PosV {
            venue: self.venue,
            symbol: self.symbol@,
            net_qty: self.net_qty,
            avg_px: self.avg_px,
            ts: self.ts,
        }
    }
}

/// What the positions of a list are.
pub open spec fn poss(v: Seq<PositionSnapshot>) -> Seq<PosV> {
    v.map_values(|p: PositionSnapshot| p@)
}

#[derive(Clone, Debug)]
pub struct AssetUpdate {
    pub venue: VenueId,
    pub currency: String,
    pub available: Decimal,
    pub equity: Decimal,
    pub ts: Ts,
}

} // verus!
