//! What a strategy asks for.
use crate::types::ids::{ClientOrderId, SymbolId, TimerId, VenueId};
use crate::types::num::{Px, Qty};
use crate::types::order::{PlaceReq, PlaceV};
use crate::types::time::Ts;
use vstd::prelude::*;

verus! {

/// Notes for an operator. The spread and its volatility are bits of IEEE 754 doubles.
#[derive(Clone, Debug)]
pub enum TelemetryEvent {
    Guard { reason: String },
    Fair { px: String, spread: u64, vol: u64 },
    Jump { prev: String, next: String },
    Info { msg: String },
}

/// What a note says.
#[verifier::ext_equal]
pub enum TelemetryV {
    Guard { reason: Seq<char> },
    Fair { px: Seq<char>, spread: u64, vol: u64 },
    Jump { prev: Seq<char>, next: Seq<char> },
    Info { msg: Seq<char> },
}

impl View for TelemetryEvent {
    type V = TelemetryV;

    open spec fn view(&self) -> TelemetryV {
        match self {
            TelemetryEvent::Guard { reason } => TelemetryV::Guard { reason: reason@ },
            TelemetryEvent::Fair { px, spread, vol } => TelemetryV::Fair {
                px: px@,
                spread: *spread,
                vol: *vol,
            },
            TelemetryEvent::Jump { prev, next } => TelemetryV::Jump { prev: prev@, next: next@ },
            TelemetryEvent::Info { msg } => TelemetryV::Info { msg: msg@ },
        }
    }
}

#[derive(Clone, Debug)]
pub enum Action {
    Place(PlaceReq),
    Cancel { coid: ClientOrderId, venue: VenueId, symbol: SymbolId },
    Amend { coid: ClientOrderId, venue: VenueId, symbol: SymbolId, px: Px, qty: Qty },
    CancelAll { venue: VenueId, symbol: SymbolId },
    SetTimer { id: TimerId, at: Ts },
    ClearTimer(TimerId),
    Emit(TelemetryEvent),
}

/// What an action asks for.
#[verifier::ext_equal]
pub enum ActionV {
    Place(PlaceV),
    Cancel { coid: Seq<char>, venue: VenueId, symbol: Seq<char> },
    Amend { coid: Seq<char>, venue: VenueId, symbol: Seq<char>, px: Px, qty: Qty },
    CancelAll { venue: VenueId, symbol: Seq<char> },
    SetTimer { id: TimerId, at: Ts },
    ClearTimer(TimerId),
    Emit(TelemetryV),
}

impl View for Action {
    type V = ActionV;

    open spec fn view(&self) -> ActionV {
        match self {
            Action::Place(req) => ActionV::Place(req@),
            Action::Cancel { coid, venue, symbol } => ActionV::Cancel {
                coid: coid@,
                venue: *venue,
                symbol: symbol@,
            },
            Action::Amend { coid, venue, symbol, px, qty } => ActionV::Amend {
                coid: coid@,
                venue: *venue,
                symbol: symbol@,
                px: *px,
                qty: *qty,
            },
            Action::CancelAll { venue, symbol } => ActionV::CancelAll {
                venue: *venue,
                symbol: symbol@,
            },
            Action::SetTimer { id, at } => ActionV::SetTimer { id: *id, at: *at },
            Action::ClearTimer(id) => ActionV::ClearTimer(*id),
            Action::Emit(e) => ActionV::Emit(e@),
        }
    }
}

/// What a list of actions asks for.
pub open spec fn asked(v: Seq<Action>) -> Seq<ActionV> {
    v.map_values(|a: Action| a@)
}

/// One more action at the end of a list is one more thing asked for.
pub proof fn lemma_asked_push(v: Seq<Action>, a: Action)
    ensures
        asked(v.push(a)) == asked(v).push(a@),
{
    assert(asked(v.push(a)) =~= asked(v).push(a@));
}

impl ActionV {
    /// The place of an action in the order in which actions are carried out.
    pub open spec fn rank(self) -> int {
        match self {
            ActionV::CancelAll { .. } => 0,
            ActionV::Cancel { .. } => 1,
            ActionV::Place(req) => if req.reduce_only {
                2
            } else {
                4
            },
            ActionV::Amend { .. } => 3,
            _ => 5,
        }
    }
}

impl Action {
    pub fn priority(&self) -> (r: u8)
        ensures
            r == self@.rank(),
    {
        match self {
            Action::CancelAll { .. } => 0,
            Action::Cancel { .. } => 1,
            Action::Place(req) => if req.reduce_only {
                2
            } else {
                4
            },
            Action::Amend { .. } => 3,
            Action::SetTimer { .. } => 5,
            Action::ClearTimer(_) => 5,
            Action::Emit(_) => 5,
        }
    }
}

} // verus!
