//! What a strategy is told.
use crate::types::book::{BookUpdate, FxUpdate};
use crate::types::ids::{ClientOrderId, LinkKind, StrategyId, SymbolId, TimerId, VenueId};
use crate::types::order::{ExecReport, ReqResult};
use crate::types::position::{AssetUpdate, PositionSnapshot};
use crate::types::time::Ts;
use vstd::prelude::*;

verus! {

#[derive(Clone, Debug)]
pub enum ControlCmd {
    Start,
    Stop,
    Flatten,
    ConfigUpdate,
}

#[derive(Clone, Debug)]
pub enum Event {
    RefBook(BookUpdate),
    MakerBook(BookUpdate),
    Fx(FxUpdate),
    Exec(ExecReport),
    PositionSync(PositionSnapshot),
    Asset(AssetUpdate),
    ReqOutcome { coid: ClientOrderId, result: ReqResult, reason: Option<String> },
    Timer(TimerId),
    Link { venue: VenueId, kind: LinkKind, up: bool },
    Control(ControlCmd),
}

#[derive(Clone, Debug)]
pub struct RoutedEvent {
    pub strategy_id: StrategyId,
    pub symbol: Option<SymbolId>,
    pub event: Event,
    pub now: Ts,
}

} // verus!
