//! Orders: what is asked for, what lives at a venue, and what a venue reports.
use crate::text::opt_view;
use crate::types::decimal::Decimal;
use crate::types::ids::{ClientOrderId, Side, SymbolId, VenueId};
use crate::types::num::{Px, Qty};
use crate::types::time::Ts;
use vstd::prelude::*;

verus! {

#[derive(Clone, Copy, Debug, PartialEq, Eq, Structural)]
pub enum TimeInForce {
    Gtc,
    Ioc,
    Fok,
    PostOnly,
}

#[derive(Clone, Copy, Debug, PartialEq, Eq, Structural)]
pub enum OrderType {
    Limit,
    Market,
}

#[derive(Clone, Copy, Debug, PartialEq, Eq, Structural)]
pub enum SlotStateKind {
    Empty,
    PendingNew,
    Live,
    PendingAmend,
    PendingCancel,
    Unknown,
}

#[derive(Clone, Copy, Debug, PartialEq, Eq, Structural)]
pub enum ExecKind {
    Ack,
    Reject,
    PartialFill,
    Fill,
    Canceled,
    Expired,
    AmendAck,
    AmendReject,
}

#[derive(Clone, Debug)]
pub struct ExecReport {
    pub coid: ClientOrderId,
    pub exchange_id: Option<String>,
    pub venue: VenueId,
    pub symbol: SymbolId,
    pub kind: ExecKind,
    pub side: Side,
    pub px: Option<Px>,
    pub qty: Option<Qty>,
    pub filled_qty: Qty,
    pub last_px: Option<Px>,
    pub last_qty: Option<Qty>,
    pub reason: Option<String>,
    pub ts: Ts,
}

/// What an execution report says.
#[verifier::ext_equal]
pub struct ExecV {
    pub coid: Seq<char>,
    pub exchange_id: Option<Seq<char>>,
    pub venue: VenueId,
    pub symbol: Seq<char>,
    pub kind: ExecKind,
    pub side: Side,
    pub px: Option<Px>,
    pub qty: Option<Qty>,
    pub filled_qty: Qty,
    pub last_px: Option<Px>,
    pub last_qty: Option<Qty>,
    pub reason: Option<Seq<char>>,
    pub ts: Ts,
}

impl View for ExecReport {
    type V = ExecV;

    open spec fn view(&self) -> ExecV {
        ExecV {
            coid: self.coid@,
            exchange_id: opt_view(self.exchange_id),
            venue: self.venue,
            symbol: self.symbol@,
            kind: self.kind,
            side: self.side,
            px: self.px,
            qty: self.qty,
            filled_qty: self.filled_qty,
            last_px: self.last_px,
            last_qty: self.last_qty,
            reason: opt_view(self.reason),
            ts: self.ts,
        }
    }
}

#[derive(Clone, Copy, Debug, PartialEq, Eq, Structural)]
pub enum ReqResult {
    Accepted,
    Rejected,
    Unknown,
}

#[derive(Clone, Debug)]
pub struct PlaceReq {
    pub coid: ClientOrderId,
    pub venue: VenueId,
    pub symbol: SymbolId,
    pub side: Side,
    pub px: Px,
    pub qty: Qty,
    pub tif: TimeInForce,
    pub reduce_only: bool,
    pub order_type: OrderType,
}

/// What a request for an order says.
#[verifier::ext_equal]
pub struct PlaceV {
    pub coid: Seq<char>,
    pub venue: VenueId,
    pub symbol: Seq<char>,
    pub side: Side,
    pub px: Px,
    pub qty: Qty,
    pub tif: TimeInForce,
    pub reduce_only: bool,
    pub order_type: OrderType,
}

impl View for PlaceReq {
    type V = PlaceV;

    open spec fn view(&self) -> PlaceV {
        PlaceV {
            coid: self.coid@,
            venue: self.venue,
            symbol: self.symbol@,
            side: self.side,
            px: self.px,
            qty: self.qty,
            tif: self.tif,
            reduce_only: self.reduce_only,
            order_type: self.order_type,
        }
    }
}

#[derive(Clone, Copy, Debug)]
pub struct DesiredOrder {
    pub px: Px,
    pub qty: Qty,
    pub reduce_only: bool,
    pub tif: TimeInForce,
    pub order_type: OrderType,
}

#[derive(Debug)]
pub struct LiveOrder {
    pub coid: ClientOrderId,
    pub exchange_id: Option<String>,
    pub px: Px,
    pub qty: Qty,
    pub filled_qty: Qty,
    pub reduce_only: bool,
}

impl Clone for LiveOrder {
    fn clone(&self) -> (r: Self)
        ensures
            r == *self,
    {
        LiveOrder {
            coid: self.coid.clone(),
            exchange_id: self.exchange_id.clone(),
            px: self.px,
            qty: self.qty,
            filled_qty: self.filled_qty,
            reduce_only: self.reduce_only,
        }
    }
}

/// What is known of an order at a venue.
#[verifier::ext_equal]
pub struct LiveV {
    pub coid: Seq<char>,
    pub exchange_id: Option<Seq<char>>,
    pub px: Px,
    pub qty: Qty,
    pub filled_qty: Qty,
    pub reduce_only: bool,
}

impl View for LiveOrder {
    type V = LiveV;

    open spec fn view(&self) -> LiveV {
        LiveV {
            coid: self.coid@,
            exchange_id: opt_view(self.exchange_id),
            px: self.px,
            qty: self.qty,
            filled_qty: self.filled_qty,
            reduce_only: self.reduce_only,
        }
    }
}

#[derive(Clone, Debug)]
pub struct OrderRecord {
    pub coid: ClientOrderId,
    pub strategy_id: String,
    pub venue: VenueId,
    pub symbol: SymbolId,
    pub side: Side,
    pub purpose: String,
    pub px: Px,
    pub qty: Qty,
    pub filled_qty: Qty,
    pub status: String,
    pub exchange_id: Option<String>,
    pub reduce_only: bool,
    pub created_at: Ts,
    pub updated_at: Ts,
}

/// What is recorded of an order.
#[verifier::ext_equal]
pub struct OrderRecordV {
    pub coid: Seq<char>,
    pub strategy_id: Seq<char>,
    pub venue: VenueId,
    pub symbol: Seq<char>,
    pub side: Side,
    pub purpose: Seq<char>,
    pub px: Px,
    pub qty: Qty,
    pub filled_qty: Qty,
    pub status: Seq<char>,
    pub exchange_id: Option<Seq<char>>,
    pub reduce_only: bool,
    pub created_at: Ts,
    pub updated_at: Ts,
}

impl View for OrderRecord {
    type V = OrderRecordV;

    open spec fn view(&self) -> OrderRecordV {
        OrderRecordV {
            coid: self.coid@,
            strategy_id: self.strategy_id@,
            venue: self.venue,
            symbol: self.symbol@,
            side: self.side,
            purpose: self.purpose@,
            px: self.px,
            qty: self.qty,
            filled_qty: self.filled_qty,
            status: self.status@,
            exchange_id: opt_view(self.exchange_id),
            reduce_only: self.reduce_only,
            created_at: self.created_at,
            updated_at: self.updated_at,
        }
    }
}

/// What is recorded of the orders of a list.
pub open spec fn records(v: Seq<OrderRecord>) -> Seq<OrderRecordV> {
    v.map_values(|o: OrderRecord| o@)
}

#[derive(Clone, Debug)]
pub struct FillRecord {
    pub id: i64,
    pub strategy_id: String,
    pub coid: ClientOrderId,
    pub venue: VenueId,
    pub symbol: SymbolId,
    pub side: Side,
    pub px: Px,
    pub qty: Qty,
    pub fee: Option<Decimal>,
    pub ts: Ts,
}

/// What is recorded of a fill.
#[verifier::ext_equal]
pub struct FillV {
    pub id: i64,
    pub strategy_id: Seq<char>,
    pub coid: Seq<char>,
    pub venue: VenueId,
    pub symbol: Seq<char>,
    pub side: Side,
    pub px: Px,
    pub qty: Qty,
    pub fee: Option<Decimal>,
    pub ts: Ts,
}

impl View for FillRecord {
    type V = FillV;

    open spec fn view(&self) -> FillV {
        FillV {
            id: self.id,
            strategy_id: self.strategy_id@,
            coid: self.coid@,
            venue: self.venue,
            symbol: self.symbol@,
            side: self.side,
            px: self.px,
            qty: self.qty,
            fee: self.fee,
            ts: self.ts,
        }
    }
}

} // verus!
