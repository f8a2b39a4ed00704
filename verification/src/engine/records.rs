//! What is recorded of orders and fills.
use crate::types::ids::StrategyId;
use crate::types::num::Qty;
use crate::types::order::{
    ExecKind, ExecReport, ExecV, FillRecord, FillV, OrderRecord, OrderRecordV, PlaceReq, PlaceV,
};
use crate::types::decimal::dec_zero;
use crate::types::time::Ts;
use vstd::prelude::*;

verus! {

/// What is recorded of an order that is asked for.
pub open spec fn placed(req: PlaceV, sid: Seq<char>, now: Ts) -> OrderRecordV {
    OrderRecordV {
        coid: req.coid,
        strategy_id: sid,
        venue: req.venue,
        symbol: req.symbol,
        side: req.side,
        purpose: if req.reduce_only {
            "exit"@
        } else {
            "grid"@
        },
        px: req.px,
        qty: req.qty,
        filled_qty: Qty(dec_zero()),
        status: "pending"@,
        exchange_id: None,
        reduce_only: req.reduce_only,
        created_at: now,
        updated_at: now,
    }
}

/// What is recorded of an order that is asked for.
pub fn placed_record(req: &PlaceReq, sid: &StrategyId, now: Ts) -> (r: OrderRecord)
    ensures
        r@ == placed(req@, sid@, now),
{
    OrderRecord {
        coid: req.coid.clone(),
        strategy_id: sid.as_str().to_owned(),
        venue: req.venue,
        symbol: req.symbol.clone(),
        side: req.side,
        purpose: if req.reduce_only {
            "exit".to_owned()
        } else {
            "grid".to_owned()
        },
        px: req.px,
        qty: req.qty,
        filled_qty: Qty::default(),
        status: "pending".to_owned(),
        exchange_id: None,
        reduce_only: req.reduce_only,
        created_at: now,
        updated_at: now,
    }
}

/// The state of an order after a report.
pub open spec fn status_of(kind: ExecKind) -> Seq<char> {
    match kind {
        ExecKind::Ack | ExecKind::AmendAck => "live"@,
        ExecKind::PartialFill => "partial"@,
        ExecKind::Fill => "filled"@,
        ExecKind::Canceled => "canceled"@,
        ExecKind::Expired => "expired"@,
        ExecKind::Reject | ExecKind::AmendReject => "rejected"@,
    }
}

/// The state of an order after a report.
pub fn exec_status(kind: ExecKind) -> (r: &'static str)
    ensures
        r@ == status_of(kind),
{
    match kind {
        ExecKind::Ack | ExecKind::AmendAck => "live",
        ExecKind::PartialFill => "partial",
        ExecKind::Fill => "filled",
        ExecKind::Canceled => "canceled",
        ExecKind::Expired => "expired",
        ExecKind::Reject | ExecKind::AmendReject => "rejected",
    }
}

/// What is recorded of the order that a report is about: nothing where it names no price.
pub open spec fn reported(e: ExecV, sid: Seq<char>) -> Option<OrderRecordV> {
    match e.px {
        Some(px) => Some(
            OrderRecordV {
                coid: e.coid,
                strategy_id: sid,
                venue: e.venue,
                symbol: e.symbol,
                side: e.side,
                purpose: ""@,
                px,
                qty: match e.qty {
                    Some(q) => q,
                    None => Qty(dec_zero()),
                },
                filled_qty: e.filled_qty,
                status: status_of(e.kind),
                exchange_id: e.exchange_id,
                reduce_only: false,
                created_at: e.ts,
                updated_at: e.ts,
            },
        ),
        None => None,
    }
}

/// What an optional record says.
pub open spec fn opt_record(r: Option<OrderRecord>) -> Option<OrderRecordV> {
    match r {
        Some(o) => Some(o@),
        None => None,
    }
}

/// What is recorded of the order that a report is about.
pub fn exec_record(e: &ExecReport, sid: &StrategyId) -> (r: Option<OrderRecord>)
    ensures
        opt_record(r) == reported(e@, sid@),
{
    match e.px {
        Some(px) => Some(
            OrderRecord {
                coid: e.coid.clone(),
                strategy_id: sid.as_str().to_owned(),
                venue: e.venue,
                symbol: e.symbol.clone(),
                side: e.side,
                purpose: "".to_owned(),
                px,
                qty: match e.qty {
                    Some(q) => q,
                    None => Qty::default(),
                },
                filled_qty: e.filled_qty,
                status: exec_status(e.kind).to_owned(),
                exchange_id: e.exchange_id.clone(),
                reduce_only: false,
                created_at: e.ts,
                updated_at: e.ts,
            },
        ),
        None => None,
    }
}

/// What is recorded of the fill that a report tells of: nothing where it names no price or no size above
/// zero.
pub open spec fn fill_reported(e: ExecV, sid: Seq<char>) -> Option<FillV> {
    match (e.last_px, e.last_qty) {
        (Some(px), Some(qty)) => if dec_zero().is_below(qty.0) {
            Some(
                FillV {
                    id: 0,
                    strategy_id: sid,
                    coid: e.coid,
                    venue: e.venue,
                    symbol: e.symbol,
                    side: e.side,
                    px,
                    qty,
                    fee: None,
                    ts: e.ts,
                },
            )
        } else {
            None
        },
        _ => None,
    }
}

/// What an optional fill says.
pub open spec fn opt_fill(r: Option<FillRecord>) -> Option<FillV> {
    match r {
        Some(f) => Some(f@),
        None => None,
    }
}

/// What is recorded of the fill that a report tells of.
pub fn exec_fill(e: &ExecReport, sid: &StrategyId) -> (r: Option<FillRecord>)
    ensures
        opt_fill(r) == fill_reported(e@, sid@),
{
    match (e.last_px, e.last_qty) {
        (Some(px), Some(qty)) => if qty.is_positive() {
            Some(
                FillRecord {
                    id: 0,
                    strategy_id: sid.as_str().to_owned(),
                    coid: e.coid.clone(),
                    venue: e.venue,
                    symbol: e.symbol.clone(),
                    side: e.side,
                    px,
                    qty,
                    fee: None,
                    ts: e.ts,
                },
            )
        } else {
            None
        },
        _ => None,
    }
}

} // verus!
