//! The strategy itself: events in, actions out.
use crate::config::{positive, StrategyConfig};
use crate::strategy::quote::{
    all_withdrawn, exit_px_maker, gaps_read_as, grid_from, grid_targets, maker_exit,
    mark_cancel_all, prevent_self_cross, read_gaps, reconcile_by, reconciled, uncrossed,
    DesiredSlot, Terms,
};
use crate::strategy::risk::{
    evaluate, float_loss, loss_reads_as, notional, notional_of, permitted, unit_px, unit_size,
};
use crate::strategy::state::{
    carries, slot_at, slot_of_order, CoreState, Slot, SlotMap, SlotV, StateV,
};
use crate::text::{before_first, cat3, digits, digits_text, same_text};
use crate::types::action::{asked, Action, ActionV, TelemetryEvent, TelemetryV};
use crate::types::book::TopOfBook;
use crate::types::decimal::{
    dec_int, dec_one, dec_zero, decimal_abs, decimal_difference, decimal_product,
    decimal_quotient, decimal_sum, decimal_text, product_known, reads_as, subtracts, sum_known,
    Decimal,
};
use crate::types::double::{double_above, is_above};
use crate::types::event::{ControlCmd, Event};
use crate::types::ids::{
    ClientOrderId, LinkKind, LotId, Purpose, Side, SlotKey, StrategyMode, TimerId,
};
use crate::types::instrument::{round_buy_px, round_sell_px, tick_ceil, tick_floor, Instrument};
use crate::types::num::{mid_px, to_px, Px, Qty};
use crate::types::order::{
    DesiredOrder, ExecKind, ExecReport, ExecV, LiveOrder, LiveV, OrderType, ReqResult,
    SlotStateKind, TimeInForce,
};
use crate::types::position::{ExitPhase, Lot};
use crate::types::snapshot::{LinkStatus, SlotView, StateSnapshot};
use crate::types::time::{as_signed, to_signed, Ts};
use vstd::prelude::*;

verus! {

/// How long a place/amend/cancel may stay unacknowledged before we stop assuming it is in flight.
pub const PENDING_TIMEOUT_MS: i64 = 10_000;

/// How long quoting rests after the reference price jumped.
pub const JUMP_COOLDOWN_MS: i64 = 800;

/// How often exits are looked at when nothing else happens.
pub const EXIT_SCAN_MS: i64 = 250;

/// What a command does.
pub open spec fn controlled(
    st: StateV,
    cfg: StrategyConfig,
    now: Ts,
    cmd: ControlCmd,
    out: Seq<ActionV>,
) -> (StateV, Seq<ActionV>) {
    match cmd {
        ControlCmd::Start => (
            StateV {
                started: true,
                flatten_requested: false,
                lifecycle: StrategyMode::Warmup,
                ..st
            },
            out,
        ),
        ControlCmd::Stop => (
            StateV {
                started: false,
                lifecycle: StrategyMode::Stopped,
                slots: all_withdrawn(st.slots, now),
                ..st
            },
            out.push(cancel_everything(cfg)),
        ),
        ControlCmd::Flatten => (
            StateV { flatten_requested: true, lifecycle: StrategyMode::Flattening, ..st },
            out,
        ),
        ControlCmd::ConfigUpdate => (st, out),
    }
}

/// The request that takes all orders of a strategy's symbol back.
pub open spec fn cancel_everything(cfg: StrategyConfig) -> ActionV {
    ActionV::CancelAll { venue: cfg.market.maker_venue, symbol: cfg.market.maker_symbol@ }
}

fn cancel_all_action(cfg: &StrategyConfig) -> (r: Action)
    ensures
        r@ == cancel_everything(*cfg),
{
    Action::CancelAll {
        venue: cfg.market.maker_venue,
        symbol: cfg.market.maker_symbol.clone(),
    }
}

fn on_control(
    state: &mut CoreState,
    cfg: &StrategyConfig,
    now: Ts,
    cmd: &ControlCmd,
    out: &mut Vec<Action>,
)
    ensures
        controlled(old(state)@, *cfg, now, *cmd, asked(old(out)@)) == (
            final(state)@,
            asked(final(out)@),
        ),
{
    match cmd {
        ControlCmd::Start => {
            state.started = true;
            state.flatten_requested = false;
            state.lifecycle = StrategyMode::Warmup;
        },
        ControlCmd::Stop => {
            state.started = false;
            state.lifecycle = StrategyMode::Stopped;
            mark_cancel_all(state, now);
            let a = cancel_all_action(cfg);
            out.push(a);
            assert(asked(out@) =~= asked(old(out)@).push(a@));
        },
        ControlCmd::Flatten => {
            state.flatten_requested = true;
            state.lifecycle = StrategyMode::Flattening;
        },
        ControlCmd::ConfigUpdate => {},
    }
}

/// What the answer to a request does to a slot. A refused placement leaves nothing at the venue;
/// a refused amendment leaves the order as it was; a refused cancellation almost always means
/// that the order is gone already.
pub open spec fn answered(s: SlotV, now: Ts, result: ReqResult) -> SlotV {
    match result {
        ReqResult::Accepted => s.accepted(),
        ReqResult::Rejected => {
            let r = s.refused(now);
            if s.state == SlotStateKind::PendingNew || s.state == SlotStateKind::PendingCancel {
                r.emptied()
            } else if s.state == SlotStateKind::PendingAmend {
                r.rolled_back().working()
            } else {
                r
            }
        },
        ReqResult::Unknown => SlotV {
            state: SlotStateKind::Unknown,
            pending_since: Some(now),
            ..s
        },
    }
}

/// What the answer to a request does. An answer about an order of no slot does nothing.
pub open spec fn outcome_applied(st: StateV, now: Ts, coid: Seq<char>, result: ReqResult) -> StateV {
    match slot_of_order(st.slots, coid) {
        None => st,
        Some(k) => st.put(k, answered(slot_at(st.slots, k), now, result)),
    }
}

fn on_req_outcome(state: &mut CoreState, now: Ts, coid: &ClientOrderId, result: ReqResult)
    ensures
        final(state)@ == outcome_applied(old(state)@, now, coid@, result),
{
    let key = match state.find_slot_by_coid(coid) {
        Some(k) => k,
        None => {
            return;
        },
    };
    let slot = state.slot(key);
    match result {
        ReqResult::Accepted => {
            slot.note_accepted();
        },
        ReqResult::Rejected => {
            slot.note_reject(now);
            match slot.state {
                SlotStateKind::PendingNew => {
                    slot.clear();
                },
                SlotStateKind::PendingAmend => {
                    slot.roll_back();
                    slot.set_working();
                },
                SlotStateKind::PendingCancel => {
                    slot.clear();
                },
                _ => {},
            }
        },
        ReqResult::Unknown => {
            slot.state = SlotStateKind::Unknown;
            slot.pending_since = Some(now);
        },
    }
}

/// What is left of a lot's list when an exit fills it from `i` on.
pub open spec fn filled_from(lots: Seq<Lot>, i: int, exit_side: Side, left: Decimal) -> Option<
    Seq<Lot>,
>
    decreases lots.len() - i,
{
    if !(0 <= i < lots.len()) {
        Some(lots)
    } else {
        let lot = lots[i];
        if lot.side.other() != exit_side || lot.remaining.0.zero_valued() {
            filled_from(lots, i + 1, exit_side, left)
        } else {
            let take = lot.remaining.0.smaller(left);
            match (decimal_difference(lot.remaining.0, take), decimal_difference(left, take)) {
                (Some(rest), Some(over)) => {
                    let next = lots.update(
                        i,
                        Lot {
                            remaining: Qty(rest),
                            phase: if rest.zero_valued() {
                                ExitPhase::Closed
                            } else {
                                lot.phase
                            },
                            ..lot
                        },
                    );
                    if positive(over) {
                        filled_from(next, i + 1, exit_side, over)
                    } else {
                        Some(next)
                    }
                },
                _ => None,
            }
        }
    }
}

/// The subtractions hold by which an exit fills lots from `i` on.
pub open spec fn fill_subtracts(lots: Seq<Lot>, i: int, exit_side: Side, left: Decimal) -> bool
    decreases lots.len() - i,
{
    if !(0 <= i < lots.len()) {
        true
    } else {
        let lot = lots[i];
        if lot.side.other() != exit_side || lot.remaining.0.zero_valued() {
            fill_subtracts(lots, i + 1, exit_side, left)
        } else {
            let take = lot.remaining.0.smaller(left);
            &&& subtracts(lot.remaining.0, take) && subtracts(left, take)
            &&& decimal_difference(left, take) matches Some(over) ==> (positive(over)
                ==> fill_subtracts(lots, i + 1, exit_side, over))
        }
    }
}

/// The lots that hold something.
pub open spec fn open_lots(lots: Seq<Lot>) -> Seq<Lot> {
    lots.filter(|l: Lot| !l.remaining.0.zero_valued())
}

/// The lots after an exit filled them, oldest first; a lot that is used up is gone.
pub open spec fn lots_after_fill(lots: Seq<Lot>, exit_side: Side, qty: Qty) -> Option<Seq<Lot>> {
    match filled_from(lots, 0, exit_side, qty.0) {
        Some(l) => Some(open_lots(l)),
        None => None,
    }
}

fn keep_open(lots: &Vec<Lot>) -> (r: Vec<Lot>)
    ensures
        r@ == open_lots(lots@),
{
    let ghost p = |l: Lot| !l.remaining.0.zero_valued();
    let mut r: Vec<Lot> = Vec::new();
    let mut i: usize = 0;
    assert(lots@.take(0).filter(p) =~= Seq::<Lot>::empty()) by {
        reveal(Seq::filter);
    }
    while i < lots.len()
        invariant
            i <= lots.len(),
            p == (|l: Lot| !l.remaining.0.zero_valued()),
            r@ == lots@.take(i as int).filter(p),
        decreases lots.len() - i,
    {
        proof {
            reveal(Seq::filter);
            assert(lots@.take(i + 1).drop_last() =~= lots@.take(i as int));
        }
        if !lots[i].remaining.is_zero() {
            r.push(lots[i]);
        }
        i = i + 1;
    }
    assert(lots@.take(i as int) =~= lots@);
    r
}

/// Takes what an exit filled out of the lots, oldest first. `None` where a figure is no decimal
/// of 96 bits.
pub fn apply_fill_to_lots(lots: &mut Vec<Lot>, exit_side: Side, qty: Qty) -> (r: Option<()>)
    ensures
        match r {
            Some(_) => lots_after_fill(old(lots)@, exit_side, qty) == Some(final(lots)@),
            None => lots_after_fill(old(lots)@, exit_side, qty) is None,
        },
        r is Some ==> fill_subtracts(old(lots)@, 0, exit_side, qty.0),
{
    let mut left = qty.0;
    let mut i: usize = 0;
    let ghost goal = filled_from(lots@, 0, exit_side, left);
    while i < lots.len()
        invariant_except_break
            i <= lots.len(),
            goal == filled_from(lots@, i as int, exit_side, left),
            fill_subtracts(old(lots)@, i as int, exit_side, left) ==> fill_subtracts(
                old(lots)@,
                0,
                exit_side,
                qty.0,
            ),
            forall|j: int| i <= j < lots@.len() ==> #[trigger] lots@[j] == old(lots)@[j],
        invariant
            lots@.len() == old(lots)@.len(),
            goal == filled_from(old(lots)@, 0, exit_side, qty.0),
        ensures
            goal == Some(lots@),
            fill_subtracts(old(lots)@, 0, exit_side, qty.0),
        decreases lots.len() - i,
    {
        let lot = lots[i];
        if lot.side.opposite() != exit_side || lot.remaining.is_zero() {
            i = i + 1;
            continue;
        }
        let take = lot.remaining.0.min(left);
        let rest = lot.remaining.0.minus(take)?;
        left = left.minus(take)?;
        let phase = if rest.is_zero() {
            ExitPhase::Closed
        } else {
            lot.phase
        };
        lots.set(i, Lot { remaining: Qty(rest), phase, ..lot });
        if !left.is_positive() {
            break;
        }
        i = i + 1;
    }
    let open = keep_open(lots);
    *lots = open;
    Some(())
}

/// A filled grid order opens a lot: the position moves by it, and two timers run for its exit.
pub open spec fn lot_opened(
    st: StateV,
    cfg: StrategyConfig,
    now: Ts,
    side: Side,
    qty: Qty,
    px: Px,
    out: Seq<ActionV>,
) -> Option<(StateV, Seq<ActionV>)> {
    match net_after(st.net_qty, qty, side) {
        None => None,
        Some(net) => if st.next_lot > u64::MAX - 2000 {
            None
        } else {
            let fast = now.later(as_signed(cfg.exit.fast_exit_timeout_ms));
            let force = now.later(as_signed(cfg.exit.force_exit_timeout_ms));
            let lot = Lot {
                id: LotId(st.next_lot),
                side,
                qty,
                remaining: qty,
                entry_px: px,
                opened_at: now,
                phase: ExitPhase::MakerTp,
                fast_deadline: fast,
                force_deadline: force,
            };
            Some(
                (
                    StateV {
                        net_qty: net,
                        next_lot: (st.next_lot + 1) as u64,
                        lots: st.lots.push(lot),
                        ..st
                    },
                    out.push(
                        ActionV::SetTimer { id: TimerId((1000 + st.next_lot) as u64), at: fast },
                    ).push(
                        ActionV::SetTimer { id: TimerId((2000 + st.next_lot) as u64), at: force },
                    ),
                ),
            )
        },
    }
}

/// The position after a fill.
pub open spec fn net_after(net: Qty, qty: Qty, side: Side) -> Option<Qty> {
    let sign = if side == Side::Buy {
        dec_int(1)
    } else {
        dec_int(-1)
    };
    match decimal_product(qty.0, sign) {
        None => None,
        Some(signed) => match decimal_sum(net.0, signed) {
            None => None,
            Some(n) => Some(Qty(n)),
        },
    }
}

/// A fill is added to a position as decimals are multiplied and added.
pub open spec fn fill_adds(net: Qty, qty: Qty, side: Side) -> bool {
    let sign = if side == Side::Buy {
        dec_int(1)
    } else {
        dec_int(-1)
    };
    &&& product_known(qty.0, sign)
    &&& decimal_product(qty.0, sign) matches Some(signed) ==> sum_known(net.0, signed)
}

fn add_fill(net: Qty, qty: Qty, side: Side) -> (r: Option<Qty>)
    ensures
        r == net_after(net, qty, side),
        r is Some ==> fill_adds(net, qty, side),
{
    let sign = Decimal::from_int(side.sign() as i64);
    let signed = qty.0.checked_mul(sign)?;
    Some(Qty(net.0.checked_add(signed)?))
}

fn open_lot(
    state: &mut CoreState,
    cfg: &StrategyConfig,
    now: Ts,
    side: Side,
    qty: Qty,
    px: Px,
    out: &mut Vec<Action>,
) -> (r: Option<()>)
    ensures
        match r {
            Some(_) => lot_opened(old(state)@, *cfg, now, side, qty, px, asked(old(out)@)) == Some(
                (final(state)@, asked(final(out)@)),
            ),
            None => lot_opened(old(state)@, *cfg, now, side, qty, px, asked(old(out)@)) is None,
        },
        r is Some ==> fill_adds(old(state)@.net_qty, qty, side),
{
    let net = add_fill(state.net_qty, qty, side)?;
    if state.next_lot > u64::MAX - 2000 {
        return None;
    }
    state.net_qty = net;
    let id = state.alloc_lot_id()?;
    let fast = now.saturating_add_millis(to_signed(cfg.exit.fast_exit_timeout_ms));
    let force = now.saturating_add_millis(to_signed(cfg.exit.force_exit_timeout_ms));
    let a = Action::SetTimer { id: TimerId::lot_fast(id), at: fast };
    let b = Action::SetTimer { id: TimerId::lot_force(id), at: force };
    out.push(a);
    out.push(b);
    assert(asked(out@) =~= asked(old(out)@).push(a@).push(b@));
    state.lots.push(
        Lot {
            id,
            side,
            qty,
            remaining: qty,
            entry_px: px,
            opened_at: now,
            phase: ExitPhase::MakerTp,
            fast_deadline: fast,
            force_deadline: force,
        },
    );
    Some(())
}

/// The position and the lots that stand for a net position reported by the venue: one lot whose
/// exit is overdue, and none where the position is flat.
pub open spec fn lots_rebuilt(
    st: StateV,
    cfg: StrategyConfig,
    now: Ts,
    net: Qty,
    avg: Option<Px>,
) -> Option<StateV> {
    let base = StateV { lots: Seq::empty(), net_qty: net, ..st };
    if net.0.zero_valued() {
        Some(base)
    } else if st.next_lot == u64::MAX {
        None
    } else {
        match decimal_abs(net.0) {
            None => None,
            Some(size) => {
                let lot = Lot {
                    id: LotId(st.next_lot),
                    side: if positive(net.0) {
                        Side::Buy
                    } else {
                        Side::Sell
                    },
                    qty: Qty(size),
                    remaining: Qty(size),
                    entry_px: match avg {
                        Some(p) => p,
                        None => match st.last_fair {
                            Some(p) => p,
                            None => Px(dec_zero()),
                        },
                    },
                    opened_at: now,
                    phase: ExitPhase::FastMaker,
                    fast_deadline: now,
                    force_deadline: now.later(as_signed(cfg.exit.force_exit_timeout_ms)),
                };
                Some(StateV { lots: seq![lot], next_lot: (st.next_lot + 1) as u64, ..base })
            },
        }
    }
}

fn rebuild_lots_from_net(
    state: &mut CoreState,
    cfg: &StrategyConfig,
    now: Ts,
    net: Qty,
    avg: Option<Px>,
) -> (r: Option<()>)
    ensures
        match r {
            Some(_) => lots_rebuilt(old(state)@, *cfg, now, net, avg) == Some(final(state)@),
            None => lots_rebuilt(old(state)@, *cfg, now, net, avg) is None,
        },
{
    state.lots = Vec::new();
    state.net_qty = net;
    if net.is_zero() {
        return Some(());
    }
    let side = if net.is_positive() {
        Side::Buy
    } else {
        Side::Sell
    };
    let id = state.alloc_lot_id()?;
    let size = Qty(net.0.checked_abs()?);
    let entry_px = match avg {
        Some(p) => p,
        None => match state.last_fair {
            Some(p) => p,
            None => Px::default(),
        },
    };
    state.lots.push(
        Lot {
            id,
            side,
            qty: size,
            remaining: size,
            entry_px,
            opened_at: now,
            phase: ExitPhase::FastMaker,
            fast_deadline: now,
            force_deadline: now.saturating_add_millis(to_signed(cfg.exit.force_exit_timeout_ms)),
        },
    );
    assert(state.lots@ =~= seq![state.lots@[0]]);
    Some(())
}

/// A price that a venue reported, where it is one.
pub open spec fn usable_px(reported: Option<Px>, known: Px) -> Px {
    match reported {
        Some(p) => if positive(p.0) {
            p
        } else {
            known
        },
        None => known,
    }
}

/// A size that a venue reported, where it is one.
pub open spec fn usable_qty(reported: Option<Qty>, known: Qty) -> Qty {
    match reported {
        Some(q) => if positive(q.0) {
            q
        } else {
            known
        },
        None => known,
    }
}

/// What an acknowledgement does to a slot. Only positive figures are taken over: a venue that
/// leaves them out would otherwise make the order look mispriced for ever.
pub open spec fn acknowledged(s: SlotV, rep: ExecV) -> SlotV {
    SlotV {
        amend_from: None,
        live: match s.live {
            Some(l) => Some(
                LiveV {
                    px: usable_px(rep.px, l.px),
                    qty: usable_qty(rep.qty, l.qty),
                    exchange_id: rep.exchange_id,
                    ..l
                },
            ),
            None => None,
        },
        ..s.working().accepted()
    }
}

/// What a fill does to its slot.
pub open spec fn slot_filled(s: SlotV, rep: ExecV) -> SlotV {
    let t = SlotV {
        live: match s.live {
            Some(l) => Some(LiveV { filled_qty: rep.filled_qty, ..l }),
            None => None,
        },
        ..s
    };
    if rep.kind == ExecKind::Fill {
        t.emptied()
    } else {
        SlotV { state: SlotStateKind::Live, ..t }
    }
}

/// What a fill does to the inventory: an exit takes from the lots, a grid order opens one.
pub open spec fn inventory_filled(
    st: StateV,
    cfg: StrategyConfig,
    now: Ts,
    key: SlotKey,
    rep: ExecV,
    out: Seq<ActionV>,
) -> Option<(StateV, Seq<ActionV>)> {
    match rep.last_qty {
        None => Some((st, out)),
        Some(q) => if !positive(q.0) {
            Some((st, out))
        } else if key.purpose == Purpose::Exit {
            match lots_after_fill(st.lots, key.side, q) {
                None => None,
                Some(lots) => match net_after(st.net_qty, q, key.side) {
                    None => None,
                    Some(net) => Some((StateV { lots, net_qty: net, ..st }, out)),
                },
            }
        } else {
            let px = match rep.last_px {
                Some(p) => p,
                None => match rep.px {
                    Some(p) => p,
                    None => Px(dec_zero()),
                },
            };
            lot_opened(st, cfg, now, key.side, q, px, out)
        },
    }
}

/// What a fill is counted with holds.
pub open spec fn inventory_counts(st: StateV, key: SlotKey, rep: ExecV) -> bool {
    rep.last_qty matches Some(q) ==> positive(q.0) ==> {
        &&& fill_adds(st.net_qty, q, key.side)
        &&& key.purpose == Purpose::Exit ==> fill_subtracts(st.lots, 0, key.side, q.0)
    }
}

/// What an execution report is counted with holds.
pub open spec fn report_counts(st: StateV, rep: ExecV) -> bool {
    slot_of_order(st.slots, rep.coid) matches Some(k) ==> (rep.kind == ExecKind::PartialFill
        || rep.kind == ExecKind::Fill) ==> inventory_counts(st, k, rep)
}

/// What an execution report does. A report about an order of no slot does nothing.
pub open spec fn executed(
    st: StateV,
    cfg: StrategyConfig,
    now: Ts,
    rep: ExecV,
    out: Seq<ActionV>,
) -> Option<(StateV, Seq<ActionV>)> {
    match slot_of_order(st.slots, rep.coid) {
        None => Some((st, out)),
        Some(k) => {
            let s = slot_at(st.slots, k);
            match rep.kind {
                ExecKind::Ack | ExecKind::AmendAck => Some((st.put(k, acknowledged(s, rep)), out)),
                ExecKind::Reject => Some((st.put(k, s.refused(now).emptied()), out)),
                ExecKind::AmendReject => Some(
                    (st.put(k, s.refused(now).rolled_back().working()), out),
                ),
                ExecKind::Canceled | ExecKind::Expired => Some((st.put(k, s.emptied()), out)),
                ExecKind::PartialFill | ExecKind::Fill => match inventory_filled(
                    st,
                    cfg,
                    now,
                    k,
                    rep,
                    out,
                ) {
                    None => None,
                    Some(n) => Some((n.0.put(k, slot_filled(s, rep)), n.1)),
                },
            }
        },
    }
}

fn acknowledge(slot: &mut Slot, rep: &ExecReport)
    ensures
        final(slot)@ == acknowledged(old(slot)@, rep@),
{
    slot.set_working();
    slot.amend_from = None;
    slot.note_accepted();
    match slot.live.take() {
        Some(mut live) => {
            if let Some(px) = rep.px {
                if px.is_positive() {
                    live.px = px;
                }
            }
            if let Some(qty) = rep.qty {
                if qty.is_positive() {
                    live.qty = qty;
                }
            }
            live.exchange_id = rep.exchange_id.clone();
            slot.live = Some(live);
        },
        None => {},
    }
}

fn fill_slot(slot: &mut Slot, rep: &ExecReport)
    ensures
        final(slot)@ == slot_filled(old(slot)@, rep@),
{
    match slot.live.take() {
        Some(mut live) => {
            live.filled_qty = rep.filled_qty;
            slot.live = Some(live);
        },
        None => {},
    }
    if rep.kind == ExecKind::Fill {
        slot.clear();
    } else {
        slot.state = SlotStateKind::Live;
    }
}

fn fill_inventory(
    state: &mut CoreState,
    cfg: &StrategyConfig,
    now: Ts,
    key: SlotKey,
    rep: &ExecReport,
    out: &mut Vec<Action>,
) -> (r: Option<()>)
    ensures
        match r {
            Some(_) => inventory_filled(old(state)@, *cfg, now, key, rep@, asked(old(out)@))
                == Some((final(state)@, asked(final(out)@))),
            None => inventory_filled(
                old(state)@,
                *cfg,
                now,
                key,
                rep@,
                asked(old(out)@),
            ) is None,
        },
        r is Some ==> inventory_counts(old(state)@, key, rep@),
{
    let q = match rep.last_qty {
        Some(q) => q,
        None => {
            return Some(());
        },
    };
    if !q.is_positive() {
        return Some(());
    }
    if key.purpose == Purpose::Exit {
        apply_fill_to_lots(&mut state.lots, key.side, q)?;
        state.net_qty = add_fill(state.net_qty, q, key.side)?;
        Some(())
    } else {
        let px = match rep.last_px {
            Some(p) => p,
            None => match rep.px {
                Some(p) => p,
                None => Px::default(),
            },
        };
        open_lot(state, cfg, now, key.side, q, px, out)
    }
}

fn on_exec(
    state: &mut CoreState,
    cfg: &StrategyConfig,
    now: Ts,
    rep: &ExecReport,
    out: &mut Vec<Action>,
) -> (r: Option<()>)
    ensures
        match r {
            Some(_) => executed(old(state)@, *cfg, now, rep@, asked(old(out)@)) == Some(
                (final(state)@, asked(final(out)@)),
            ),
            None => executed(old(state)@, *cfg, now, rep@, asked(old(out)@)) is None,
        },
        r is Some ==> report_counts(old(state)@, rep@),
{
    let key = match state.find_slot_by_coid(&rep.coid) {
        Some(k) => k,
        None => {
            return Some(());
        },
    };
    match rep.kind {
        ExecKind::Ack | ExecKind::AmendAck => {
            let slot = state.slot(key);
            acknowledge(slot, rep);
        },
        ExecKind::Reject => {
            let slot = state.slot(key);
            slot.note_reject(now);
            slot.clear();
        },
        ExecKind::AmendReject => {
            let slot = state.slot(key);
            slot.note_reject(now);
            slot.roll_back();
            slot.set_working();
        },
        ExecKind::Canceled | ExecKind::Expired => {
            let slot = state.slot(key);
            slot.clear();
        },
        ExecKind::PartialFill | ExecKind::Fill => {
            fill_inventory(state, cfg, now, key, rep, out)?;
            let slot = state.slot(key);
            fill_slot(slot, rep);
        },
    }
    Some(())
}

/// What an event tells a strategy.
pub open spec fn event_applied(
    st: StateV,
    cfg: StrategyConfig,
    now: Ts,
    ev: Event,
    out: Seq<ActionV>,
) -> Option<(StateV, Seq<ActionV>)> {
    match ev {
        Event::RefBook(u) => Some((StateV { ref_book: Some(u.book), ..st }, out)),
        Event::MakerBook(u) => Some((StateV { maker_book: Some(u.book), ..st }, out)),
        Event::Fx(fx) => Some(
            (
                if positive(fx.rate) {
                    StateV { fx: fx.rate, ..st }
                } else {
                    st
                },
                out,
            ),
        ),
        Event::Exec(rep) => executed(st, cfg, now, rep@, out),
        Event::PositionSync(p) => if p.net_qty.0.is_same(st.net_qty.0) {
            Some((st, out))
        } else {
            match lots_rebuilt(st, cfg, now, p.net_qty, p.avg_px) {
                Some(n) => Some((n, out)),
                None => None,
            }
        },
        Event::Asset(_) => Some((st, out)),
        Event::ReqOutcome { coid, result, .. } => Some(
            (outcome_applied(st, now, coid@, result), out),
        ),
        Event::Timer(_) => Some((st, out)),
        Event::Link { kind, up, .. } => Some(
            (
                match kind {
                    LinkKind::MarketData => st,
                    LinkKind::Private => StateV {
                        links: LinkStatus { private: up, ..st.links },
                        ..st
                    },
                    LinkKind::Trading => StateV {
                        links: LinkStatus { trading: up, ..st.links },
                        ..st
                    },
                },
                out,
            ),
        ),
        Event::Control(cmd) => Some(controlled(st, cfg, now, cmd, out)),
    }
}

fn apply_event(
    state: &mut CoreState,
    cfg: &StrategyConfig,
    now: Ts,
    ev: &Event,
    out: &mut Vec<Action>,
) -> (r: Option<()>)
    ensures
        match r {
            Some(_) => event_applied(old(state)@, *cfg, now, *ev, asked(old(out)@)) == Some(
                (final(state)@, asked(final(out)@)),
            ),
            None => event_applied(old(state)@, *cfg, now, *ev, asked(old(out)@)) is None,
        },
        r is Some ==> (*ev matches Event::Exec(rep) ==> report_counts(old(state)@, rep@)),
{
    match ev {
        Event::RefBook(u) => {
            state.ref_book = Some(u.book.clone());
        },
        Event::MakerBook(u) => {
            state.maker_book = Some(u.book.clone());
        },
        Event::Fx(fx) => {
            if fx.rate.is_positive() {
                state.fx = fx.rate;
            }
        },
        Event::Exec(rep) => {
            on_exec(state, cfg, now, rep, out)?;
        },
        Event::PositionSync(p) => {
            if !p.net_qty.0.same(state.net_qty.0) {
                rebuild_lots_from_net(state, cfg, now, p.net_qty, p.avg_px)?;
            }
        },
        Event::Asset(_) => {},
        Event::ReqOutcome { coid, result, reason } => {
            let _ = reason;
            on_req_outcome(state, now, coid, *result);
        },
        Event::Timer(_) => {},
        Event::Link { venue, kind, up } => {
            let _ = venue;
            match kind {
                LinkKind::MarketData => {},
                LinkKind::Private => {
                    state.links.private = *up;
                },
                LinkKind::Trading => {
                    state.links.trading = *up;
                },
            }
        },
        Event::Control(cmd) => {
            on_control(state, cfg, now, cmd, out);
        },
    }
    Some(())
}

/// A request has waited for its answer too long. `None` where the wait does not fit 64 bits.
pub open spec fn overdue(s: SlotV, now: Ts) -> Option<bool> {
    if !s.pending() {
        Some(false)
    } else {
        match s.pending_since {
            None => Some(false),
            Some(t) => match now.ms_since(t) {
                None => None,
                Some(ms) => Some(ms > PENDING_TIMEOUT_MS),
            },
        }
    }
}

/// A slot whose request has waited too long is one whose outcome is not known.
pub open spec fn expired_slot(s: SlotV, now: Ts) -> SlotV {
    if overdue(s, now) == Some(true) {
        SlotV { state: SlotStateKind::Unknown, pending_since: Some(now), ..s }
    } else {
        s
    }
}

/// Every wait fits 64 bits.
pub open spec fn waits_fit(s: Seq<(SlotKey, SlotV)>, now: Ts) -> bool {
    forall|i: int| 0 <= i < s.len() ==> overdue((#[trigger] s[i]).1, now) is Some
}

/// The slots when those whose requests have waited too long are given up.
pub open spec fn all_expired(s: Seq<(SlotKey, SlotV)>, now: Ts) -> Seq<(SlotKey, SlotV)> {
    s.map_values(|e: (SlotKey, SlotV)| (e.0, expired_slot(e.1, now)))
}

/// A request whose acknowledgement never arrives would leave the slot pending for ever and
/// silently retire that grid level. Park it as `Unknown` instead: quoting drops to reduce-only
/// until the open-order sweep says what is real.
fn expire_pending(state: &mut CoreState, now: Ts) -> (r: Option<()>)
    ensures
        match r {
            Some(_) => waits_fit(old(state)@.slots, now) && final(state)@ == (StateV {
                slots: all_expired(old(state)@.slots, now),
                ..old(state)@
            }),
            None => !waits_fit(old(state)@.slots, now),
        },
{
    let ghost start = state@;
    let ghost goal = all_expired(start.slots, now);
    let mut i: usize = 0;
    while i < state.slots.entries.len()
        invariant
            i <= state.slots.entries.len(),
            start == old(state)@,
            goal == all_expired(start.slots, now),
            state@.slots.len() == start.slots.len(),
            state@ == (StateV { slots: state@.slots, ..start }),
            forall|j: int| 0 <= j < i ==> overdue((#[trigger] start.slots[j]).1, now) is Some,
            forall|j: int| 0 <= j < i ==> #[trigger] state@.slots[j] == goal[j],
            forall|j: int| i <= j < start.slots.len() ==> #[trigger] state@.slots[j]
                == start.slots[j],
        decreases state.slots.entries.len() - i,
    {
        let ghost before = state@.slots;
        assert(before[i as int] == start.slots[i as int]);
        let slot = &mut state.slots.entries[i].slot;
        let waiting = match slot.state {
            SlotStateKind::PendingNew
            | SlotStateKind::PendingAmend
            | SlotStateKind::PendingCancel => true,
            _ => false,
        };
        if waiting {
            if let Some(t) = slot.pending_since {
                if now.checked_ms_since(t)? > PENDING_TIMEOUT_MS {
                    slot.state = SlotStateKind::Unknown;
                    slot.pending_since = Some(now);
                }
            }
        }
        assert(state@.slots[i as int] =~= goal[i as int]);
        assert(state@.slots =~= before.update(i as int, goal[i as int]));
        i = i + 1;
    }
    assert(state@.slots =~= goal);
    Some(())
}

/// What is left to do for an event once prices have been looked at.
#[derive(Clone, Copy, Debug)]
pub struct Step {
    /// The strategy takes part: prices are worked out and orders brought about.
    pub proceed: bool,
    /// The reference price in the maker's terms, where there is one.
    pub norm: Option<Px>,
    /// The window took a new look at the spread.
    pub sampled: bool,
}

/// Figures that are worked out in doubles. All but `scale` are bits of doubles.
#[derive(Clone, Copy, Debug)]
pub struct SpreadFigures {
    /// The median of the window.
    pub natural: Option<u64>,
    /// The median deviation of the window from its median.
    pub vol: Option<u64>,
    /// One plus the natural spread.
    pub scale: Decimal,
    /// How far the spread lies from its natural value.
    pub gap: u64,
    /// How far it may lie from it.
    pub band: u64,
}

/// What works out figures in doubles.
pub trait SpreadMath {
    /// The figures of a state. `sampled` says that the window took a new look at the spread, and
    /// `k` how many deviations the spread may lie from its natural value.
    fn figures(&self, state: &CoreState, sampled: bool, k: Decimal) -> SpreadFigures;
}

/// What the prices of an event are read as: bits of doubles.
#[derive(Clone, Copy, Debug)]
pub struct PriceDoubles {
    /// How far the reference price moved, as a fraction of the one before.
    pub moved: u64,
    /// How far it may move.
    pub limit: u64,
    /// The spread of the maker's price over the reference price.
    pub spread: u64,
}

/// How far the reference price moved, as a fraction of the one before.
pub open spec fn move_fraction(prev: Px, norm: Px) -> Option<Decimal> {
    match decimal_difference(norm.0, prev.0) {
        None => None,
        Some(d) => match decimal_abs(d) {
            None => None,
            Some(a) => decimal_quotient(a, prev.0),
        },
    }
}

/// The reference price moved by more than the threshold.
pub open spec fn jumped(prev: Px, norm: Px, p: PriceDoubles) -> Option<bool> {
    match move_fraction(prev, norm) {
        None => None,
        Some(_) => Some(double_above(p.moved, p.limit)),
    }
}

/// The reference price in the maker's terms.
pub open spec fn norm_px(b: TopOfBook, fx: Decimal, multiplier: Decimal) -> Option<Px> {
    match mid_px(b.bid_px, b.ask_px) {
        None => None,
        Some(mid) => match decimal_product(mid.0, fx) {
            None => None,
            Some(p) => to_px(decimal_product(p, multiplier)),
        },
    }
}

/// The state when the reference price was compared with the one before: a jump starts a rest.
pub open spec fn jump_checked(st: StateV, now: Ts, norm: Px, p: PriceDoubles) -> Option<StateV> {
    let next = StateV { last_ref_mid: Some(norm), ..st };
    match st.last_ref_mid {
        Some(prev) => if st.started && positive(prev.0) {
            match jumped(prev, norm, p) {
                None => None,
                Some(true) => Some(
                    StateV {
                        cooldown_until: Some(now.later(JUMP_COOLDOWN_MS as int)),
                        ..next
                    },
                ),
                Some(false) => Some(next),
            }
        } else {
            Some(next)
        },
        None => Some(next),
    }
}

/// The spread of a maker's price over the reference price.
pub open spec fn spread_fraction(maker: Px, norm: Px) -> Option<Decimal> {
    match decimal_difference(maker.0, norm.0) {
        None => None,
        Some(d) => decimal_quotient(d, norm.0),
    }
}

/// The state when the spread was looked at, and whether it was.
pub open spec fn spread_sampled(st: StateV, now: Ts, norm: Px, p: PriceDoubles) -> Option<
    (StateV, bool),
> {
    match st.maker_book {
        Some(b) => if b.two_sided() {
            match mid_px(b.bid_px, b.ask_px) {
                None => None,
                Some(maker) => if positive(norm.0) {
                    match spread_fraction(maker, norm) {
                        None => None,
                        Some(_) => Some(
                            (
                                StateV {
                                    last_spread: Some(p.spread),
                                    window: st.window.pushed(now, p.spread),
                                    ..st
                                },
                                true,
                            ),
                        ),
                    }
                } else {
                    Some((st, false))
                },
            }
        } else {
            Some((st, false))
        },
        None => Some((st, false)),
    }
}

/// The state when prices have been looked at, the reference price, and whether the spread was
/// looked at. Without a sound reference book nothing is looked at.
pub open spec fn prices_seen(st: StateV, cfg: StrategyConfig, now: Ts, p: PriceDoubles) -> Option<
    (StateV, Option<Px>, bool),
> {
    match st.ref_book {
        None => Some((st, None, false)),
        Some(b) => if !b.two_sided() {
            Some((st, None, false))
        } else {
            match norm_px(b, st.fx, cfg.market.multiplier) {
                None => None,
                Some(norm) => match jump_checked(st, now, norm, p) {
                    None => None,
                    Some(next) => match spread_sampled(next, now, norm, p) {
                        None => None,
                        Some(n) => Some((n.0, Some(norm), n.1)),
                    },
                },
            }
        },
    }
}

/// The move of the reference price and the threshold may be read as these doubles.
pub open spec fn move_reads_as(st: StateV, cfg: StrategyConfig, norm: Px, p: PriceDoubles) -> bool {
    st.last_ref_mid matches Some(prev) ==> positive(prev.0) ==> match move_fraction(prev, norm) {
        None => true,
        Some(q) => reads_as(q, p.moved) && reads_as(cfg.pricing.jump_threshold, p.limit),
    }
}

/// The spread may be read as this double.
pub open spec fn spread_reads_as(st: StateV, norm: Px, p: PriceDoubles) -> bool {
    st.maker_book matches Some(b) ==> b.two_sided() && positive(norm.0) ==> match mid_px(
        b.bid_px,
        b.ask_px,
    ) {
        None => true,
        Some(maker) => spread_fraction(maker, norm) matches Some(q) ==> reads_as(q, p.spread),
    }
}

/// The prices of a state may be read as these doubles.
pub open spec fn prices_read_as(st: StateV, cfg: StrategyConfig, p: PriceDoubles) -> bool {
    st.ref_book matches Some(b) ==> b.two_sided() ==> match norm_px(
        b,
        st.fx,
        cfg.market.multiplier,
    ) {
        None => true,
        Some(norm) => move_reads_as(st, cfg, norm, p) && spread_reads_as(st, norm, p),
    }
}

fn read_move(state: &CoreState, cfg: &StrategyConfig, norm: Px) -> (r: Option<(u64, u64)>)
    ensures
        r matches Some(n) ==> forall|p: PriceDoubles|
            #![trigger move_reads_as(state@, *cfg, norm, p)]
            p.moved == n.0 && p.limit == n.1 ==> move_reads_as(state@, *cfg, norm, p),
        r is None ==> forall|p: PriceDoubles| #[trigger] move_reads_as(state@, *cfg, norm, p),
{
    let prev = state.last_ref_mid?;
    if !prev.is_positive() {
        return None;
    }
    let by = norm.0.checked_sub(prev.0)?.checked_abs()?.checked_div(prev.0)?;
    Some((by.as_double(), cfg.pricing.jump_threshold.as_double()))
}

fn read_spread(state: &CoreState, norm: Px) -> (r: Option<u64>)
    ensures
        r matches Some(n) ==> forall|p: PriceDoubles|
            #![trigger spread_reads_as(state@, norm, p)]
            p.spread == n ==> spread_reads_as(state@, norm, p),
        r is None ==> forall|p: PriceDoubles| #[trigger] spread_reads_as(state@, norm, p),
{
    let maker = match &state.maker_book {
        Some(b) => {
            if !b.is_valid() || !norm.is_positive() {
                return None;
            }
            Px::mid(b.bid_px, b.ask_px)?
        },
        None => {
            return None;
        },
    };
    Some(maker.0.checked_sub(norm.0)?.checked_div(norm.0)?.as_double())
}

fn ref_px(state: &CoreState, cfg: &StrategyConfig) -> (r: Option<Option<Px>>)
    ensures
        match state@.ref_book {
            None => r == Some(None::<Px>),
            Some(b) => if !b.two_sided() {
                r == Some(None::<Px>)
            } else {
                match norm_px(b, state@.fx, cfg.market.multiplier) {
                    None => r is None,
                    Some(norm) => r == Some(Some(norm)),
                }
            },
        },
{
    let mid = match &state.ref_book {
        Some(b) => {
            if !b.is_valid() {
                return Some(None);
            }
            Px::mid(b.bid_px, b.ask_px)?
        },
        None => {
            return Some(None);
        },
    };
    Some(Some(Px(mid.0.checked_mul(state.fx)?.checked_mul(cfg.market.multiplier)?)))
}

/// Reads the prices of a state as doubles; what there is not is read as zero.
pub fn read_prices(state: &CoreState, cfg: &StrategyConfig) -> (r: PriceDoubles)
    ensures
        prices_read_as(state@, *cfg, r),
{
    let mut p = PriceDoubles { moved: 0, limit: 0, spread: 0 };
    if let Some(Some(norm)) = ref_px(state, cfg) {
        if let Some(n) = read_move(state, cfg, norm) {
            p.moved = n.0;
            p.limit = n.1;
        }
        if let Some(spread) = read_spread(state, norm) {
            p.spread = spread;
        }
        assert(move_reads_as(state@, *cfg, norm, p));
        assert(spread_reads_as(state@, norm, p));
    }
    p
}

/// Looks at prices that were read as doubles: gives the reference price and whether the spread
/// was looked at. `None` where a figure does not fit.
pub fn look_at_prices(state: &mut CoreState, cfg: &StrategyConfig, now: Ts, p: &PriceDoubles) -> (r:
    Option<(Option<Px>, bool)>)
    ensures
        match r {
            Some(n) => prices_seen(old(state)@, *cfg, now, *p) == Some((final(state)@, n.0, n.1)),
            None => prices_seen(old(state)@, *cfg, now, *p) is None,
        },
{
    let norm = match ref_px(state, cfg)? {
        Some(n) => n,
        None => {
            return Some((None, false));
        },
    };
    if let Some(prev) = state.last_ref_mid {
        if state.started && prev.is_positive() {
            let _ = norm.0.checked_sub(prev.0)?.checked_abs()?.checked_div(prev.0)?;
            if is_above(p.moved, p.limit) {
                state.cooldown_until = Some(now.saturating_add_millis(JUMP_COOLDOWN_MS));
            }
        }
    }
    state.last_ref_mid = Some(norm);
    let maker = match &state.maker_book {
        Some(b) => {
            if !b.is_valid() {
                return Some((Some(norm), false));
            }
            Px::mid(b.bid_px, b.ask_px)?
        },
        None => {
            return Some((Some(norm), false));
        },
    };
    if !norm.is_positive() {
        return Some((Some(norm), false));
    }
    let _ = maker.0.checked_sub(norm.0)?.checked_div(norm.0)?;
    state.last_spread = Some(p.spread);
    state.window.push(now, p.spread);
    Some((Some(norm), true))
}

/// The factor that the natural spread moves the reference price by. A figure that is no decimal
/// of 96 bits moves it by nothing.
pub open spec fn scale_of(f: SpreadFigures) -> Decimal {
    if f.scale.wf() {
        f.scale
    } else {
        dec_one()
    }
}

/// The state when the fair price was set: the reference price, moved by the natural spread where
/// that is known.
pub open spec fn fair_set(st: StateV, norm: Option<Px>, sampled: bool, f: SpreadFigures) -> Option<
    StateV,
> {
    match norm {
        None => Some(st),
        Some(norm) => {
            let next = if sampled {
                StateV { last_natural: f.natural, last_vol: f.vol, ..st }
            } else {
                st
            };
            match next.last_natural {
                None => Some(StateV { last_fair: Some(norm), ..next }),
                Some(_) => match decimal_product(norm.0, scale_of(f)) {
                    None => None,
                    Some(p) => Some(StateV { last_fair: Some(Px(p)), ..next }),
                },
            }
        },
    }
}

/// The fair price is worked out as decimals are multiplied.
pub open spec fn fair_multiplies(st: StateV, norm: Option<Px>, sampled: bool, f: SpreadFigures) -> bool {
    norm matches Some(n) ==> (if sampled {
        f.natural
    } else {
        st.last_natural
    }) is Some ==> product_known(n.0, scale_of(f))
}

fn set_fair(state: &mut CoreState, norm: Option<Px>, sampled: bool, f: &SpreadFigures) -> (r:
    Option<()>)
    ensures
        match r {
            Some(_) => fair_set(old(state)@, norm, sampled, *f) == Some(final(state)@),
            None => fair_set(old(state)@, norm, sampled, *f) is None,
        },
        fair_multiplies(old(state)@, norm, sampled, *f),
{
    let norm = match norm {
        Some(n) => n,
        None => {
            return Some(());
        },
    };
    if sampled {
        state.last_natural = f.natural;
        state.last_vol = f.vol;
    }
    if state.last_natural.is_some() {
        let scale = if f.scale.valid() {
            f.scale
        } else {
            Decimal::one()
        };
        let fair = norm.0.checked_mul(scale)?;
        state.last_fair = Some(Px(fair));
    } else {
        state.last_fair = Some(norm);
    }
    Some(())
}

/// A lot and whether its exit becomes a fast one: it goes to the taker when it has lost too much
/// or its time is up, and to a fast exit when half its time is up. `loss` is what it has lost, and
/// `most` what it may: bits of doubles. Without a fair price it has lost nothing.
pub open spec fn lot_advanced(
    lot: Lot,
    fair: Option<Px>,
    loss: Option<u64>,
    most: u64,
    now: Ts,
) -> Option<(Lot, bool)> {
    let lost = match fair {
        None => Some(false),
        Some(_) => match loss {
            None => None,
            Some(l) => Some(double_above(l, most)),
        },
    };
    if lot.phase == ExitPhase::Closed || lot.remaining.0.zero_valued() {
        Some((Lot { phase: ExitPhase::Closed, ..lot }, false))
    } else {
        match lost {
            None => None,
            Some(true) => Some((Lot { phase: ExitPhase::TakerExit, ..lot }, false)),
            Some(false) => if now.0 >= lot.force_deadline.0 {
                Some((Lot { phase: ExitPhase::TakerExit, ..lot }, false))
            } else if now.0 >= lot.fast_deadline.0 && lot.phase == ExitPhase::MakerTp {
                Some((Lot { phase: ExitPhase::FastMaker, ..lot }, true))
            } else {
                Some((lot, false))
            },
        }
    }
}

/// A lot has nothing left to close.
pub open spec fn lot_done(lot: Lot) -> bool {
    lot.phase == ExitPhase::Closed || lot.remaining.0.zero_valued()
}

/// Bits that what open lots have lost may be read as, one for each lot.
pub open spec fn losses_read_as(lots: Seq<Lot>, fair: Option<Px>, losses: Seq<Option<u64>>) -> bool {
    &&& losses.len() == lots.len()
    &&& fair matches Some(f) ==> forall|i: int|
        0 <= i < lots.len() && !lot_done(lots[i]) ==> loss_reads_as(
            lots[i].entry_px,
            f,
            lots[i].side,
            #[trigger] losses[i],
        )
}

/// The note that a lot's exit became a fast one.
pub open spec fn fast_note(id: LotId) -> ActionV {
    ActionV::Emit(TelemetryV::Info { msg: "lot "@ + digits(id.0 as nat) + " fast exit"@ })
}

/// `kept` and the lots from `i` on, each a step further on its way out; closed ones are gone.
pub open spec fn advanced_from(
    lots: Seq<Lot>,
    i: int,
    kept: Seq<Lot>,
    fair: Option<Px>,
    losses: Seq<Option<u64>>,
    most: u64,
    now: Ts,
    out: Seq<ActionV>,
) -> Option<(Seq<Lot>, Seq<ActionV>)>
    decreases lots.len() - i,
{
    if !(0 <= i < lots.len()) {
        Some((kept, out))
    } else {
        match lot_advanced(lots[i], fair, losses[i], most, now) {
            None => None,
            Some(n) => advanced_from(
                lots,
                i + 1,
                if n.0.phase == ExitPhase::Closed {
                    kept
                } else {
                    kept.push(n.0)
                },
                fair,
                losses,
                most,
                now,
                if n.1 {
                    out.push(fast_note(lots[i].id))
                } else {
                    out
                },
            ),
        }
    }
}

fn advance_lot(lot: Lot, fair: Option<Px>, loss: Option<u64>, most: u64, now: Ts) -> (r: Option<
    (Lot, bool),
>)
    ensures
        r == lot_advanced(lot, fair, loss, most, now),
{
    if lot.phase == ExitPhase::Closed || lot.remaining.is_zero() {
        return Some((Lot { phase: ExitPhase::Closed, ..lot }, false));
    }
    if fair.is_some() {
        if is_above(loss?, most) {
            return Some((Lot { phase: ExitPhase::TakerExit, ..lot }, false));
        }
    }
    if now.0 >= lot.force_deadline.0 {
        Some((Lot { phase: ExitPhase::TakerExit, ..lot }, false))
    } else if now.0 >= lot.fast_deadline.0 && lot.phase == ExitPhase::MakerTp {
        Some((Lot { phase: ExitPhase::FastMaker, ..lot }, true))
    } else {
        Some((lot, false))
    }
}

/// What open lots have lost, one for each lot: bits of doubles, where there is a fair price.
pub fn read_losses(lots: &Vec<Lot>, fair: Option<Px>) -> (r: Vec<Option<u64>>)
    ensures
        losses_read_as(lots@, fair, r@),
{
    let mut r: Vec<Option<u64>> = Vec::new();
    let mut i: usize = 0;
    while i < lots.len()
        invariant
            i <= lots.len(),
            r@.len() == i,
            fair matches Some(f) ==> forall|j: int|
                0 <= j < i && !lot_done(lots@[j]) ==> loss_reads_as(
                    lots@[j].entry_px,
                    f,
                    lots@[j].side,
                    #[trigger] r@[j],
                ),
        decreases lots.len() - i,
    {
        let lot = lots[i];
        let loss = match fair {
            Some(f) => if lot.phase == ExitPhase::Closed || lot.remaining.is_zero() {
                None
            } else {
                float_loss(lot.entry_px, f, lot.side)
            },
            None => None,
        };
        r.push(loss);
        i = i + 1;
    }
    r
}

/// Moves each lot a step further on its way out; closed ones are gone. `losses` are what the lots
/// have lost, and `most` what a lot may lose: bits of doubles. `None` where a figure does not fit.
pub fn advance_exits(
    state: &mut CoreState,
    losses: &Vec<Option<u64>>,
    most: u64,
    now: Ts,
    out: &mut Vec<Action>,
) -> (r: Option<()>)
    requires
        losses@.len() == old(state)@.lots.len(),
    ensures
        ({
            let goal = advanced_from(
                old(state)@.lots,
                0,
                Seq::empty(),
                old(state)@.last_fair,
                losses@,
                most,
                now,
                asked(old(out)@),
            );
            match r {
                Some(_) => {
                    &&& goal == Some((final(state)@.lots, asked(final(out)@)))
                    &&& final(state)@ == (StateV { lots: final(state)@.lots, ..old(state)@ })
                },
                None => goal is None,
            }
        }),
{
    let fair = state.last_fair;
    let mut kept: Vec<Lot> = Vec::new();
    let mut i: usize = 0;
    let ghost goal = advanced_from(
        state@.lots,
        0,
        Seq::empty(),
        fair,
        losses@,
        most,
        now,
        asked(out@),
    );
    while i < state.lots.len()
        invariant
            i <= state.lots.len(),
            losses@.len() == state@.lots.len(),
            state@ == old(state)@,
            fair == old(state)@.last_fair,
            goal == advanced_from(
                old(state)@.lots,
                0,
                Seq::empty(),
                old(state)@.last_fair,
                losses@,
                most,
                now,
                asked(old(out)@),
            ),
            goal == advanced_from(
                state@.lots,
                i as int,
                kept@,
                fair,
                losses@,
                most,
                now,
                asked(out@),
            ),
        decreases state.lots.len() - i,
    {
        let lot = state.lots[i];
        let (next, fast) = advance_lot(lot, fair, losses[i], most, now)?;
        if fast {
            let msg = cat3("lot ", &digits_text(lot.id.0), " fast exit");
            let a = Action::Emit(TelemetryEvent::Info { msg });
            let ghost said = asked(out@);
            out.push(a);
            assert(asked(out@) =~= said.push(a@));
        }
        if next.phase != ExitPhase::Closed {
            kept.push(next);
        }
        i = i + 1;
    }
    state.lots = kept;
    Some(())
}

/// The state when the mode follows from what may be quoted.
pub open spec fn mode_synced(st: StateV) -> StateV {
    if !st.started {
        StateV { lifecycle: StrategyMode::Stopped, ..st }
    } else if st.flatten_requested {
        if st.net_qty.0.zero_valued() && st.lots.len() == 0 {
            StateV { started: false, lifecycle: StrategyMode::Stopped, ..st }
        } else {
            StateV { lifecycle: StrategyMode::Flattening, ..st }
        }
    } else if st.permission.reason == Some("warmup"@) {
        StateV { lifecycle: StrategyMode::Warmup, ..st }
    } else if !st.permission.allow_new_buy && !st.permission.allow_new_sell {
        StateV { lifecycle: StrategyMode::Degraded, ..st }
    } else {
        StateV { lifecycle: StrategyMode::Running, ..st }
    }
}

fn sync_lifecycle(state: &mut CoreState)
    ensures
        final(state)@ == mode_synced(old(state)@),
{
    if !state.started {
        state.lifecycle = StrategyMode::Stopped;
        return;
    }
    if state.flatten_requested {
        if state.net_qty.is_zero() && state.lots.len() == 0 {
            state.started = false;
            state.lifecycle = StrategyMode::Stopped;
        } else {
            state.lifecycle = StrategyMode::Flattening;
        }
        return;
    }
    let warming = match &state.permission.reason {
        Some(r) => same_text(r, "warmup"),
        None => false,
    };
    if warming {
        state.lifecycle = StrategyMode::Warmup;
        return;
    }
    if !state.permission.allow_new_buy && !state.permission.allow_new_sell {
        state.lifecycle = StrategyMode::Degraded;
        return;
    }
    state.lifecycle = StrategyMode::Running;
}

/// Amounts that a grid may add up to.
pub struct GridRoom {
    pub long: Decimal,
    pub short: Decimal,
    pub held: Decimal,
}

/// An order is kept if the side it adds to, and the position with it alone, stay within their
/// limits; the side then stands at the sum.
pub open spec fn fits_room(side_now: Decimal, held: Decimal, add: Decimal, side_max: Decimal, max: Decimal)
    -> Option<Option<Decimal>> {
    match decimal_sum(side_now, add) {
        None => None,
        Some(next) => if side_max.is_below(next) {
            Some(None)
        } else {
            match decimal_sum(held, add) {
                None => None,
                Some(total) => if max.is_below(total) {
                    Some(None)
                } else {
                    Some(Some(next))
                },
            }
        },
    }
}

/// `kept` and those orders of a grid from `i` on for which there is room.
pub open spec fn capped_from(
    grid: Seq<DesiredSlot>,
    i: int,
    kept: Seq<DesiredSlot>,
    room: GridRoom,
    px: Decimal,
    size: Decimal,
    cfg: StrategyConfig,
) -> Option<Seq<DesiredSlot>>
    decreases grid.len() - i,
{
    if !(0 <= i < grid.len()) {
        Some(kept)
    } else {
        let d = grid[i];
        if d.key.purpose != Purpose::GridEntry {
            capped_from(grid, i + 1, kept.push(d), room, px, size, cfg)
        } else {
            match notional_of(d.order.qty.0, px, size) {
                None => None,
                Some(add) => {
                    let verdict = match d.key.side {
                        Side::Buy => fits_room(
                            room.long,
                            room.held,
                            add,
                            cfg.risk.max_long,
                            cfg.risk.max_position,
                        ),
                        Side::Sell => fits_room(
                            room.short,
                            room.held,
                            add,
                            cfg.risk.max_short,
                            cfg.risk.max_position,
                        ),
                    };
                    match verdict {
                        None => None,
                        Some(None) => capped_from(grid, i + 1, kept, room, px, size, cfg),
                        Some(Some(next)) => capped_from(
                            grid,
                            i + 1,
                            kept.push(d),
                            if d.key.side == Side::Buy {
                                GridRoom { long: next, ..room }
                            } else {
                                GridRoom { short: next, ..room }
                            },
                            px,
                            size,
                            cfg,
                        ),
                    }
                },
            }
        }
    }
}

/// Those orders of a grid for which there is room beside the position.
pub open spec fn grid_capped(
    st: StateV,
    cfg: StrategyConfig,
    maker: Instrument,
    grid: Seq<DesiredSlot>,
) -> Option<Seq<DesiredSlot>> {
    match notional_of(st.net_qty.0, unit_px(st), unit_size(maker)) {
        None => None,
        Some(held) => {
            let room = GridRoom {
                long: if positive(st.net_qty.0) {
                    held
                } else {
                    dec_zero()
                },
                short: if st.net_qty.0.is_below(dec_zero()) {
                    held
                } else {
                    dec_zero()
                },
                held,
            };
            capped_from(grid, 0, Seq::empty(), room, unit_px(st), unit_size(maker), cfg)
        },
    }
}

fn has_room(side_now: Decimal, held: Decimal, add: Decimal, side_max: Decimal, max: Decimal) -> (r:
    Option<Option<Decimal>>)
    ensures
        r == fits_room(side_now, held, add, side_max, max),
{
    let next = side_now.checked_add(add)?;
    if side_max.below(next) {
        return Some(None);
    }
    let total = held.checked_add(add)?;
    if max.below(total) {
        return Some(None);
    }
    Some(Some(next))
}

fn cap_grid_inventory(
    state: &CoreState,
    cfg: &StrategyConfig,
    maker: &Instrument,
    grid: &Vec<DesiredSlot>,
) -> (r: Option<Vec<DesiredSlot>>)
    ensures
        match r {
            Some(v) => grid_capped(state@, *cfg, *maker, grid@) == Some(v@),
            None => grid_capped(state@, *cfg, *maker, grid@) is None,
        },
{
    let px = match state.last_fair {
        Some(p) => p.0,
        None => Decimal::one(),
    };
    let size = maker.contract_size.max(Decimal::new(1, 8));
    let held = notional(state.net_qty.0, px, size)?;
    let mut long = if state.net_qty.0.is_positive() {
        held
    } else {
        Decimal::zero()
    };
    let mut short = if state.net_qty.0.is_negative() {
        held
    } else {
        Decimal::zero()
    };
    let mut kept: Vec<DesiredSlot> = Vec::new();
    let mut i: usize = 0;
    let ghost goal = grid_capped(state@, *cfg, *maker, grid@);
    while i < grid.len()
        invariant
            i <= grid.len(),
            goal == grid_capped(state@, *cfg, *maker, grid@),
            goal == capped_from(
                grid@,
                i as int,
                kept@,
                GridRoom { long, short, held },
                px,
                size,
                *cfg,
            ),
        decreases grid.len() - i,
    {
        let d = grid[i];
        if d.key.purpose != Purpose::GridEntry {
            kept.push(d);
        } else {
            let add = notional(d.order.qty.0, px, size)?;
            match d.key.side {
                Side::Buy => {
                    match has_room(long, held, add, cfg.risk.max_long, cfg.risk.max_position)? {
                        Some(next) => {
                            long = next;
                            kept.push(d);
                        },
                        None => {},
                    }
                },
                Side::Sell => {
                    match has_room(short, held, add, cfg.risk.max_short, cfg.risk.max_position)? {
                        Some(next) => {
                            short = next;
                            kept.push(d);
                        },
                        None => {},
                    }
                },
            }
        }
        i = i + 1;
    }
    Some(kept)
}

/// The price at which a lot is to leave.
pub open spec fn leaving_px(
    lot: Lot,
    cfg: StrategyConfig,
    maker: Instrument,
    book: Option<TopOfBook>,
) -> Option<Px> {
    let side = lot.side.other();
    match lot.phase {
        ExitPhase::MakerTp => maker_exit(
            lot.entry_px,
            lot.side,
            cfg.exit.take_profit,
            maker.tick_size,
        ),
        ExitPhase::FastMaker => match book {
            Some(b) => match side {
                Side::Sell => to_px(tick_ceil(b.ask_px.0, maker.tick_size)),
                Side::Buy => to_px(tick_floor(b.bid_px.0, maker.tick_size)),
            },
            None => maker_exit(lot.entry_px, lot.side, dec_zero(), maker.tick_size),
        },
        _ => match book {
            Some(b) => match side {
                Side::Sell => Some(b.bid_px),
                Side::Buy => Some(b.ask_px),
            },
            None => Some(lot.entry_px),
        },
    }
}

/// The order that lets a lot leave.
pub open spec fn leaving_order(lot: Lot, px: Px) -> DesiredSlot {
    let taker = lot.phase == ExitPhase::TakerExit;
    DesiredSlot {
        key: SlotKey {
            purpose: Purpose::Exit,
            side: lot.side.other(),
            index: (lot.id.0 % 200) as u8,
        },
        order: DesiredOrder {
            px,
            qty: lot.remaining,
            reduce_only: true,
            tif: if taker {
                TimeInForce::Ioc
            } else {
                TimeInForce::PostOnly
            },
            order_type: if taker {
                OrderType::Market
            } else {
                OrderType::Limit
            },
        },
    }
}

/// `acc` and the orders that let the lots from `i` on leave.
pub open spec fn exits_from(
    lots: Seq<Lot>,
    i: int,
    cfg: StrategyConfig,
    maker: Instrument,
    book: Option<TopOfBook>,
    acc: Seq<DesiredSlot>,
) -> Option<Seq<DesiredSlot>>
    decreases lots.len() - i,
{
    if !(0 <= i < lots.len()) {
        Some(acc)
    } else if lots[i].remaining.0.zero_valued() || lots[i].phase == ExitPhase::Closed {
        exits_from(lots, i + 1, cfg, maker, book, acc)
    } else {
        match leaving_px(lots[i], cfg, maker, book) {
            None => None,
            Some(px) => exits_from(
                lots,
                i + 1,
                cfg,
                maker,
                book,
                acc.push(leaving_order(lots[i], px)),
            ),
        }
    }
}

fn price_exit(lot: &Lot, cfg: &StrategyConfig, maker: &Instrument, book: &Option<TopOfBook>) -> (r:
    Option<Px>)
    ensures
        r == leaving_px(*lot, *cfg, *maker, *book),
{
    let side = lot.side.opposite();
    match lot.phase {
        ExitPhase::MakerTp => exit_px_maker(
            lot.entry_px,
            lot.side,
            cfg.exit.take_profit,
            maker.tick_size,
        ),
        ExitPhase::FastMaker => match book {
            Some(b) => match side {
                Side::Sell => Some(Px(round_sell_px(b.ask_px.0, maker.tick_size)?)),
                Side::Buy => Some(Px(round_buy_px(b.bid_px.0, maker.tick_size)?)),
            },
            None => exit_px_maker(lot.entry_px, lot.side, Decimal::zero(), maker.tick_size),
        },
        _ => match book {
            Some(b) => match side {
                Side::Sell => Some(b.bid_px),
                Side::Buy => Some(b.ask_px),
            },
            None => Some(lot.entry_px),
        },
    }
}

fn exit_targets(state: &CoreState, cfg: &StrategyConfig, maker: &Instrument) -> (r: Option<
    Vec<DesiredSlot>,
>)
    ensures
        match r {
            Some(v) => exits_from(
                state@.lots,
                0,
                *cfg,
                *maker,
                state@.maker_book,
                Seq::empty(),
            ) == Some(v@),
            None => exits_from(
                state@.lots,
                0,
                *cfg,
                *maker,
                state@.maker_book,
                Seq::empty(),
            ) is None,
        },
{
    let mut out: Vec<DesiredSlot> = Vec::new();
    let mut i: usize = 0;
    let ghost goal = exits_from(state@.lots, 0, *cfg, *maker, state@.maker_book, Seq::empty());
    while i < state.lots.len()
        invariant
            i <= state.lots.len(),
            goal == exits_from(state@.lots, 0, *cfg, *maker, state@.maker_book, Seq::empty()),
            goal == exits_from(state@.lots, i as int, *cfg, *maker, state@.maker_book, out@),
        decreases state.lots.len() - i,
    {
        let lot = state.lots[i];
        if !lot.remaining.is_zero() && lot.phase != ExitPhase::Closed {
            let px = price_exit(&lot, cfg, maker, &state.maker_book)?;
            let taker = lot.phase == ExitPhase::TakerExit;
            out.push(
                DesiredSlot {
                    key: SlotKey::exit(lot.side.opposite(), (lot.id.0 % 200) as u8),
                    order: DesiredOrder {
                        px,
                        qty: lot.remaining,
                        reduce_only: true,
                        tif: if taker {
                            TimeInForce::Ioc
                        } else {
                            TimeInForce::PostOnly
                        },
                        order_type: if taker {
                            OrderType::Market
                        } else {
                            OrderType::Limit
                        },
                    },
                },
            );
        }
        i = i + 1;
    }
    Some(out)
}

/// The orders of the grid that may stand: none without a fair price, while flattening, or where
/// nothing new may be quoted.
pub open spec fn grid_wanted(st: StateV, cfg: StrategyConfig, maker: Instrument) -> Option<
    Seq<DesiredSlot>,
> {
    match st.last_fair {
        Some(fair) => if !st.flatten_requested && (st.permission.allow_new_buy
            || st.permission.allow_new_sell) {
            match grid_from(
                fair,
                cfg.pricing.grid@,
                0,
                maker,
                st.permission.allow_new_buy,
                st.permission.allow_new_sell,
                st.maker_book,
                Seq::empty(),
            ) {
                None => None,
                Some(grid) => grid_capped(st, cfg, maker, grid),
            }
        } else {
            Some(Seq::empty())
        },
        None => Some(Seq::empty()),
    }
}

/// The orders that should stand: exits first, then the grid, without those that would cross.
pub open spec fn all_wanted(st: StateV, cfg: StrategyConfig, maker: Instrument) -> Option<
    Seq<DesiredSlot>,
> {
    match exits_from(st.lots, 0, cfg, maker, st.maker_book, Seq::empty()) {
        None => None,
        Some(exits) => match grid_wanted(st, cfg, maker) {
            None => None,
            Some(grid) => Some(uncrossed(exits + grid)),
        },
    }
}

/// The note that quoting rests.
pub open spec fn rest_note(st: StateV) -> ActionV {
    ActionV::Emit(
        TelemetryV::Jump {
            prev: match st.last_ref_mid {
                Some(p) => decimal_text(p.0),
                None => ""@,
            },
            next: "cooldown"@,
        },
    )
}

/// The strategy rests after a jump.
pub open spec fn resting(st: StateV, now: Ts) -> bool {
    st.permission.force_cancel_all && (st.cooldown_until matches Some(t) && now.0 < t.0)
}

/// The terms on which a strategy places its orders.
pub open spec fn terms_of(st: StateV, cfg: StrategyConfig, now: Ts, requote: u64) -> Terms {
    Terms {
        id: cfg.id@,
        venue: cfg.market.maker_venue,
        symbol: cfg.market.maker_symbol@,
        requote,
        fair: st.last_fair,
        supports_amend: true,
        now,
    }
}

/// The state and the actions when orders were brought about. A strategy that rests takes all
/// orders back. `requote` is how far a working order may lie off, and `gaps` how far each does.
pub open spec fn quoted(
    st: StateV,
    cfg: StrategyConfig,
    maker: Instrument,
    now: Ts,
    requote: u64,
    gaps: Seq<Option<u64>>,
    out: Seq<ActionV>,
) -> Option<(StateV, Seq<ActionV>)> {
    if resting(st, now) {
        Some(
            (
                StateV { slots: all_withdrawn(st.slots, now), ..st },
                out.push(cancel_everything(cfg)).push(rest_note(st)),
            ),
        )
    } else {
        match all_wanted(st, cfg, maker) {
            None => None,
            Some(desired) => {
                let noted = match st.permission.reason {
                    Some(reason) => out.push(ActionV::Emit(TelemetryV::Guard { reason })),
                    None => out,
                };
                reconciled(st, noted, desired, terms_of(st, cfg, now, requote), gaps)
            },
        }
    }
}

/// The distances of working orders from where they should be may be read as these doubles.
pub open spec fn quotes_read_as(
    st: StateV,
    cfg: StrategyConfig,
    maker: Instrument,
    now: Ts,
    gaps: Seq<Option<u64>>,
) -> bool {
    !resting(st, now) ==> match all_wanted(st, cfg, maker) {
        None => true,
        Some(desired) => gaps_read_as(st, desired, st.last_fair, gaps),
    }
}

fn targets(state: &CoreState, cfg: &StrategyConfig, maker: &Instrument) -> (r: Option<
    Vec<DesiredSlot>,
>)
    ensures
        match r {
            Some(v) => all_wanted(state@, *cfg, *maker) == Some(v@),
            None => all_wanted(state@, *cfg, *maker) is None,
        },
{
    let mut desired = exit_targets(state, cfg, maker)?;
    let ghost exits = desired@;
    let mut grid: Vec<DesiredSlot> = Vec::new();
    if let Some(fair) = state.last_fair {
        if !state.flatten_requested && (state.permission.allow_new_buy
            || state.permission.allow_new_sell) {
            let raw = grid_targets(
                fair,
                &cfg.pricing.grid,
                maker,
                state.permission.allow_new_buy,
                state.permission.allow_new_sell,
                &state.maker_book,
            )?;
            grid = cap_grid_inventory(state, cfg, maker, &raw)?;
        }
    }
    let ghost wanted_grid = grid@;
    let mut i: usize = 0;
    while i < grid.len()
        invariant
            i <= grid.len(),
            grid@ == wanted_grid,
            desired@ == exits + wanted_grid.take(i as int),
        decreases grid.len() - i,
    {
        desired.push(grid[i]);
        assert(wanted_grid.take(i + 1) =~= wanted_grid.take(i as int).push(wanted_grid[i as int]));
        i = i + 1;
    }
    assert(wanted_grid.take(i as int) =~= wanted_grid);
    prevent_self_cross(&mut desired);
    Some(desired)
}

/// Brings orders about, and says how far working orders were read to lie off.
fn quote(
    state: &mut CoreState,
    cfg: &StrategyConfig,
    maker: &Instrument,
    now: Ts,
    requote: u64,
    out: &mut Vec<Action>,
) -> (r: (Option<()>, Ghost<Seq<Option<u64>>>))
    ensures
        quotes_read_as(old(state)@, *cfg, *maker, now, r.1@),
        match r.0 {
            Some(_) => quoted(
                old(state)@,
                *cfg,
                *maker,
                now,
                requote,
                r.1@,
                asked(old(out)@),
            ) == Some((final(state)@, asked(final(out)@))),
            None => quoted(
                old(state)@,
                *cfg,
                *maker,
                now,
                requote,
                r.1@,
                asked(old(out)@),
            ) is None,
        },
{
    let cooling = match state.cooldown_until {
        Some(t) => now.0 < t.0,
        None => false,
    };
    if state.permission.force_cancel_all && cooling {
        mark_cancel_all(state, now);
        let a = cancel_all_action(cfg);
        let prev = match state.last_ref_mid {
            Some(p) => p.text(),
            None => "".to_owned(),
        };
        let b = Action::Emit(TelemetryEvent::Jump { prev, next: "cooldown".to_owned() });
        out.push(a);
        out.push(b);
        assert(asked(out@) =~= asked(old(out)@).push(a@).push(b@));
        return (Some(()), Ghost(Seq::empty()));
    }
    let desired = match targets(state, cfg, maker) {
        Some(d) => d,
        None => {
            return (None, Ghost(Seq::empty()));
        },
    };
    if let Some(reason) = &state.permission.reason {
        let a = Action::Emit(TelemetryEvent::Guard { reason: reason.clone() });
        out.push(a);
        assert(asked(out@) =~= asked(old(out)@).push(a@));
    }
    let fair = state.last_fair;
    let gaps = read_gaps(state, &desired, fair);
    let r = reconcile_by(
        state,
        &cfg.id,
        cfg.market.maker_venue,
        &cfg.market.maker_symbol,
        &desired,
        requote,
        fair,
        true,
        now,
        &gaps,
        out,
    );
    (r, Ghost(gaps@))
}

/// A strategy that is not started takes no part in an event but the command that starts it.
pub open spec fn takes_part(st: StateV, ev: Event) -> bool {
    (st.lifecycle != StrategyMode::Stopped && st.lifecycle != StrategyMode::Init) || (ev matches
        Event::Control(cmd) && cmd is Start)
}

/// The state and the actions when an event was taken in and prices were looked at, and what is
/// left to do.
pub open spec fn begun(
    st: StateV,
    cfg: StrategyConfig,
    now: Ts,
    ev: Event,
    p: PriceDoubles,
    out: Seq<ActionV>,
) -> Option<(StateV, Seq<ActionV>, Step)> {
    match event_applied(st, cfg, now, ev, out) {
        None => None,
        Some(n) => if !takes_part(n.0, ev) {
            Some((n.0, n.1, Step { proceed: false, norm: None, sampled: false }))
        } else if !waits_fit(n.0.slots, now) {
            None
        } else {
            match prices_seen(
                StateV { slots: all_expired(n.0.slots, now), ..n.0 },
                cfg,
                now,
                p,
            ) {
                None => None,
                Some(s) => Some((s.0, n.1, Step { proceed: true, norm: s.1, sampled: s.2 })),
            }
        },
    }
}

/// The prices that an event finds may be read as these doubles.
pub open spec fn event_reads_as(
    st: StateV,
    cfg: StrategyConfig,
    now: Ts,
    ev: Event,
    p: PriceDoubles,
    out: Seq<ActionV>,
) -> bool {
    match event_applied(st, cfg, now, ev, out) {
        None => true,
        Some(n) => {
            &&& ev matches Event::Exec(rep) ==> report_counts(st, rep@)
            &&& takes_part(n.0, ev) && waits_fit(n.0.slots, now) ==> prices_read_as(
                StateV { slots: all_expired(n.0.slots, now), ..n.0 },
                cfg,
                p,
            )
        },
    }
}

/// What orders are brought about with: figures worked out in doubles, and decimals read as such.
pub struct QuoteDoubles {
    pub figures: SpreadFigures,
    /// What each lot has lost.
    pub losses: Seq<Option<u64>>,
    /// What a lot may lose.
    pub max_loss: u64,
    /// How far the spread may lie from its natural value at the very most.
    pub most: u64,
    /// How far a working order may lie off.
    pub requote: u64,
    /// How far each working order lies off.
    pub gaps: Seq<Option<u64>>,
}

/// All doubles that go into an event.
pub struct Doubles {
    pub price: PriceDoubles,
    pub quote: QuoteDoubles,
}

/// The state and the actions just before orders are brought about: the fair price is set, lots have
/// moved on, and what may be quoted is known.
pub open spec fn before_quoting(
    st: StateV,
    cfg: StrategyConfig,
    maker: Instrument,
    now: Ts,
    step: Step,
    q: QuoteDoubles,
    out: Seq<ActionV>,
) -> Option<(StateV, Seq<ActionV>)> {
    match fair_set(st, step.norm, step.sampled, q.figures) {
        None => None,
        Some(priced) => match advanced_from(
            priced.lots,
            0,
            Seq::empty(),
            priced.last_fair,
            q.losses,
            q.max_loss,
            now,
            out,
        ) {
            None => None,
            Some(exits) => {
                let moved = StateV { lots: exits.0, ..priced };
                match permitted(
                    cfg,
                    moved,
                    maker,
                    now,
                    q.figures.gap,
                    q.figures.band,
                    q.most,
                ) {
                    None => None,
                    Some(permission) => Some(
                        (mode_synced(StateV { permission, ..moved }), exits.1),
                    ),
                }
            },
        },
    }
}

/// The state and the actions when the rest was done: the fair price is set, lots move on, what may
/// be quoted is worked out, and orders are brought about.
pub open spec fn finished(
    st: StateV,
    cfg: StrategyConfig,
    maker: Instrument,
    now: Ts,
    step: Step,
    q: QuoteDoubles,
    out: Seq<ActionV>,
) -> Option<(StateV, Seq<ActionV>)> {
    if !step.proceed {
        Some((st, out))
    } else {
        match before_quoting(st, cfg, maker, now, step, q, out) {
            None => None,
            Some(s) => match quoted(s.0, cfg, maker, now, q.requote, q.gaps, s.1) {
                None => None,
                Some(n) => Some(
                    (
                        n.0,
                        n.1.push(
                            ActionV::SetTimer {
                                id: TimerId(2),
                                at: now.later(EXIT_SCAN_MS as int),
                            },
                        ),
                    ),
                ),
            },
        }
    }
}

/// The thresholds of a strategy may be read as these doubles.
pub open spec fn thresholds_read_as(cfg: StrategyConfig, q: QuoteDoubles) -> bool {
    &&& reads_as(cfg.exit.max_loss, q.max_loss)
    &&& reads_as(cfg.pricing.requote_threshold, q.requote)
    &&& cfg.risk.max_abs_spread_dev matches Some(most) ==> reads_as(most, q.most)
}

/// What orders are brought about with may be read as these doubles.
pub open spec fn rest_reads_as(
    st: StateV,
    cfg: StrategyConfig,
    maker: Instrument,
    now: Ts,
    step: Step,
    q: QuoteDoubles,
    out: Seq<ActionV>,
) -> bool {
    step.proceed ==> {
        &&& thresholds_read_as(cfg, q)
        &&& fair_multiplies(st, step.norm, step.sampled, q.figures)
        &&& fair_set(st, step.norm, step.sampled, q.figures) matches Some(priced)
            ==> losses_read_as(priced.lots, priced.last_fair, q.losses)
        &&& before_quoting(st, cfg, maker, now, step, q, out) matches Some(s) ==> quotes_read_as(
            s.0,
            cfg,
            maker,
            now,
            q.gaps,
        )
    }
}

/// What an event does to a strategy, given the doubles that go into it.
pub open spec fn stepped(
    st: StateV,
    cfg: StrategyConfig,
    maker: Instrument,
    now: Ts,
    ev: Event,
    f: Doubles,
    out: Seq<ActionV>,
) -> Option<(StateV, Seq<ActionV>)> {
    match begun(st, cfg, now, ev, f.price, out) {
        None => None,
        Some(b) => finished(b.0, cfg, maker, now, b.2, f.quote, b.1),
    }
}

/// The figures are some that `math` may give for a state.
pub open spec fn figured<M: SpreadMath>(
    math: M,
    st: StateV,
    cfg: StrategyConfig,
    step: Step,
    f: SpreadFigures,
) -> bool {
    exists|s: CoreState|
        s@ == st && #[trigger] call_ensures(
            M::figures,
            (&math, &s, step.sampled, cfg.risk.max_spread_dev_k),
            f,
        )
}

/// The doubles are some that may go into an event: decimals are read as they may be, and figures
/// are some that `math` may give.
pub open spec fn goes_in<M: SpreadMath>(
    math: M,
    st: StateV,
    cfg: StrategyConfig,
    maker: Instrument,
    now: Ts,
    ev: Event,
    f: Doubles,
    out: Seq<ActionV>,
) -> bool {
    &&& event_reads_as(st, cfg, now, ev, f.price, out)
    &&& match begun(st, cfg, now, ev, f.price, out) {
        None => true,
        Some(b) => {
            &&& figured(math, b.0, cfg, b.2, f.quote.figures)
            &&& rest_reads_as(b.0, cfg, maker, now, b.2, f.quote, b.1)
        },
    }
}

/// A strategy as the engine sees it.
pub trait StrategyCoreApi {
    /// What an event does, with whatever figures `math` works out. `None` where a figure does not
    /// fit; the state is then not one to go on with.
    fn on_event<M: SpreadMath>(
        &mut self,
        now: Ts,
        ev: &Event,
        math: &M,
        out: &mut Vec<Action>,
    ) -> Option<()>;

    /// What the strategy shows of itself.
    fn snapshot(&self) -> StateSnapshot;
}

#[derive(Debug)]
pub struct StrategyCore {
    pub cfg: StrategyConfig,
    pub maker: Instrument,
    pub state: CoreState,
}

impl StrategyCore {
    pub fn new(cfg: StrategyConfig, maker: Instrument) -> (r: Self)
        ensures
            r.cfg == cfg,
            r.maker == maker,
            r.state@ == StateV::fresh(
                cfg.pricing.spread_window_ms,
                cfg.pricing.bucket_ms,
                cfg.market.fx,
            ),
    {
        let state = CoreState::new(
            cfg.pricing.spread_window_ms,
            cfg.pricing.bucket_ms,
            cfg.market.fx,
        );
        StrategyCore { cfg, maker, state }
    }

    pub fn replace_config(&mut self, cfg: StrategyConfig)
        ensures
            final(self).cfg == cfg,
            final(self).maker == old(self).maker,
            final(self).state@ == (StateV { fx: cfg.market.fx, ..old(self).state@ }),
    {
        self.state.fx = cfg.market.fx;
        self.cfg = cfg;
    }

    /// Takes an event in and looks at prices. `None` where a figure does not fit; the state is
    /// then not one to go on with. Moves and spreads that are no integers are compared as the
    /// doubles that they are read as, whose rounding is left unsaid.
    pub fn begin_event(&mut self, now: Ts, ev: &Event, out: &mut Vec<Action>) -> (r: Option<Step>)
        ensures
            final(self).cfg == old(self).cfg,
            final(self).maker == old(self).maker,
            exists|p: PriceDoubles|
                #![trigger begun(old(self).state@, old(self).cfg, now, *ev, p, asked(old(out)@))]
                {
                    &&& event_reads_as(
                        old(self).state@,
                        old(self).cfg,
                        now,
                        *ev,
                        p,
                        asked(old(out)@),
                    )
                    &&& match r {
                        Some(step) => begun(
                            old(self).state@,
                            old(self).cfg,
                            now,
                            *ev,
                            p,
                            asked(old(out)@),
                        ) == Some((final(self).state@, asked(final(out)@), step)),
                        None => begun(
                            old(self).state@,
                            old(self).cfg,
                            now,
                            *ev,
                            p,
                            asked(old(out)@),
                        ) is None,
                    }
                },
    {
        self.begin(now, ev, out).0
    }

    /// Takes an event in and looks at prices, and says what those were read as.
    fn begin(&mut self, now: Ts, ev: &Event, out: &mut Vec<Action>) -> (r: (
        Option<Step>,
        Ghost<PriceDoubles>,
    ))
        ensures
            final(self).cfg == old(self).cfg,
            final(self).maker == old(self).maker,
            event_reads_as(old(self).state@, old(self).cfg, now, *ev, r.1@, asked(old(out)@)),
            match r.0 {
                Some(step) => begun(
                    old(self).state@,
                    old(self).cfg,
                    now,
                    *ev,
                    r.1@,
                    asked(old(out)@),
                ) == Some((final(self).state@, asked(final(out)@), step)),
                None => begun(
                    old(self).state@,
                    old(self).cfg,
                    now,
                    *ev,
                    r.1@,
                    asked(old(out)@),
                ) is None,
            },
    {
        let none = PriceDoubles { moved: 0, limit: 0, spread: 0 };
        if apply_event(&mut self.state, &self.cfg, now, ev, out).is_none() {
            return (None, Ghost(none));
        }
        let idle = match self.state.lifecycle {
            StrategyMode::Stopped | StrategyMode::Init => true,
            _ => false,
        };
        let starts = match ev {
            Event::Control(cmd) => match cmd {
                ControlCmd::Start => true,
                _ => false,
            },
            _ => false,
        };
        if idle && !starts {
            return (Some(Step { proceed: false, norm: None, sampled: false }), Ghost(none));
        }
        if expire_pending(&mut self.state, now).is_none() {
            return (None, Ghost(none));
        }
        let p = read_prices(&self.state, &self.cfg);
        match look_at_prices(&mut self.state, &self.cfg, now, &p) {
            Some((norm, sampled)) => (Some(Step { proceed: true, norm, sampled }), Ghost(p)),
            None => (None, Ghost(p)),
        }
    }

    /// Does the rest of an event with the figures that were worked out in doubles. `None` where a
    /// figure does not fit; the state is then not one to go on with. Losses, distances and
    /// thresholds that are no integers are compared as the doubles that they are read as, whose
    /// rounding is left unsaid.
    pub fn finish_event(
        &mut self,
        now: Ts,
        step: Step,
        figures: &SpreadFigures,
        out: &mut Vec<Action>,
    ) -> (r: Option<()>)
        ensures
            final(self).cfg == old(self).cfg,
            final(self).maker == old(self).maker,
            exists|q: QuoteDoubles|
                #![trigger finished(
                    old(self).state@,
                    old(self).cfg,
                    old(self).maker,
                    now,
                    step,
                    q,
                    asked(old(out)@),
                )]
                {
                    &&& q.figures == *figures
                    &&& rest_reads_as(
                        old(self).state@,
                        old(self).cfg,
                        old(self).maker,
                        now,
                        step,
                        q,
                        asked(old(out)@),
                    )
                    &&& finished(
                        old(self).state@,
                        old(self).cfg,
                        old(self).maker,
                        now,
                        step,
                        q,
                        asked(old(out)@),
                    ) == (match r {
                        Some(_) => Some((final(self).state@, asked(final(out)@))),
                        None => None,
                    })
                },
    {
        self.finish(now, step, figures, out).0
    }

    /// Sets the fair price, moves lots on and works out what may be quoted, and says what the losses of
    /// lots were read as.
    fn prepare(
        &mut self,
        now: Ts,
        step: Step,
        figures: &SpreadFigures,
        max_loss: u64,
        most: u64,
        out: &mut Vec<Action>,
    ) -> (r: (Option<()>, Ghost<Seq<Option<u64>>>))
        ensures
            final(self).cfg == old(self).cfg,
            final(self).maker == old(self).maker,
            fair_multiplies(old(self).state@, step.norm, step.sampled, *figures),
            fair_set(old(self).state@, step.norm, step.sampled, *figures) matches Some(priced)
                ==> losses_read_as(priced.lots, priced.last_fair, r.1@),
            forall|q: QuoteDoubles|
                q.figures == *figures && q.losses == r.1@ && q.max_loss == max_loss && q.most == most
                    ==> #[trigger] before_quoting(
                    old(self).state@,
                    old(self).cfg,
                    old(self).maker,
                    now,
                    step,
                    q,
                    asked(old(out)@),
                ) == (match r.0 {
                    Some(_) => Some((final(self).state@, asked(final(out)@))),
                    None => None,
                }),
    {
        if set_fair(&mut self.state, step.norm, step.sampled, figures).is_none() {
            return (None, Ghost(Seq::empty()));
        }
        let losses = read_losses(&self.state.lots, self.state.last_fair);
        if advance_exits(&mut self.state, &losses, max_loss, now, out).is_none() {
            return (None, Ghost(losses@));
        }
        let permission = match evaluate(
            &self.cfg,
            &self.state,
            &self.maker,
            now,
            figures.gap,
            figures.band,
            most,
        ) {
            Some(p) => p,
            None => {
                return (None, Ghost(losses@));
            },
        };
        self.state.permission = permission;
        sync_lifecycle(&mut self.state);
        (Some(()), Ghost(losses@))
    }

    /// Does the rest of an event, and says what decimals were read as.
    fn finish(
        &mut self,
        now: Ts,
        step: Step,
        figures: &SpreadFigures,
        out: &mut Vec<Action>,
    ) -> (r: (Option<()>, Ghost<QuoteDoubles>))
        ensures
            final(self).cfg == old(self).cfg,
            final(self).maker == old(self).maker,
            r.1@.figures == *figures,
            rest_reads_as(
                old(self).state@,
                old(self).cfg,
                old(self).maker,
                now,
                step,
                r.1@,
                asked(old(out)@),
            ),
            finished(
                old(self).state@,
                old(self).cfg,
                old(self).maker,
                now,
                step,
                r.1@,
                asked(old(out)@),
            ) == (match r.0 {
                Some(_) => Some((final(self).state@, asked(final(out)@))),
                None => None,
            }),
    {
        let max_loss = self.cfg.exit.max_loss.as_double();
        let requote = self.cfg.pricing.requote_threshold.as_double();
        let most = match self.cfg.risk.max_abs_spread_dev {
            Some(m) => m.as_double(),
            None => 0,
        };
        if !step.proceed {
            let ghost q = arbitrary::<QuoteDoubles>();
            return (Some(()), Ghost(QuoteDoubles { figures: *figures, ..q }));
        }
        let (ready, Ghost(losses)) = self.prepare(now, step, figures, max_loss, most, out);
        let ghost q = QuoteDoubles {
            figures: *figures,
            losses,
            max_loss,
            most,
            requote,
            gaps: Seq::empty(),
        };
        assert(thresholds_read_as(self.cfg, q));
        if ready.is_none() {
            return (None, Ghost(q));
        }
        let (done, Ghost(gaps)) = quote(
            &mut self.state,
            &self.cfg,
            &self.maker,
            now,
            requote,
            out,
        );
        let ghost q = QuoteDoubles { gaps, ..q };
        assert(thresholds_read_as(self.cfg, q));
        if done.is_none() {
            return (None, Ghost(q));
        }
        let ghost said = asked(out@);
        let a = Action::SetTimer {
            id: TimerId::exit_scan(),
            at: now.saturating_add_millis(EXIT_SCAN_MS),
        };
        out.push(a);
        assert(asked(out@) =~= said.push(a@));
        (Some(()), Ghost(q))
    }

    pub fn set_md_link(&mut self, is_ref: bool, up: bool)
        ensures
            final(self).cfg == old(self).cfg,
            final(self).maker == old(self).maker,
            final(self).state@ == (StateV {
                links: if is_ref {
                    LinkStatus { ref_md: up, ..old(self).state@.links }
                } else {
                    LinkStatus { maker_md: up, ..old(self).state@.links }
                },
                ..old(self).state@
            }),
    {
        if is_ref {
            self.state.links.ref_md = up;
        } else {
            self.state.links.maker_md = up;
        }
    }
}

/// What a list of order ids says.
pub open spec fn ids_of(v: Seq<ClientOrderId>) -> Seq<Seq<char>> {
    v.map_values(|c: ClientOrderId| c@)
}

/// A slot whose outcome was not known, once the venue said which orders are open.
pub open spec fn resolved_slot(s: SlotV, open: Seq<Seq<char>>) -> SlotV {
    if s.state != SlotStateKind::Unknown {
        s
    } else if s.live matches Some(l) && open.contains(l.coid) {
        s.working().accepted()
    } else {
        s.emptied()
    }
}

/// The slots once the venue said which orders are open.
pub open spec fn all_resolved(s: Seq<(SlotKey, SlotV)>, open: Seq<Seq<char>>) -> Seq<
    (SlotKey, SlotV),
> {
    s.map_values(|e: (SlotKey, SlotV)| (e.0, resolved_slot(e.1, open)))
}

/// Some slot holds the order of that id.
pub open spec fn held_in_slot(s: Seq<(SlotKey, SlotV)>, coid: Seq<char>) -> bool {
    exists|i: int| 0 <= i < s.len() && carries((#[trigger] s[i]).1, coid)
}

/// The order is one of the strategy's own, and no slot holds it.
pub open spec fn orphaned(s: Seq<(SlotKey, SlotV)>, id: Seq<char>, coid: Seq<char>) -> bool {
    before_first(coid, '-') == id && !held_in_slot(s, coid)
}

/// The strategy's own orders that no slot holds.
pub open spec fn orphans(s: Seq<(SlotKey, SlotV)>, id: Seq<char>, open: Seq<Seq<char>>) -> Seq<
    Seq<char>,
> {
    open.filter(|c: Seq<char>| orphaned(s, id, c))
}

fn is_open(open: &Vec<ClientOrderId>, coid: &ClientOrderId) -> (r: bool)
    ensures
        r == ids_of(open@).contains(coid@),
{
    let mut i: usize = 0;
    while i < open.len()
        invariant
            i <= open.len(),
            forall|j: int| 0 <= j < i ==> (#[trigger] ids_of(open@)[j]) != coid@,
        decreases open.len() - i,
    {
        if open[i] == *coid {
            assert(ids_of(open@)[i as int] == coid@);
            return true;
        }
        i = i + 1;
    }
    assert(!ids_of(open@).contains(coid@));
    false
}

fn is_held(slots: &SlotMap, coid: &ClientOrderId) -> (r: bool)
    ensures
        r == held_in_slot(slots@, coid@),
{
    let mut i: usize = 0;
    while i < slots.entries.len()
        invariant
            i <= slots.entries.len(),
            forall|j: int| 0 <= j < i ==> !carries((#[trigger] slots@[j]).1, coid@),
        decreases slots.entries.len() - i,
    {
        let found = match &slots.entries[i].slot.live {
            Some(l) => l.coid == *coid,
            None => false,
        };
        if found {
            assert(carries(slots@[i as int].1, coid@));
            return true;
        }
        assert(!carries(slots@[i as int].1, coid@));
        i = i + 1;
    }
    false
}

fn resolve_unknown(state: &mut CoreState, open: &Vec<ClientOrderId>)
    ensures
        final(state)@ == (StateV {
            slots: all_resolved(old(state)@.slots, ids_of(open@)),
            ..old(state)@
        }),
{
    let ghost start = state@;
    let ghost goal = all_resolved(start.slots, ids_of(open@));
    let mut i: usize = 0;
    while i < state.slots.entries.len()
        invariant
            i <= state.slots.entries.len(),
            start == old(state)@,
            goal == all_resolved(start.slots, ids_of(open@)),
            state@.slots.len() == start.slots.len(),
            state@ == (StateV { slots: state@.slots, ..start }),
            forall|j: int| 0 <= j < i ==> #[trigger] state@.slots[j] == goal[j],
            forall|j: int| i <= j < start.slots.len() ==> #[trigger] state@.slots[j]
                == start.slots[j],
        decreases state.slots.entries.len() - i,
    {
        let ghost before = state@.slots;
        assert(before[i as int] == start.slots[i as int]);
        let slot = &mut state.slots.entries[i].slot;
        if slot.state == SlotStateKind::Unknown {
            let found = match &slot.live {
                Some(l) => is_open(open, &l.coid),
                None => false,
            };
            if found {
                slot.set_working();
                slot.note_accepted();
            } else {
                slot.clear();
            }
        }
        assert(state@.slots[i as int] =~= goal[i as int]);
        assert(state@.slots =~= before.update(i as int, goal[i as int]));
        i = i + 1;
    }
    assert(state@.slots =~= goal);
}

impl StrategyCore {
    /// Reconcile the slots against the venue's authoritative open-order list.
    ///
    /// Resolves `Unknown` slots, and returns the client order ids that carry our strategy
    /// prefix but belong to no slot. Those are unreachable by `reconcile`, so without this
    /// sweep they would rest on the book forever, tying up margin.
    pub fn reconcile_open_orders(&mut self, open: &Vec<ClientOrderId>) -> (r: Vec<ClientOrderId>)
        ensures
            final(self).cfg == old(self).cfg,
            final(self).maker == old(self).maker,
            final(self).state@ == (StateV {
                slots: all_resolved(old(self).state@.slots, ids_of(open@)),
                ..old(self).state@
            }),
            ids_of(r@) == orphans(final(self).state@.slots, old(self).cfg.id@, ids_of(open@)),
    {
        resolve_unknown(&mut self.state, open);
        let mut r: Vec<ClientOrderId> = Vec::new();
        let ghost all = ids_of(open@);
        let ghost slots = self.state@.slots;
        let ghost id = self.cfg.id@;
        let ghost p = |c: Seq<char>| orphaned(slots, id, c);
        let mut i: usize = 0;
        assert(ids_of(r@) =~= all.take(0).filter(p)) by {
            reveal(Seq::filter);
        }
        while i < open.len()
            invariant
                i <= open.len(),
                all == ids_of(open@),
                slots == self.state@.slots,
                id == self.cfg.id@,
                p == (|c: Seq<char>| orphaned(slots, id, c)),
                ids_of(r@) == all.take(i as int).filter(p),
            decreases open.len() - i,
        {
            let c = &open[i];
            proof {
                reveal(Seq::filter);
                assert(all.take(i + 1).drop_last() =~= all.take(i as int));
                assert(all.take(i + 1).last() == c@);
            }
            let own = match c.strategy_prefix() {
                Some(prefix) => same_text(&prefix, self.cfg.id.as_str()),
                None => false,
            };
            if own && !is_held(&self.state.slots, c) {
                let ghost before = r@;
                let copy = c.clone();
                r.push(copy);
                assert(ids_of(r@) =~= ids_of(before).push(c@));
            }
            i = i + 1;
        }
        assert(all.take(i as int) =~= all);
        r
    }
}

impl StrategyCoreApi for StrategyCore {
    /// What an event does, with whatever figures `math` works out. `None` where a figure does not
    /// fit; the state is then not one to go on with.
    fn on_event<M: SpreadMath>(
        &mut self,
        now: Ts,
        ev: &Event,
        math: &M,
        out: &mut Vec<Action>,
    ) -> (r: Option<()>)
        ensures
            final(self).cfg == old(self).cfg,
            final(self).maker == old(self).maker,
            exists|f: Doubles|
                #![trigger stepped(
                    old(self).state@,
                    old(self).cfg,
                    old(self).maker,
                    now,
                    *ev,
                    f,
                    asked(old(out)@),
                )]
                {
                    &&& goes_in(
                        *math,
                        old(self).state@,
                        old(self).cfg,
                        old(self).maker,
                        now,
                        *ev,
                        f,
                        asked(old(out)@),
                    )
                    &&& stepped(
                        old(self).state@,
                        old(self).cfg,
                        old(self).maker,
                        now,
                        *ev,
                        f,
                        asked(old(out)@),
                    ) == (match r {
                        Some(_) => Some((final(self).state@, asked(final(out)@))),
                        None => None,
                    })
                },
    {
        let (begun_as, Ghost(price)) = self.begin(now, ev, out);
        let step = match begun_as {
            Some(s) => s,
            None => {
                let ghost f = Doubles { price, quote: arbitrary::<QuoteDoubles>() };
                assert(stepped(
                    old(self).state@,
                    old(self).cfg,
                    old(self).maker,
                    now,
                    *ev,
                    f,
                    asked(old(out)@),
                ) is None);
                return None;
            },
        };
        let figures = math.figures(&self.state, step.sampled, self.cfg.risk.max_spread_dev_k);
        assert(figured(*math, self.state@, self.cfg, step, figures));
        let (r, Ghost(quote)) = self.finish(now, step, &figures, out);
        let ghost f = Doubles { price, quote };
        assert(stepped(
            old(self).state@,
            old(self).cfg,
            old(self).maker,
            now,
            *ev,
            f,
            asked(old(out)@),
        ) == (match r {
            Some(_) => Some((self.state@, asked(out@))),
            None => None,
        }));
        r
    }

    /// What the strategy shows of itself.
    fn snapshot(&self) -> (r: StateSnapshot)
        ensures
            is_snapshot(r, self.cfg, self.state@),
    {
        let mut slots: Vec<SlotView> = Vec::new();
        let mut i: usize = 0;
        while i < self.state.slots.entries.len()
            invariant
                i <= self.state.slots.entries.len(),
                slots@.len() == i,
                forall|j: int|
                    0 <= j < i ==> shows(
                        #[trigger] slots@[j],
                        self.state@.slots[j].0,
                        self.state@.slots[j].1,
                    ),
            decreases self.state.slots.entries.len() - i,
        {
            let e = &self.state.slots.entries[i];
            slots.push(show_slot(e.key, &e.slot));
            i = i + 1;
        }
        let mut lots: Vec<Lot> = Vec::new();
        let mut k: usize = 0;
        while k < self.state.lots.len()
            invariant
                k <= self.state.lots.len(),
                lots@ == self.state.lots@.take(k as int),
            decreases self.state.lots.len() - k,
        {
            lots.push(self.state.lots[k]);
            assert(self.state.lots@.take(k + 1) =~= self.state.lots@.take(k as int).push(
                self.state.lots@[k as int],
            ));
            k = k + 1;
        }
        assert(self.state.lots@.take(k as int) =~= self.state.lots@);
        StateSnapshot {
            strategy_id: self.cfg.id.clone(),
            name: self.cfg.name.clone(),
            lifecycle: self.state.lifecycle,
            run_mode: self.cfg.mode,
            maker_venue: self.cfg.market.maker_venue,
            maker_symbol: self.cfg.market.maker_symbol.clone(),
            ref_venue: self.cfg.market.ref_venue,
            ref_symbol: self.cfg.market.ref_symbol.clone(),
            fair_price: self.state.last_fair,
            natural_spread: self.state.last_natural,
            spread_vol: self.state.last_vol,
            spread_t: self.state.last_spread,
            ref_book: self.state.ref_book.clone(),
            maker_book: self.state.maker_book.clone(),
            permission: self.state.permission.clone(),
            slots,
            lots,
            net_qty: self.state.net_qty,
            links: self.state.links,
            warmup_samples: self.state.window.len(),
            warmup_needed: self.cfg.pricing.min_samples,
            enabled: self.cfg.enabled,
        }
    }
}

/// A snapshot shows the settings and the state of a strategy.
pub open spec fn is_snapshot(r: StateSnapshot, cfg: StrategyConfig, st: StateV) -> bool {
    &&& r.strategy_id == cfg.id
    &&& r.name == cfg.name
    &&& r.lifecycle == st.lifecycle
    &&& r.run_mode == cfg.mode
    &&& r.maker_venue == cfg.market.maker_venue
    &&& r.maker_symbol == cfg.market.maker_symbol
    &&& r.ref_venue == cfg.market.ref_venue
    &&& r.ref_symbol == cfg.market.ref_symbol
    &&& r.fair_price == st.last_fair
    &&& r.natural_spread == st.last_natural
    &&& r.spread_vol == st.last_vol
    &&& r.spread_t == st.last_spread
    &&& r.ref_book == st.ref_book
    &&& r.maker_book == st.maker_book
    &&& r.permission@ == st.permission
    &&& r.slots@.len() == st.slots.len()
    &&& forall|i: int|
        0 <= i < r.slots@.len() ==> shows(
            #[trigger] r.slots@[i],
            st.slots[i].0,
            st.slots[i].1,
        )
    &&& r.lots@ == st.lots
    &&& r.net_qty == st.net_qty
    &&& r.links == st.links
    &&& r.warmup_samples == st.window.samples.len()
    &&& r.warmup_needed == cfg.pricing.min_samples
    &&& r.enabled == cfg.enabled
}

/// What is shown of a slot is what it holds.
pub open spec fn shows(v: SlotView, key: SlotKey, s: SlotV) -> bool {
    &&& v.key == key
    &&& v.state == s.state
    &&& v.side == key.side
    &&& v.desired_px == (match s.desired {
        Some(d) => Some(d.px),
        None => None,
    })
    &&& v.desired_qty == (match s.desired {
        Some(d) => Some(d.qty),
        None => None,
    })
    &&& match s.live {
        Some(l) => {
            &&& v.coid matches Some(c) && c@ == l.coid
            &&& v.px == Some(l.px)
            &&& v.qty == Some(l.qty)
            &&& v.filled_qty == l.filled_qty
        },
        None => v.coid is None && v.px is None && v.qty is None && v.filled_qty == Qty(dec_zero()),
    }
}

fn show_slot(key: SlotKey, slot: &Slot) -> (r: SlotView)
    ensures
        shows(r, key, slot@),
{
    let (desired_px, desired_qty) = match slot.desired {
        Some(d) => (Some(d.px), Some(d.qty)),
        None => (None, None),
    };
    match &slot.live {
        Some(l) => SlotView {
            key,
            state: slot.state,
            coid: Some(l.coid.clone()),
            side: key.side,
            px: Some(l.px),
            qty: Some(l.qty),
            filled_qty: l.filled_qty,
            desired_px,
            desired_qty,
        },
        None => SlotView {
            key,
            state: slot.state,
            coid: None,
            side: key.side,
            px: None,
            qty: None,
            filled_qty: Qty::default(),
            desired_px,
            desired_qty,
        },
    }
}

/// Mark a slot live (recovery).
pub fn seed_live_slot(core: &mut StrategyCore, key: SlotKey, live: LiveOrder)
    ensures
        final(core).cfg == old(core).cfg,
        final(core).maker == old(core).maker,
        final(core).state@ == old(core).state@.put(
            key,
            SlotV {
                state: SlotStateKind::Live,
                live: Some(live@),
                ..slot_at(old(core).state@.slots, key)
            },
        ),
{
    let slot = core.state.slot(key);
    slot.state = SlotStateKind::Live;
    slot.live = Some(live);
}

/// What a lot has lost is read from its price and the fair price: for one that was bought what the fair price lies
/// below its price, for one that was sold what it lies above, over its price.
pub proof fn law_losses_are_those_of_lots(
    lots: Seq<Lot>,
    fair: Px,
    losses: Seq<Option<u64>>,
    i: int,
)
    requires
        losses_read_as(lots, Some(fair), losses),
        0 <= i < lots.len(),
        lots[i].phase != ExitPhase::Closed,
        lots[i].remaining.0.mantissa != 0,
        lots[i].entry_px.0.mantissa != 0,
    ensures
        match (if lots[i].side == Side::Buy {
            decimal_difference(lots[i].entry_px.0, fair.0)
        } else {
            decimal_difference(fair.0, lots[i].entry_px.0)
        }) {
            None => losses[i] is None,
            Some(d) => match decimal_quotient(d, lots[i].entry_px.0) {
                None => losses[i] is None,
                Some(q) => losses[i] matches Some(bits) && reads_as(q, bits),
            },
        },
{
    let l = losses[i];
    assert(loss_reads_as(lots[i].entry_px, fair, lots[i].side, l));
}

} // verus!
