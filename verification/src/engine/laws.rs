//! What holds of the engine round a strategy.
use crate::config::StrategyConfig;
use crate::engine::actor::{
    before_events, dispatched, events_of, heard_from, may_trade, route, routed_from, saved, starting, strays_from,
    told, ActorInput, EffectV,
};
use crate::engine::records::{fill_reported, placed, reported};
use crate::exchange::venue::PrivateMsg;
use crate::strategy::conduct::law_events_are_remembered;
use crate::strategy::machine::Doubles;
use crate::strategy::state::StateV;
use crate::text::before_first;
use crate::types::action::{ActionV, TelemetryV};
use crate::types::decimal::lemma_sign;
use crate::types::event::Event;
use crate::types::ids::{RunMode, TimerId};
use crate::types::instrument::Instrument;
use crate::types::order::{ExecKind, ExecV, OrderRecord};
use crate::types::time::Ts;
use vstd::prelude::*;

verus! {

/// An action asks a venue for something.
pub open spec fn is_request(a: ActionV) -> bool {
    a is Place || a is Cancel || a is Amend || a is CancelAll
}

/// The requests among actions, in their order.
pub open spec fn requests(actions: Seq<ActionV>) -> Seq<ActionV> {
    actions.filter(|a: ActionV| is_request(a))
}

/// What goes out to a venue, in order.
pub open spec fn sent(done: Seq<EffectV>) -> Seq<ActionV>
    decreases done.len(),
{
    if done.len() == 0 {
        Seq::empty()
    } else {
        match done.last() {
            EffectV::Trade(a) => sent(done.drop_last()).push(a),
            _ => sent(done.drop_last()),
        }
    }
}

proof fn lemma_sent_push(done: Seq<EffectV>, e: EffectV)
    ensures
        sent(done.push(e)) == (match e {
            EffectV::Trade(a) => sent(done).push(a),
            _ => sent(done),
        }),
{
    assert(done.push(e).drop_last() =~= done);
}

proof fn lemma_sent_route(done: Seq<EffectV>, a: ActionV, live: bool, sid: Seq<char>, now: Ts)
    ensures
        sent(done + route(a, live, sid, now)) == (if live && is_request(a) {
            sent(done).push(a)
        } else {
            sent(done)
        }),
{
    let r = route(a, live, sid, now);
    if r.len() == 0 {
        assert(done + r =~= done);
    } else if r.len() == 1 {
        assert(done + r =~= done.push(r[0]));
        lemma_sent_push(done, r[0]);
    } else {
        assert(done + r =~= done.push(r[0]).push(r[1]));
        lemma_sent_push(done, r[0]);
        lemma_sent_push(done.push(r[0]), r[1]);
    }
}

proof fn lemma_sent_from(
    actions: Seq<ActionV>,
    i: int,
    live: bool,
    sid: Seq<char>,
    now: Ts,
    acc: Seq<EffectV>,
    before: Seq<ActionV>,
)
    requires
        0 <= i <= actions.len(),
        live ==> sent(acc) == before + requests(actions.take(i)),
        !live ==> sent(acc) == before,
    ensures
        live ==> sent(routed_from(actions, i, live, sid, now, acc)) == before + requests(actions),
        !live ==> sent(routed_from(actions, i, live, sid, now, acc)) == before,
    decreases actions.len() - i,
{
    if i < actions.len() {
        let a = actions[i];
        lemma_sent_route(acc, a, live, sid, now);
        let next = acc + route(a, live, sid, now);
        assert(actions.take(i + 1).drop_last() =~= actions.take(i));
        assert(actions.take(i + 1).last() == a);
        reveal(Seq::filter);
        if live {
            assert(sent(next) =~= before + requests(actions.take(i + 1)));
        }
        lemma_sent_from(actions, i + 1, live, sid, now, next, before);
    } else {
        assert(actions.take(i) =~= actions);
    }
}

/// All that a strategy which trades asks of a venue goes out, in its order and as it is, and nothing else does; of a
/// strategy that does not trade nothing goes out.
pub proof fn law_requests_go_out_as_asked(
    actions: Seq<ActionV>,
    live: bool,
    sid: Seq<char>,
    now: Ts,
    done: Seq<EffectV>,
)
    ensures
        live ==> sent(routed_from(actions, 0, live, sid, now, done)) == sent(done) + requests(actions),
        !live ==> sent(routed_from(actions, 0, live, sid, now, done)) == sent(done),
{
    assert(actions.take(0) =~= Seq::<ActionV>::empty());
    assert(requests(actions.take(0)) =~= Seq::<ActionV>::empty()) by {
        reveal(Seq::filter);
    }
    assert(sent(done) + requests(actions.take(0)) =~= sent(done));
    lemma_sent_from(actions, 0, live, sid, now, done, sent(done));
}

proof fn lemma_routed_keeps(
    actions: Seq<ActionV>,
    i: int,
    live: bool,
    sid: Seq<char>,
    now: Ts,
    acc: Seq<EffectV>,
    e: EffectV,
)
    requires
        0 <= i <= actions.len(),
        acc.contains(e),
    ensures
        routed_from(actions, i, live, sid, now, acc).contains(e),
    decreases actions.len() - i,
{
    if i < actions.len() {
        let next = acc + route(actions[i], live, sid, now);
        let k = choose|k: int| 0 <= k < acc.len() && acc[k] == e;
        assert(next[k] == e);
        lemma_routed_keeps(actions, i + 1, live, sid, now, next, e);
    }
}

/// Every order that a strategy which trades places is recorded as it was asked for, as one that waits; what guards
/// the strategy is logged and every other note goes to the journal, whether it trades or not.
pub proof fn law_what_is_asked_is_recorded(
    actions: Seq<ActionV>,
    i: int,
    k: int,
    live: bool,
    sid: Seq<char>,
    now: Ts,
    acc: Seq<EffectV>,
)
    requires
        0 <= i <= k < actions.len(),
    ensures
        ({
            let r = routed_from(actions, i, live, sid, now, acc);
            match actions[k] {
                ActionV::Place(req) => live ==> exists|e: EffectV| #[trigger]
                    r.contains(e) && (e matches EffectV::SaveOrder(o) && {
                        &&& o.coid == req.coid && o.strategy_id == sid && o.venue == req.venue
                            && o.symbol == req.symbol
                        &&& o.side == req.side && o.px == req.px && o.qty == req.qty && o.reduce_only
                            == req.reduce_only
                        &&& o.filled_qty.0.mantissa == 0 && o.status == "pending"@ && o.exchange_id is None
                        &&& o.created_at == now && o.updated_at == now
                        &&& o.purpose == (if req.reduce_only {
                            "exit"@
                        } else {
                            "grid"@
                        })
                    }),
                ActionV::Emit(TelemetryV::Guard { reason }) => r.contains(EffectV::Log(reason)),
                ActionV::Emit(note) => r.contains(EffectV::Journal(note)),
                _ => true,
            }
        }),
    decreases k - i,
{
    let next = acc + route(actions[i], live, sid, now);
    let r = routed_from(actions, i, live, sid, now, acc);
    assert(r == routed_from(actions, i + 1, live, sid, now, next));
    if i < k {
        law_what_is_asked_is_recorded(actions, i + 1, k, live, sid, now, next);
    } else {
        match actions[k] {
            ActionV::Place(req) => {
                if live {
                    let e = EffectV::SaveOrder(placed(req, sid, now));
                    assert(next[acc.len() as int] == e);
                    lemma_routed_keeps(actions, i + 1, live, sid, now, next, e);
                    assert(r.contains(e) && e is SaveOrder);
                }
            },
            ActionV::Emit(note) => {
                let e = match note {
                    TelemetryV::Guard { reason } => EffectV::Log(reason),
                    _ => EffectV::Journal(note),
                };
                assert(next[acc.len() as int] == e);
                lemma_routed_keeps(actions, i + 1, live, sid, now, next, e);
                assert(r.contains(e));
            },
            _ => {},
        }
    }
}

/// A strategy may trade only where its settings say so and nothing was stopped.
pub proof fn law_only_live_strategies_trade(mode: RunMode, killed: bool)
    ensures
        may_trade(mode, killed) <==> mode == RunMode::Live && !killed,
{
}

/// What a strategy hears of its own symbols is what it is told, as it is.
pub proof fn law_inputs_are_told_as_they_are(cfg: StrategyConfig, input: ActorInput)
    ensures
        ({
            let evs = events_of(cfg, input);
            match input {
                ActorInput::Control(cmd) => evs == seq![Event::Control(cmd)],
                ActorInput::RefBook(b) => b.book.symbol@ == cfg.market.ref_symbol@ ==> evs == seq![
                    Event::RefBook(b),
                ],
                ActorInput::MakerBook(b) => b.book.symbol@ == cfg.market.maker_symbol@ ==> evs == seq![
                    Event::MakerBook(b),
                ],
                ActorInput::Private(PrivateMsg::Exec(e)) => evs == seq![Event::Exec(e)],
                ActorInput::Private(PrivateMsg::Position(p)) => p.symbol@ == cfg.market.maker_symbol@
                    ==> evs == seq![Event::PositionSync(p)],
                ActorInput::Private(PrivateMsg::Link { kind, up }) => evs == seq![
                    Event::Link { venue: cfg.market.maker_venue, kind, up },
                ],
                ActorInput::Outcome(oc) => evs == seq![
                    Event::ReqOutcome { coid: oc.coid, result: oc.result, reason: oc.reason },
                ],
                ActorInput::Tick { ref_book, maker_book, .. } => {
                    &&& evs.len() >= 1 && evs.last() == Event::Timer(TimerId(2))
                    &&& ref_book matches Some(b) ==> evs[0] == Event::RefBook(b)
                    &&& maker_book matches Some(b) ==> evs.len() >= 2 && evs[evs.len() - 2]
                        == Event::MakerBook(b)
                    &&& ref_book is None && maker_book is None ==> evs.len() == 1
                },
            }
        }),
{
}

/// What a report says of an order is recorded, where it names a price, and of a fill, where it names a price and a
/// size above zero.
pub proof fn law_reports_are_recorded(e: ExecV, sid: Seq<char>)
    ensures
        reported(e, sid) is Some <==> e.px is Some,
        reported(e, sid) matches Some(o) ==> {
            &&& o.coid == e.coid && o.strategy_id == sid && o.venue == e.venue && o.symbol == e.symbol
            &&& o.side == e.side && Some(o.px) == e.px && o.filled_qty == e.filled_qty
            &&& e.qty matches Some(q) ==> o.qty == q
            &&& o.exchange_id == e.exchange_id && o.updated_at == e.ts
            &&& o.status == (match e.kind {
                ExecKind::Ack => "live"@,
                ExecKind::AmendAck => "live"@,
                ExecKind::PartialFill => "partial"@,
                ExecKind::Fill => "filled"@,
                ExecKind::Canceled => "canceled"@,
                ExecKind::Expired => "expired"@,
                ExecKind::Reject => "rejected"@,
                ExecKind::AmendReject => "rejected"@,
            })
        },
        fill_reported(e, sid) is Some <==> e.last_px is Some && (e.last_qty matches Some(q)
            && q.0.mantissa > 0),
        fill_reported(e, sid) matches Some(f) ==> {
            &&& f.coid == e.coid && f.strategy_id == sid && f.venue == e.venue && f.symbol == e.symbol
            &&& f.side == e.side && Some(f.px) == e.last_px && Some(f.qty) == e.last_qty && f.ts == e.ts
        },
        reported(e, sid) matches Some(o) ==> saved(e, sid).contains(EffectV::SaveOrder(o)),
        fill_reported(e, sid) matches Some(f) ==> saved(e, sid).contains(EffectV::SaveFill(f)),
{
    if let Some(q) = e.last_qty {
        lemma_sign(q.0);
    }
    let s = saved(e, sid);
    if let Some(o) = reported(e, sid) {
        assert(s[0] == EffectV::SaveOrder(o));
    }
    if let Some(f) = fill_reported(e, sid) {
        assert(s[s.len() - 1] == EffectV::SaveFill(f));
    }
}

proof fn lemma_strays(
    orders: Seq<OrderRecord>,
    cfg: StrategyConfig,
    live: bool,
    i: int,
    acc: Seq<ActionV>,
    a: ActionV,
)
    requires
        0 <= i <= orders.len(),
    ensures
        strays_from(orders, cfg, live, i, acc).contains(a) <==> acc.contains(a) || is_stray_cancel(
            orders,
            cfg,
            live,
            i,
            a,
        ),
    decreases orders.len() - i,
{
    if i < orders.len() {
        let c = ActionV::Cancel {
            coid: orders[i].coid@,
            venue: cfg.market.maker_venue,
            symbol: cfg.market.maker_symbol@,
        };
        let own = before_first(orders[i].coid@, '-') == cfg.id@;
        let next = if live && !own {
            acc.push(c)
        } else {
            acc
        };
        lemma_strays(orders, cfg, live, i + 1, next, a);
        assert(next.contains(a) <==> acc.contains(a) || (live && !own && a == c)) by {
            if acc.contains(a) {
                let k = choose|k: int| 0 <= k < acc.len() && acc[k] == a;
                assert(next[k] == a);
            }
            if live && !own && a == c {
                assert(next[acc.len() as int] == a);
            }
        }
        if live && !own && a == c {
            assert(names_stray(orders[i], cfg, a));
        }
        if is_stray_cancel(orders, cfg, live, i, a) {
            let k = choose|k: int| i <= k < orders.len() && names_stray(#[trigger] orders[k], cfg, a);
            if k > i {
                assert(is_stray_cancel(orders, cfg, live, i + 1, a));
            }
        }
    }
}

/// An action cancels an order that is none of the strategy's own.
pub open spec fn names_stray(o: OrderRecord, cfg: StrategyConfig, a: ActionV) -> bool {
    before_first(o.coid@, '-') != cfg.id@ && a == (ActionV::Cancel {
        coid: o.coid@,
        venue: cfg.market.maker_venue,
        symbol: cfg.market.maker_symbol@,
    })
}

/// An action cancels one of the orders from an index on that is none of the strategy's own.
pub open spec fn is_stray_cancel(
    orders: Seq<OrderRecord>,
    cfg: StrategyConfig,
    live: bool,
    i: int,
    a: ActionV,
) -> bool {
    live && exists|k: int| i <= k < orders.len() && names_stray(#[trigger] orders[k], cfg, a)
}

/// At the start exactly the open orders that are none of the strategy's own are taken back, if it trades.
pub proof fn law_strays_are_taken_back(
    orders: Seq<OrderRecord>,
    cfg: StrategyConfig,
    live: bool,
    a: ActionV,
)
    ensures
        strays_from(orders, cfg, live, 0, Seq::empty()).contains(a) <==> live && exists|k: int|
            0 <= k < orders.len() && names_stray(#[trigger] orders[k], cfg, a),
{
    lemma_strays(orders, cfg, live, 0, Seq::empty(), a);
}

/// After each event the strategy is shown as it is then, last of all that is done; a book that comes in shows that its
/// feed is up.
pub proof fn law_events_are_shown(
    st: StateV,
    cfg: StrategyConfig,
    maker: Instrument,
    live: bool,
    now: Ts,
    ev: Event,
    f: Doubles,
    done: Seq<EffectV>,
)
    requires
        dispatched(st, cfg, maker, live, now, ev, f, done) is Some,
    ensures
        ({
            let (after, r) = dispatched(st, cfg, maker, live, now, ev, f, done)->0;
            &&& r.len() > 0 && r.last() == EffectV::Publish(after)
            &&& ev is RefBook ==> after.links.ref_md
            &&& ev is MakerBook ==> after.links.maker_md
        }),
{
    reveal(told);
    law_events_are_remembered(heard_from(st, ev), cfg, maker, now, ev, f, Seq::empty());
}

/// What a private message reports is recorded before the strategy is told of it, and nothing else is.
pub proof fn law_reports_are_recorded_first(cfg: StrategyConfig, input: ActorInput)
    ensures
        match input {
            ActorInput::Private(PrivateMsg::Exec(e)) => before_events(cfg, input) == saved(e@, cfg.id@),
            _ => before_events(cfg, input).len() == 0,
        },
{
}

/// A strategy starts knowing nothing but which feeds are up.
pub proof fn law_strategies_start_afresh(cfg: StrategyConfig, ref_md: Option<bool>, maker_md: Option<bool>)
    ensures
        ({
            let s = starting(cfg, ref_md, maker_md);
            &&& s.links.ref_md <==> ref_md == Some(true)
            &&& s.links.maker_md <==> maker_md == Some(true)
            &&& !s.links.private && !s.links.trading
            &&& s.fx == cfg.market.fx && s.lots.len() == 0 && s.slots.len() == 0 && s.net_qty.0.mantissa
                == 0 && !s.started
        }),
{
}

} // verus!
