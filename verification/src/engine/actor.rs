//! One strategy at work: what it is told, and what becomes of what it asks for.
use crate::config::StrategyConfig;
use crate::engine::records::{
    exec_fill, exec_record, fill_reported, placed, placed_record, reported,
};
use crate::exchange::venue::{PrivateMsg, ReqOutcome};
use crate::strategy::machine::{
    goes_in, is_snapshot, stepped, Doubles, SpreadMath, StrategyCore, StrategyCoreApi,
};
use crate::strategy::course::{law_only_the_maker_is_asked, well_asked};
use crate::strategy::laws::{law_only_commands_change_course, law_state_stays_sound};
use crate::strategy::state::StateV;
use crate::text::{before_first, same_text};
use crate::types::action::{asked, lemma_asked_push, Action, ActionV, TelemetryEvent, TelemetryV};
use crate::types::book::BookUpdate;
use crate::types::event::{ControlCmd, Event};
use crate::types::ids::{RunMode, StrategyId, StrategyMode, TimerId};
use crate::types::instrument::Instrument;
use crate::types::order::{ExecV, FillRecord, FillV, OrderRecord, OrderRecordV};
use crate::types::position::PositionSnapshot;
use crate::types::snapshot::{LinkStatus, StateSnapshot};
use crate::types::time::Ts;
use vstd::prelude::*;

verus! {

/// What is to be done for a strategy.
#[derive(Debug)]
pub enum Effect {
    /// Send a request to the maker's venue.
    Trade(Action),
    /// Record an order.
    SaveOrder(OrderRecord),
    /// Record a fill.
    SaveFill(FillRecord),
    /// Show an operator why something was held back.
    Log(String),
    /// Keep a note.
    Journal(TelemetryEvent),
    /// Show what the strategy shows of itself.
    Publish(StateSnapshot),
}

/// What is to be done for a strategy; what it shows of itself is its state.
pub enum EffectV {
    Trade(ActionV),
    SaveOrder(OrderRecordV),
    SaveFill(FillV),
    Log(Seq<char>),
    Journal(TelemetryV),
    Publish(StateV),
}

/// An effect does what is to be done.
pub open spec fn does(e: Effect, v: EffectV, cfg: StrategyConfig) -> bool {
    match (e, v) {
        (Effect::Trade(a), EffectV::Trade(b)) => a@ == b,
        (Effect::SaveOrder(a), EffectV::SaveOrder(b)) => a@ == b,
        (Effect::SaveFill(a), EffectV::SaveFill(b)) => a@ == b,
        (Effect::Log(a), EffectV::Log(b)) => a@ == b,
        (Effect::Journal(a), EffectV::Journal(b)) => a@ == b,
        (Effect::Publish(a), EffectV::Publish(b)) => is_snapshot(a, cfg, b),
        _ => false,
    }
}

/// Effects do what is to be done, in order.
pub open spec fn all_done(e: Seq<Effect>, v: Seq<EffectV>, cfg: StrategyConfig) -> bool {
    e.len() == v.len() && forall|i: int| 0 <= i < e.len() ==> does(#[trigger] e[i], v[i], cfg)
}

/// What a strategy is told.
#[derive(Debug)]
pub enum ActorInput {
    Control(ControlCmd),
    RefBook(BookUpdate),
    MakerBook(BookUpdate),
    Private(PrivateMsg),
    Outcome(ReqOutcome),
    /// Time has passed: the last books known, and whether everything is to stop.
    Tick { ref_book: Option<BookUpdate>, maker_book: Option<BookUpdate>, killed: bool },
}

/// What becomes of one thing that a strategy asks for. Requests go out only if it trades; timers are the
/// caller's own.
pub open spec fn route(a: ActionV, live: bool, sid: Seq<char>, now: Ts) -> Seq<EffectV> {
    match a {
        ActionV::Place(req) => if live {
            seq![EffectV::SaveOrder(placed(req, sid, now)), EffectV::Trade(a)]
        } else {
            Seq::empty()
        },
        ActionV::Cancel { .. } | ActionV::Amend { .. } | ActionV::CancelAll { .. } => if live {
            seq![EffectV::Trade(a)]
        } else {
            Seq::empty()
        },
        ActionV::Emit(TelemetryV::Guard { reason }) => seq![EffectV::Log(reason)],
        ActionV::Emit(note) => seq![EffectV::Journal(note)],
        _ => Seq::empty(),
    }
}

/// What becomes of all that a strategy asks for, from an index on.
pub open spec fn routed_from(
    actions: Seq<ActionV>,
    i: int,
    live: bool,
    sid: Seq<char>,
    now: Ts,
    acc: Seq<EffectV>,
) -> Seq<EffectV>
    decreases actions.len() - i,
{
    if i < 0 || i >= actions.len() {
        acc
    } else {
        routed_from(actions, i + 1, live, sid, now, acc + route(actions[i], live, sid, now))
    }
}

/// A book that comes in shows that its feed is up.
pub open spec fn heard_from(st: StateV, ev: Event) -> StateV {
    match ev {
        Event::RefBook(_) => StateV { links: LinkStatus { ref_md: true, ..st.links }, ..st },
        Event::MakerBook(_) => StateV { links: LinkStatus { maker_md: true, ..st.links }, ..st },
        _ => st,
    }
}

/// What an event does to a strategy and what it asks for then, given the doubles that go into it.
#[verifier::opaque]
pub open spec fn told(
    st: StateV,
    cfg: StrategyConfig,
    maker: Instrument,
    now: Ts,
    ev: Event,
    f: Doubles,
) -> Option<(StateV, Seq<ActionV>)> {
    stepped(st, cfg, maker, now, ev, f, Seq::empty())
}

/// The doubles are some that may go into an event.
#[verifier::opaque]
pub open spec fn may_go_in<M: SpreadMath>(
    math: M,
    st: StateV,
    cfg: StrategyConfig,
    maker: Instrument,
    now: Ts,
    ev: Event,
    f: Doubles,
) -> bool {
    goes_in(math, st, cfg, maker, now, ev, f, Seq::empty())
}

/// An event did to a strategy what it does with some doubles that may go into it.
pub open spec fn was_told<M: SpreadMath>(
    math: M,
    st: StateV,
    cfg: StrategyConfig,
    maker: Instrument,
    now: Ts,
    ev: Event,
    after: Option<(StateV, Seq<ActionV>)>,
) -> bool {
    exists|f: Doubles|
        may_go_in(math, st, cfg, maker, now, ev, f) && #[trigger] told(
            st,
            cfg,
            maker,
            now,
            ev,
            f,
        ) == after
}

/// What an event does to a strategy, and what is to be done for it then, given the doubles that go
/// into it.
pub open spec fn dispatched(
    st: StateV,
    cfg: StrategyConfig,
    maker: Instrument,
    live: bool,
    now: Ts,
    ev: Event,
    f: Doubles,
    done: Seq<EffectV>,
) -> Option<(StateV, Seq<EffectV>)> {
    match told(heard_from(st, ev), cfg, maker, now, ev, f) {
        Some((after, actions)) => Some(
            (
                after,
                routed_from(actions, 0, live, cfg.id@, now, done).push(EffectV::Publish(after)),
            ),
        ),
        None => None,
    }
}

/// What the first events do, one after the other.
pub open spec fn ran_to(
    st: StateV,
    cfg: StrategyConfig,
    maker: Instrument,
    live: bool,
    now: Ts,
    evs: Seq<Event>,
    figs: Seq<Doubles>,
    n: int,
    done: Seq<EffectV>,
) -> Option<(StateV, Seq<EffectV>)>
    decreases n,
{
    if n <= 0 {
        Some((st, done))
    } else {
        match ran_to(st, cfg, maker, live, now, evs, figs, n - 1, done) {
            Some((before, so_far)) => dispatched(
                before,
                cfg,
                maker,
                live,
                now,
                evs[n - 1],
                figs[n - 1],
                so_far,
            ),
            None => None,
        }
    }
}

/// The doubles are some that may go into the first events, one after the other.
pub open spec fn all_may_go_in<M: SpreadMath>(
    math: M,
    st: StateV,
    cfg: StrategyConfig,
    maker: Instrument,
    live: bool,
    now: Ts,
    evs: Seq<Event>,
    figs: Seq<Doubles>,
    n: int,
    done: Seq<EffectV>,
) -> bool
    decreases n,
{
    n > 0 ==> {
        &&& all_may_go_in(math, st, cfg, maker, live, now, evs, figs, n - 1, done)
        &&& match ran_to(st, cfg, maker, live, now, evs, figs, n - 1, done) {
            Some((before, _)) => may_go_in(
                math,
                heard_from(before, evs[n - 1]),
                cfg,
                maker,
                now,
                evs[n - 1],
                figs[n - 1],
            ),
            None => true,
        }
    }
}

/// What is recorded of a report.
pub open spec fn saved(e: ExecV, sid: Seq<char>) -> Seq<EffectV> {
    (match reported(e, sid) {
        Some(o) => seq![EffectV::SaveOrder(o)],
        None => Seq::empty(),
    }) + (match fill_reported(e, sid) {
        Some(f) => seq![EffectV::SaveFill(f)],
        None => Seq::empty(),
    })
}

/// The events of a moment at which time has passed: the last books known, and a look at what is to be
/// left.
pub open spec fn tick_events(ref_book: Option<BookUpdate>, maker_book: Option<BookUpdate>) -> Seq<Event> {
    (match ref_book {
        Some(b) => seq![Event::RefBook(b)],
        None => Seq::empty(),
    }) + (match maker_book {
        Some(b) => seq![Event::MakerBook(b)],
        None => Seq::empty(),
    }) + seq![Event::Timer(TimerId(2))]
}

/// The events that an input stands for: those of other symbols than the strategy's own stand for none.
pub open spec fn events_of(cfg: StrategyConfig, input: ActorInput) -> Seq<Event> {
    match input {
        ActorInput::Control(cmd) => seq![Event::Control(cmd)],
        ActorInput::RefBook(b) => if b.book.symbol@ == cfg.market.ref_symbol@ {
            seq![Event::RefBook(b)]
        } else {
            Seq::empty()
        },
        ActorInput::MakerBook(b) => if b.book.symbol@ == cfg.market.maker_symbol@ {
            seq![Event::MakerBook(b)]
        } else {
            Seq::empty()
        },
        ActorInput::Private(PrivateMsg::Exec(e)) => seq![Event::Exec(e)],
        ActorInput::Private(PrivateMsg::Position(p)) => if p.symbol@ == cfg.market.maker_symbol@ {
            seq![Event::PositionSync(p)]
        } else {
            Seq::empty()
        },
        ActorInput::Private(PrivateMsg::Link { kind, up }) => seq![
            Event::Link { venue: cfg.market.maker_venue, kind, up },
        ],
        ActorInput::Outcome(oc) => seq![
            Event::ReqOutcome { coid: oc.coid, result: oc.result, reason: oc.reason },
        ],
        ActorInput::Tick { ref_book, maker_book, .. } => tick_events(ref_book, maker_book),
    }
}

/// What is to be done before the events of an input: reports are recorded.
pub open spec fn before_events(cfg: StrategyConfig, input: ActorInput) -> Seq<EffectV> {
    match input {
        ActorInput::Private(PrivateMsg::Exec(e)) => saved(e@, cfg.id@),
        _ => Seq::empty(),
    }
}

/// Everything is to stop, and the strategy is not on its way out yet.
pub open spec fn must_flatten(st: StateV, input: ActorInput) -> bool {
    input matches ActorInput::Tick { killed, .. } && killed && !st.flatten_requested
}

/// What an input does to a strategy, and what is to be done for it then.
pub open spec fn handled(
    st: StateV,
    cfg: StrategyConfig,
    maker: Instrument,
    live: bool,
    now: Ts,
    input: ActorInput,
    figs: Seq<Doubles>,
    last: Doubles,
) -> Option<(StateV, Seq<EffectV>)> {
    match ran_to(
        st,
        cfg,
        maker,
        live,
        now,
        events_of(cfg, input),
        figs,
        events_of(cfg, input).len() as int,
        before_events(cfg, input),
    ) {
        Some((after, done)) => if must_flatten(after, input) {
            dispatched(
                after,
                cfg,
                maker,
                live,
                now,
                Event::Control(ControlCmd::Flatten),
                last,
                done,
            )
        } else {
            Some((after, done))
        },
        None => None,
    }
}

/// The doubles are some that may go into what an input does.
pub open spec fn may_handle<M: SpreadMath>(
    math: M,
    st: StateV,
    cfg: StrategyConfig,
    maker: Instrument,
    live: bool,
    now: Ts,
    input: ActorInput,
    figs: Seq<Doubles>,
    last: Doubles,
) -> bool {
    let evs = events_of(cfg, input);
    let first = before_events(cfg, input);
    &&& all_may_go_in(math, st, cfg, maker, live, now, evs, figs, evs.len() as int, first)
    &&& match ran_to(st, cfg, maker, live, now, evs, figs, evs.len() as int, first) {
        Some((after, _)) => must_flatten(after, input) ==> may_go_in(
            math,
            after,
            cfg,
            maker,
            now,
            Event::Control(ControlCmd::Flatten),
            last,
        ),
        None => true,
    }
}

/// One strategy at work.
#[derive(Debug)]
pub struct Actor {
    pub core: StrategyCore,
    /// Requests go out to the venue.
    pub live: bool,
}

/// A strategy as it starts: it trades only if its settings say so and nothing was stopped; the feeds are up
/// as far as is known.
pub open spec fn starting(cfg: StrategyConfig, ref_md: Option<bool>, maker_md: Option<bool>) -> StateV {
    let fresh = StateV::fresh(
        cfg.pricing.spread_window_ms,
        cfg.pricing.bucket_ms,
        cfg.market.fx,
    );
    StateV {
        links: LinkStatus {
            ref_md: match ref_md {
                Some(up) => up,
                None => fresh.links.ref_md,
            },
            maker_md: match maker_md {
                Some(up) => up,
                None => fresh.links.maker_md,
            },
            ..fresh.links
        },
        ..fresh
    }
}

/// A strategy may send requests: its settings say so, and nothing was stopped.
pub open spec fn may_trade(mode: RunMode, killed: bool) -> bool {
    mode == RunMode::Live && !killed
}

/// Tells a strategy of an event: what it asks for then. `None` where a figure does not fit.
fn tell<M: SpreadMath>(core: &mut StrategyCore, now: Ts, ev: &Event, math: &M) -> (r: Option<Vec<Action>>)
    ensures
        final(core).cfg == old(core).cfg,
        final(core).maker == old(core).maker,
        was_told(
            *math,
            old(core).state@,
            old(core).cfg,
            old(core).maker,
            now,
            *ev,
            match r {
                Some(v) => Some((final(core).state@, asked(v@))),
                None => None,
            },
        ),
{
    let mut out: Vec<Action> = Vec::new();
    assert(asked(out@) =~= Seq::<ActionV>::empty());
    reveal(told);
    reveal(may_go_in);
    let went = core.on_event(now, ev, math, &mut out);
    let ghost f = choose|f: Doubles|
        goes_in(
            *math,
            old(core).state@,
            old(core).cfg,
            old(core).maker,
            now,
            *ev,
            f,
            Seq::empty(),
        ) && #[trigger] stepped(
            old(core).state@,
            old(core).cfg,
            old(core).maker,
            now,
            *ev,
            f,
            Seq::empty(),
        ) == (match went {
            Some(_) => Some((core.state@, asked(out@))),
            None => None,
        });
    assert(may_go_in(*math, old(core).state@, old(core).cfg, old(core).maker, now, *ev, f));
    assert(told(old(core).state@, old(core).cfg, old(core).maker, now, *ev, f) == (match went {
        Some(_) => Some((core.state@, asked(out@))),
        None => None,
    }));
    match went {
        Some(_) => Some(out),
        None => None,
    }
}

/// What an event does to a strategy, and what is to be done for it then, with some
/// doubles that may go into it.
pub open spec fn was_dispatched<M: SpreadMath>(
    math: M,
    st: StateV,
    cfg: StrategyConfig,
    maker: Instrument,
    live: bool,
    now: Ts,
    ev: Event,
    done: Seq<EffectV>,
    f: Doubles,
    after: Option<StateV>,
    fx: Seq<Effect>,
) -> bool {
    &&& may_go_in(math, heard_from(st, ev), cfg, maker, now, ev, f)
    &&& match dispatched(st, cfg, maker, live, now, ev, f, done) {
        Some((s, more)) => after == Some(s) && all_done(fx, more, cfg),
        None => after is None,
    }
}

/// The state that a step led to, if it could be taken.
pub open spec fn went_to(r: Option<()>, st: StateV) -> Option<StateV> {
    match r {
        Some(_) => Some(st),
        None => None,
    }
}

/// Routes all that a strategy asks for.
fn route_all(
    actions: Vec<Action>,
    live: bool,
    sid: &StrategyId,
    now: Ts,
    out: &mut Vec<Effect>,
    done: Ghost<Seq<EffectV>>,
    cfg: Ghost<StrategyConfig>,
)
    requires
        all_done(old(out)@, done@, cfg@),
    ensures
        all_done(
            final(out)@,
            routed_from(asked(actions@), 0, live, sid@, now, done@),
            cfg@,
        ),
{
    let ghost all = asked(actions@);
    let mut rest = actions;
    let mut acc: Ghost<Seq<EffectV>> = Ghost(done@);
    let ghost goal = routed_from(all, 0, live, sid@, now, done@);
    let mut k: Ghost<int> = Ghost(0);
    assert(all.skip(0) =~= all);
    while rest.len() > 0
        invariant
            0 <= k@ <= all.len(),
            asked(rest@) == all.skip(k@),
            goal == routed_from(all, 0, live, sid@, now, done@),
            goal == routed_from(all, k@, live, sid@, now, acc@),
            all_done(out@, acc@, cfg@),
        decreases rest@.len(),
    {
        let ghost was = rest@;
        assert(asked(was).len() == was.len());
        let a = rest.remove(0);
        proof {
            assert(asked(was)[0] == a@);
            assert(all.skip(k@).len() > 0);
            assert(all.skip(k@)[0] == all[k@]);
            assert(asked(rest@) =~= asked(was).skip(1));
            assert(all.skip(k@).skip(1) =~= all.skip(k@ + 1));
        }
        let ghost more = route(a@, live, sid@, now);
        route_action(a, live, sid, now, out, acc, cfg);
        proof {
            acc@ = acc@ + more;
            k@ = k@ + 1;
        }
    }
    assert(asked(rest@).len() == 0);
    assert(k@ == all.len());
}

/// The events that an input stands for, what is to be done before them, and whether everything is to stop.
fn take_input(cfg: &StrategyConfig, input: ActorInput) -> (r: (Vec<Event>, Vec<Effect>, bool))
    ensures
        r.0@ == events_of(*cfg, input),
        all_done(r.1@, before_events(*cfg, input), *cfg),
        r.2 == (input matches ActorInput::Tick { killed, .. } && killed),
{
    let mut out: Vec<Effect> = Vec::new();
    let mut flatten = false;
    let mut events: Vec<Event> = Vec::new();
    match input {
        ActorInput::Control(cmd) => {
            events.push(Event::Control(cmd));
        },
        ActorInput::RefBook(b) => {
            if same_text(b.book.symbol.as_str(), cfg.market.ref_symbol.as_str()) {
                events.push(Event::RefBook(b));
            }
        },
        ActorInput::MakerBook(b) => {
            if same_text(b.book.symbol.as_str(), cfg.market.maker_symbol.as_str()) {
                events.push(Event::MakerBook(b));
            }
        },
        ActorInput::Private(msg) => match msg {
            PrivateMsg::Exec(e) => {
                match exec_record(&e, &cfg.id) {
                    Some(o) => {
                        out.push(Effect::SaveOrder(o));
                    },
                    None => {},
                }
                match exec_fill(&e, &cfg.id) {
                    Some(f) => {
                        out.push(Effect::SaveFill(f));
                    },
                    None => {},
                }
                events.push(Event::Exec(e));
            },
            PrivateMsg::Position(p) => {
                if same_text(p.symbol.as_str(), cfg.market.maker_symbol.as_str()) {
                    events.push(Event::PositionSync(p));
                }
            },
            PrivateMsg::Link { kind, up } => {
                events.push(Event::Link { venue: cfg.market.maker_venue, kind, up });
            },
        },
        ActorInput::Outcome(oc) => {
            events.push(Event::ReqOutcome { coid: oc.coid, result: oc.result, reason: oc.reason });
        },
        ActorInput::Tick { ref_book, maker_book, killed } => {
            match ref_book {
                Some(b) => {
                    events.push(Event::RefBook(b));
                },
                None => {},
            }
            match maker_book {
                Some(b) => {
                    events.push(Event::MakerBook(b));
                },
                None => {},
            }
            events.push(Event::Timer(TimerId::exit_scan()));
            flatten = killed;
        },
    }
    assert(events@ =~= events_of(*cfg, input));
    (events, out, flatten)
}

impl Actor {
    /// A strategy as it starts. `None` where a figure does not fit.
    pub fn start<M: SpreadMath>(
        cfg: StrategyConfig,
        inst: Instrument,
        killed: bool,
        ref_md: Option<bool>,
        maker_md: Option<bool>,
        now: Ts,
        math: &M,
    ) -> (r: Option<Actor>)
        ensures
            match r {
                Some(a) => {
                    &&& a.core.cfg == cfg
                    &&& a.core.maker == inst
                    &&& a.live == may_trade(cfg.mode, killed)
                    &&& exists|asked_for: Seq<ActionV>| #[trigger]
                        was_told(
                            *math,
                            starting(cfg, ref_md, maker_md),
                            cfg,
                            inst,
                            now,
                            Event::Control(ControlCmd::Start),
                            Some((a.core.state@, asked_for)),
                        )
                },
                None => was_told(
                    *math,
                    starting(cfg, ref_md, maker_md),
                    cfg,
                    inst,
                    now,
                    Event::Control(ControlCmd::Start),
                    None,
                ),
            },
    {
        let live = match cfg.mode {
            RunMode::Live => !killed,
            _ => false,
        };
        let mut core = StrategyCore::new(cfg, inst);
        match ref_md {
            Some(up) => {
                core.set_md_link(true, up);
            },
            None => {},
        }
        match maker_md {
            Some(up) => {
                core.set_md_link(false, up);
            },
            None => {},
        }
        assert(core.state@ == starting(cfg, ref_md, maker_md));
        let _ = tell(&mut core, now, &Event::Control(ControlCmd::Start), math)?;
        Some(Actor { core, live })
    }

    /// Takes in a position that the venue reports at the start; what the strategy asks for is not carried
    /// out. `None` where a figure does not fit.
    pub fn sync_position<M: SpreadMath>(
        &mut self,
        now: Ts,
        p: PositionSnapshot,
        math: &M,
    ) -> (r: Option<()>)
        ensures
            final(self).core.cfg == old(self).core.cfg,
            final(self).core.maker == old(self).core.maker,
            final(self).live == old(self).live,
            if p.symbol@ == old(self).core.cfg.market.maker_symbol@ {
                match r {
                    Some(_) => exists|asked_for: Seq<ActionV>| #[trigger]
                        was_told(
                            *math,
                            old(self).core.state@,
                            old(self).core.cfg,
                            old(self).core.maker,
                            now,
                            Event::PositionSync(p),
                            Some((final(self).core.state@, asked_for)),
                        ),
                    None => was_told(
                        *math,
                        old(self).core.state@,
                        old(self).core.cfg,
                        old(self).core.maker,
                        now,
                        Event::PositionSync(p),
                        None,
                    ),
                }
            } else {
                r is Some && final(self).core.state@ == old(self).core.state@
            },
    {
        if !same_text(p.symbol.as_str(), self.core.cfg.market.maker_symbol.as_str()) {
            return Some(());
        }
        let _ = tell(&mut self.core, now, &Event::PositionSync(p), math)?;
        Some(())
    }

    /// One event: what the strategy asks for is routed, and what it shows of itself is published.
    fn dispatch<M: SpreadMath>(
        &mut self,
        now: Ts,
        ev: &Event,
        math: &M,
        out: &mut Vec<Effect>,
        done: Ghost<Seq<EffectV>>,
    ) -> (r: Option<()>)
        requires
            all_done(old(out)@, done@, old(self).core.cfg),
        ensures
            final(self).core.cfg == old(self).core.cfg,
            final(self).core.maker == old(self).core.maker,
            final(self).live == old(self).live,
            exists|f: Doubles| #[trigger]
                was_dispatched(
                    *math,
                    old(self).core.state@,
                    old(self).core.cfg,
                    old(self).core.maker,
                    old(self).live,
                    now,
                    *ev,
                    done@,
                    f,
                    went_to(r, final(self).core.state@),
                    final(out)@,
                ),
    {
        let ghost st0 = self.core.state@;
        let ghost cfg = self.core.cfg;
        let ghost maker = self.core.maker;
        let ghost live = self.live;
        match ev {
            Event::RefBook(_) => {
                self.core.set_md_link(true, true);
            },
            Event::MakerBook(_) => {
                self.core.set_md_link(false, true);
            },
            _ => {},
        }
        assert(self.core.state@ == heard_from(st0, *ev));
        let answer = tell(&mut self.core, now, ev, math);
        match answer {
            Some(actions) => {
                let ghost all = asked(actions@);
                let ghost f = choose|f: Doubles|
                    may_go_in(*math, heard_from(st0, *ev), cfg, maker, now, *ev, f)
                        && #[trigger] told(heard_from(st0, *ev), cfg, maker, now, *ev, f) == Some(
                        (self.core.state@, all),
                    );
                route_all(actions, self.live, &self.core.cfg.id, now, out, done, Ghost(cfg));
                let snap = self.core.snapshot();
                out.push(Effect::Publish(snap));
                assert(was_dispatched(
                    *math,
                    st0,
                    cfg,
                    maker,
                    live,
                    now,
                    *ev,
                    done@,
                    f,
                    Some(self.core.state@),
                    out@,
                ));
                Some(())
            },
            None => {
                let ghost f = choose|f: Doubles|
                    may_go_in(*math, heard_from(st0, *ev), cfg, maker, now, *ev, f)
                        && #[trigger] told(heard_from(st0, *ev), cfg, maker, now, *ev, f) is None;
                assert(was_dispatched(*math, st0, cfg, maker, live, now, *ev, done@, f, None, out@));
                None
            },
        }
    }

    /// What the strategy is told, and what is to be done for it then. `None` where a figure does not fit;
    /// the strategy is then not one to go on with.
    pub fn on_input<M: SpreadMath>(&mut self, now: Ts, input: ActorInput, math: &M) -> (r: Option<
        Vec<Effect>,
    >)
        ensures
            final(self).core.cfg == old(self).core.cfg,
            final(self).core.maker == old(self).core.maker,
            final(self).live == old(self).live,
            exists|figs: Seq<Doubles>, last: Doubles|
                {
                    let h = #[trigger] handled(
                        old(self).core.state@,
                        old(self).core.cfg,
                        old(self).core.maker,
                        old(self).live,
                        now,
                        input,
                        figs,
                        last,
                    );
                    &&& may_handle(
                        *math,
                        old(self).core.state@,
                        old(self).core.cfg,
                        old(self).core.maker,
                        old(self).live,
                        now,
                        input,
                        figs,
                        last,
                    )
                    &&& match r {
                        Some(fx) => h matches Some((st, done)) && st == final(self).core.state@
                            && all_done(fx@, done, old(self).core.cfg),
                        None => h is None,
                    }
                },
    {
        let ghost st0 = self.core.state@;
        let ghost cfg = self.core.cfg;
        let ghost maker = self.core.maker;
        let ghost live = self.live;
        let ghost first = before_events(cfg, input);
        let ghost evs = events_of(cfg, input);
        let (events, effects, flatten) = take_input(&self.core.cfg, input);
        let mut out = effects;
        let mut figs: Ghost<Seq<Doubles>> = Ghost(Seq::empty());
        let mut done: Ghost<Seq<EffectV>> = Ghost(first);
        let mut i: usize = 0;
        while i < events.len()
            invariant
                i <= events@.len(),
                events@ == evs,
                evs == events_of(cfg, input),
                first == before_events(cfg, input),
                st0 == old(self).core.state@,
                cfg == old(self).core.cfg,
                maker == old(self).core.maker,
                live == old(self).live,
                figs@.len() == i,
                self.core.cfg == cfg,
                self.core.maker == maker,
                self.live == live,
                all_done(out@, done@, cfg),
                ran_to(st0, cfg, maker, live, now, evs, figs@, i as int, first) == Some(
                    (self.core.state@, done@),
                ),
                all_may_go_in(*math, st0, cfg, maker, live, now, evs, figs@, i as int, first),
            decreases events@.len() - i,
        {
            let ghost before = self.core.state@;
            let went = self.dispatch(now, &events[i], math, &mut out, done);
            let ghost after = went_to(went, self.core.state@);
            let ghost f = choose|f: Doubles| #[trigger]
                was_dispatched(
                    *math,
                    before,
                    cfg,
                    maker,
                    live,
                    now,
                    evs[i as int],
                    done@,
                    f,
                    after,
                    out@,
                );
            let ghost d = dispatched(before, cfg, maker, live, now, evs[i as int], f, done@);
            let ghost next = figs@.push(f);
            proof {
                lemma_ran_to_prefix(
                    *math,
                    st0,
                    cfg,
                    maker,
                    live,
                    now,
                    evs,
                    figs@,
                    next,
                    i as int,
                    first,
                );
                assert(next[i as int] == f);
                assert(ran_to(st0, cfg, maker, live, now, evs, next, i + 1, first) == d);
                assert(all_may_go_in(
                    *math,
                    st0,
                    cfg,
                    maker,
                    live,
                    now,
                    evs,
                    next,
                    i + 1,
                    first,
                ));
            }
            if went.is_none() {
                proof {
                    lemma_ran_to_none(
                        *math,
                        st0,
                        cfg,
                        maker,
                        live,
                        now,
                        evs,
                        next,
                        i + 1,
                        evs.len() as int,
                        first,
                    );
                    assert(handled(st0, cfg, maker, live, now, input, next, f) is None);
                }
                return None;
            }
            proof {
                figs@ = next;
                done@ = (d->0).1;
            }
            i = i + 1;
        }
        if flatten && !self.core.state.flatten_requested {
            let ghost before = self.core.state@;
            let ev = Event::Control(ControlCmd::Flatten);
            let went = self.dispatch(now, &ev, math, &mut out, done);
            let ghost after = went_to(went, self.core.state@);
            let ghost f = choose|f: Doubles| #[trigger]
                was_dispatched(*math, before, cfg, maker, live, now, ev, done@, f, after, out@);
            assert(handled(st0, cfg, maker, live, now, input, figs@, f) == dispatched(
                before,
                cfg,
                maker,
                live,
                now,
                ev,
                f,
                done@,
            ));
            if went.is_none() {
                return None;
            }
            return Some(out);
        }
        let ghost f = arbitrary::<Doubles>();
        assert(handled(st0, cfg, maker, live, now, input, figs@, f) == Some(
            (self.core.state@, done@),
        ));
        Some(out)
    }

    /// Whether the strategy is to end with the command that it was just given.
    pub fn is_over(&self) -> (r: bool)
        ensures
            r == (self.core.state@.lifecycle == StrategyMode::Stopped),
    {
        match self.core.state.lifecycle {
            StrategyMode::Stopped => true,
            _ => false,
        }
    }
}

/// The first events do the same, whatever figures come after theirs.
proof fn lemma_ran_to_prefix<M: SpreadMath>(
    math: M,
    st: StateV,
    cfg: StrategyConfig,
    maker: Instrument,
    live: bool,
    now: Ts,
    evs: Seq<Event>,
    a: Seq<Doubles>,
    b: Seq<Doubles>,
    n: int,
    done: Seq<EffectV>,
)
    requires
        n <= a.len(),
        n <= b.len(),
        forall|i: int| 0 <= i < n ==> #[trigger] a[i] == b[i],
    ensures
        ran_to(st, cfg, maker, live, now, evs, a, n, done) == ran_to(
            st,
            cfg,
            maker,
            live,
            now,
            evs,
            b,
            n,
            done,
        ),
        all_may_go_in(math, st, cfg, maker, live, now, evs, a, n, done) == all_may_go_in(
            math,
            st,
            cfg,
            maker,
            live,
            now,
            evs,
            b,
            n,
            done,
        ),
    decreases n,
{
    if n > 0 {
        lemma_ran_to_prefix(math, st, cfg, maker, live, now, evs, a, b, n - 1, done);
        assert(a[n - 1] == b[n - 1]);
    }
}

/// Once a figure did not fit, nothing goes on.
proof fn lemma_ran_to_none<M: SpreadMath>(
    math: M,
    st: StateV,
    cfg: StrategyConfig,
    maker: Instrument,
    live: bool,
    now: Ts,
    evs: Seq<Event>,
    figs: Seq<Doubles>,
    n: int,
    to: int,
    done: Seq<EffectV>,
)
    requires
        0 <= n <= to,
        ran_to(st, cfg, maker, live, now, evs, figs, n, done) is None,
        all_may_go_in(math, st, cfg, maker, live, now, evs, figs, n, done),
    ensures
        ran_to(st, cfg, maker, live, now, evs, figs, to, done) is None,
        all_may_go_in(math, st, cfg, maker, live, now, evs, figs, to, done),
    decreases to - n,
{
    if n < to {
        lemma_ran_to_none(math, st, cfg, maker, live, now, evs, figs, n, to - 1, done);
    }
}

/// What becomes of one thing that a strategy asks for.
fn route_action(
    a: Action,
    live: bool,
    sid: &StrategyId,
    now: Ts,
    out: &mut Vec<Effect>,
    done: Ghost<Seq<EffectV>>,
    cfg: Ghost<StrategyConfig>,
)
    requires
        all_done(old(out)@, done@, cfg@),
    ensures
        all_done(final(out)@, done@ + route(a@, live, sid@, now), cfg@),
{
    match a {
        Action::Place(req) => {
            if live {
                out.push(Effect::SaveOrder(placed_record(&req, sid, now)));
                out.push(Effect::Trade(Action::Place(req)));
            }
        },
        Action::Cancel { coid, venue, symbol } => {
            if live {
                out.push(Effect::Trade(Action::Cancel { coid, venue, symbol }));
            }
        },
        Action::Amend { coid, venue, symbol, px, qty } => {
            if live {
                out.push(Effect::Trade(Action::Amend { coid, venue, symbol, px, qty }));
            }
        },
        Action::CancelAll { venue, symbol } => {
            if live {
                out.push(Effect::Trade(Action::CancelAll { venue, symbol }));
            }
        },
        Action::Emit(note) => match note {
            TelemetryEvent::Guard { reason } => {
                out.push(Effect::Log(reason));
            },
            TelemetryEvent::Fair { px, spread, vol } => {
                out.push(Effect::Journal(TelemetryEvent::Fair { px, spread, vol }));
            },
            TelemetryEvent::Jump { prev, next } => {
                out.push(Effect::Journal(TelemetryEvent::Jump { prev, next }));
            },
            TelemetryEvent::Info { msg } => {
                out.push(Effect::Journal(TelemetryEvent::Info { msg }));
            },
        },
        Action::SetTimer { .. } => {},
        Action::ClearTimer(_) => {},
    }
}

/// Orders of others than the strategy, which it cannot have left, are to be taken back, if it trades.
pub open spec fn stray_cancel(
    coid: Seq<char>,
    cfg: StrategyConfig,
    live: bool,
) -> Option<ActionV> {
    if live && before_first(coid, '-') != cfg.id@ {
        Some(
            ActionV::Cancel {
                coid,
                venue: cfg.market.maker_venue,
                symbol: cfg.market.maker_symbol@,
            },
        )
    } else {
        None
    }
}

/// What is to be taken back of open orders, from an index on.
pub open spec fn strays_from(
    orders: Seq<OrderRecord>,
    cfg: StrategyConfig,
    live: bool,
    i: int,
    acc: Seq<ActionV>,
) -> Seq<ActionV>
    decreases orders.len() - i,
{
    if i < 0 || i >= orders.len() {
        acc
    } else {
        strays_from(
            orders,
            cfg,
            live,
            i + 1,
            match stray_cancel(orders[i].coid@, cfg, live) {
                Some(a) => acc.push(a),
                None => acc,
            },
        )
    }
}

impl Actor {
    /// What is to be taken back of the orders that are open at the start.
    pub fn stray_cancels(&self, orders: &Vec<OrderRecord>) -> (r: Vec<Action>)
        ensures
            asked(r@) == strays_from(orders@, self.core.cfg, self.live, 0, Seq::empty()),
    {
        let mut out: Vec<Action> = Vec::new();
        let ghost goal = strays_from(orders@, self.core.cfg, self.live, 0, Seq::empty());
        assert(asked(out@) =~= Seq::<ActionV>::empty());
        let mut i: usize = 0;
        while i < orders.len()
            invariant
                i <= orders@.len(),
                goal == strays_from(orders@, self.core.cfg, self.live, 0, Seq::empty()),
                goal == strays_from(orders@, self.core.cfg, self.live, i as int, asked(out@)),
            decreases orders@.len() - i,
        {
            let own = match orders[i].coid.strategy_prefix() {
                Some(p) => same_text(p.as_str(), self.core.cfg.id.as_str()),
                None => false,
            };
            if self.live && !own {
                let a = Action::Cancel {
                    coid: orders[i].coid.clone(),
                    venue: self.core.cfg.market.maker_venue,
                    symbol: self.core.cfg.market.maker_symbol.clone(),
                };
                proof {
                    lemma_asked_push(out@, a);
                }
                out.push(a);
            }
            i = i + 1;
        }
        out
    }
}

/// Nothing goes out to a venue.
pub open spec fn sends_nothing(done: Seq<EffectV>) -> bool {
    forall|i: int| 0 <= i < done.len() ==> !((#[trigger] done[i]) is Trade)
}

proof fn lemma_routed_quietly(
    actions: Seq<ActionV>,
    i: int,
    sid: Seq<char>,
    now: Ts,
    acc: Seq<EffectV>,
)
    requires
        0 <= i <= actions.len(),
        sends_nothing(acc),
    ensures
        sends_nothing(routed_from(actions, i, false, sid, now, acc)),
    decreases actions.len() - i,
{
    if i < actions.len() {
        lemma_routed_quietly(actions, i + 1, sid, now, acc + route(actions[i], false, sid, now));
    }
}

proof fn lemma_dispatched_quietly(
    st: StateV,
    cfg: StrategyConfig,
    maker: Instrument,
    now: Ts,
    ev: Event,
    f: Doubles,
    done: Seq<EffectV>,
)
    requires
        sends_nothing(done),
    ensures
        dispatched(st, cfg, maker, false, now, ev, f, done) matches Some((_, more)) ==> sends_nothing(
            more,
        ),
{
    match told(heard_from(st, ev), cfg, maker, now, ev, f) {
        Some((_, actions)) => {
            lemma_routed_quietly(actions, 0, cfg.id@, now, done);
        },
        None => {},
    }
}

proof fn lemma_ran_quietly(
    st: StateV,
    cfg: StrategyConfig,
    maker: Instrument,
    now: Ts,
    evs: Seq<Event>,
    figs: Seq<Doubles>,
    n: int,
    done: Seq<EffectV>,
)
    requires
        sends_nothing(done),
    ensures
        ran_to(st, cfg, maker, false, now, evs, figs, n, done) matches Some((_, more))
            ==> sends_nothing(more),
    decreases n,
{
    if n > 0 {
        lemma_ran_quietly(st, cfg, maker, now, evs, figs, n - 1, done);
        match ran_to(st, cfg, maker, false, now, evs, figs, n - 1, done) {
            Some((before, so_far)) => {
                lemma_dispatched_quietly(before, cfg, maker, now, evs[n - 1], figs[n - 1], so_far);
            },
            None => {},
        }
    }
}

/// A strategy that only observes sends nothing to a venue, whatever it is told; and one that starts while
/// everything is stopped only observes.
pub proof fn law_observer_sends_nothing(
    st: StateV,
    cfg: StrategyConfig,
    maker: Instrument,
    now: Ts,
    input: ActorInput,
    figs: Seq<Doubles>,
    last: Doubles,
)
    ensures
        handled(st, cfg, maker, false, now, input, figs, last) matches Some((_, done))
            ==> sends_nothing(done),
        !may_trade(cfg.mode, true),
        !may_trade(RunMode::Observe, false),
{
    let evs = events_of(cfg, input);
    let first = before_events(cfg, input);
    assert(sends_nothing(first));
    lemma_ran_quietly(st, cfg, maker, now, evs, figs, evs.len() as int, first);
    match ran_to(st, cfg, maker, false, now, evs, figs, evs.len() as int, first) {
        Some((after, done)) => {
            lemma_dispatched_quietly(
                after,
                cfg,
                maker,
                now,
                Event::Control(ControlCmd::Flatten),
                last,
                done,
            );
        },
        None => {},
    }
}

/// Once everything is to stop, the next moment at which time passes puts every strategy on its way out.
pub proof fn law_kill_reaches_everyone(
    st: StateV,
    cfg: StrategyConfig,
    maker: Instrument,
    live: bool,
    now: Ts,
    ref_book: Option<BookUpdate>,
    maker_book: Option<BookUpdate>,
    figs: Seq<Doubles>,
    last: Doubles,
)
    ensures
        handled(
            st,
            cfg,
            maker,
            live,
            now,
            ActorInput::Tick { ref_book, maker_book, killed: true },
            figs,
            last,
        ) matches Some((after, _)) ==> after.flatten_requested,
{
    let input = ActorInput::Tick { ref_book, maker_book, killed: true };
    let evs = events_of(cfg, input);
    match ran_to(
        st,
        cfg,
        maker,
        live,
        now,
        evs,
        figs,
        evs.len() as int,
        before_events(cfg, input),
    ) {
        Some((after, done)) => {
            if must_flatten(after, input) {
                let ev = Event::Control(ControlCmd::Flatten);
                reveal(told);
                law_only_commands_change_course(
                    heard_from(after, ev),
                    cfg,
                    maker,
                    now,
                    ev,
                    last,
                    Seq::empty(),
                );
            }
        },
        None => {},
    }
}

/// What is told of other symbols than its own does nothing to a strategy.
pub proof fn law_other_symbols_do_nothing(
    st: StateV,
    cfg: StrategyConfig,
    maker: Instrument,
    live: bool,
    now: Ts,
    input: ActorInput,
    figs: Seq<Doubles>,
    last: Doubles,
)
    requires
        match input {
            ActorInput::RefBook(b) => b.book.symbol@ != cfg.market.ref_symbol@,
            ActorInput::MakerBook(b) => b.book.symbol@ != cfg.market.maker_symbol@,
            ActorInput::Private(PrivateMsg::Position(p)) => p.symbol@ != cfg.market.maker_symbol@,
            _ => false,
        },
    ensures
        handled(st, cfg, maker, live, now, input, figs, last) == Some((st, Seq::<EffectV>::empty())),
{
}

/// Whatever goes out to a venue goes to the maker's, about the maker's symbol.
pub open spec fn sends_to_maker(done: Seq<EffectV>, cfg: StrategyConfig) -> bool {
    forall|i: int|
        0 <= i < done.len() ==> ((#[trigger] done[i]) matches EffectV::Trade(a) ==> well_asked(
            a,
            cfg,
            None,
        ))
}

proof fn lemma_routed_to_maker(
    actions: Seq<ActionV>,
    i: int,
    live: bool,
    cfg: StrategyConfig,
    now: Ts,
    acc: Seq<EffectV>,
)
    requires
        0 <= i <= actions.len(),
        forall|j: int| 0 <= j < actions.len() ==> well_asked(#[trigger] actions[j], cfg, None),
        sends_to_maker(acc, cfg),
    ensures
        sends_to_maker(routed_from(actions, i, live, cfg.id@, now, acc), cfg),
    decreases actions.len() - i,
{
    if i < actions.len() {
        let r = route(actions[i], live, cfg.id@, now);
        let next = acc + r;
        assert(well_asked(actions[i], cfg, None));
        assert forall|j: int| 0 <= j < next.len() implies ((#[trigger] next[j]) matches EffectV::Trade(
            a,
        ) ==> well_asked(a, cfg, None)) by {
            if j < acc.len() {
                assert(next[j] == acc[j]);
            } else {
                assert(next[j] == r[j - acc.len()]);
            }
        }
        lemma_routed_to_maker(actions, i + 1, live, cfg, now, next);
    }
}

proof fn lemma_dispatched_to_maker(
    st: StateV,
    cfg: StrategyConfig,
    maker: Instrument,
    live: bool,
    now: Ts,
    ev: Event,
    f: Doubles,
    done: Seq<EffectV>,
)
    requires
        st.wf(),
        sends_to_maker(done, cfg),
    ensures
        dispatched(st, cfg, maker, live, now, ev, f, done) matches Some((after, more)) ==> after.wf()
            && sends_to_maker(more, cfg) && more.len() > 0 && more.last() == EffectV::Publish(after),
{
    reveal(told);
    let heard = heard_from(st, ev);
    law_only_the_maker_is_asked(heard, cfg, maker, now, ev, f, Seq::empty());
    law_state_stays_sound(heard, cfg, maker, now, ev, f, Seq::empty());
    match told(heard, cfg, maker, now, ev, f) {
        Some((after, actions)) => {
            lemma_routed_to_maker(actions, 0, live, cfg, now, done);
            let routed = routed_from(actions, 0, live, cfg.id@, now, done);
            let more = routed.push(EffectV::Publish(after));
            assert forall|j: int| 0 <= j < more.len() implies ((
            #[trigger] more[j]) matches EffectV::Trade(a) ==> well_asked(a, cfg, None)) by {
                if j < routed.len() {
                    assert(more[j] == routed[j]);
                }
            }
        },
        None => {},
    }
}

proof fn lemma_ran_to_maker(
    st: StateV,
    cfg: StrategyConfig,
    maker: Instrument,
    live: bool,
    now: Ts,
    evs: Seq<Event>,
    figs: Seq<Doubles>,
    n: int,
    done: Seq<EffectV>,
)
    requires
        st.wf(),
        sends_to_maker(done, cfg),
    ensures
        ran_to(st, cfg, maker, live, now, evs, figs, n, done) matches Some((after, more))
            ==> after.wf() && sends_to_maker(more, cfg) && (n > 0 ==> more.len() > 0 && more.last()
            == EffectV::Publish(after)),
    decreases n,
{
    if n > 0 {
        lemma_ran_to_maker(st, cfg, maker, live, now, evs, figs, n - 1, done);
        match ran_to(st, cfg, maker, live, now, evs, figs, n - 1, done) {
            Some((before, so_far)) => {
                lemma_dispatched_to_maker(
                    before,
                    cfg,
                    maker,
                    live,
                    now,
                    evs[n - 1],
                    figs[n - 1],
                    so_far,
                );
            },
            None => {},
        }
    }
}

/// Whatever a strategy is told, all that goes out goes to its maker's venue, about its maker's symbol; and
/// whether it trades or only observes, it shows its state when it was told of an event.
pub proof fn law_only_the_maker_hears(
    st: StateV,
    cfg: StrategyConfig,
    maker: Instrument,
    live: bool,
    now: Ts,
    input: ActorInput,
    figs: Seq<Doubles>,
    last: Doubles,
)
    requires
        st.wf(),
    ensures
        handled(st, cfg, maker, live, now, input, figs, last) matches Some((after, done))
            ==> sends_to_maker(done, cfg) && (events_of(cfg, input).len() > 0 ==> done.len() > 0
            && done.last() == EffectV::Publish(after)),
{
    let evs = events_of(cfg, input);
    let first = before_events(cfg, input);
    lemma_ran_to_maker(st, cfg, maker, live, now, evs, figs, evs.len() as int, first);
    match ran_to(st, cfg, maker, live, now, evs, figs, evs.len() as int, first) {
        Some((after, done)) => {
            lemma_dispatched_to_maker(
                after,
                cfg,
                maker,
                live,
                now,
                Event::Control(ControlCmd::Flatten),
                last,
                done,
            );
        },
        None => {},
    }
}

} // verus!
