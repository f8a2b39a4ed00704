//! One of Gate's trading connections: from connecting over the login to requests and their answers; and how
//! a request tries one connection after the other.
use crate::exchange::gate_trade::{
    frame_result, given_up, is_safe_retry, login_answer, login_step, next_lane, opt_frame, ready_try,
    lemma_wait_place, safe_to_retry, settled_id, settles, unique_waits, wait_place, with_wait, without_wait, ApiFrame, FrameV, LoginStep, PendingTable,
};
use crate::exchange::session::{
    react, step_after, wait_at, wire_reaction, Backoff, WireAction, WireEvent,
};
use crate::json::{Json, JsonV};
use crate::text::opt_view;
use vstd::prelude::*;

verus! {

/// How far a connection has come.
#[derive(Clone, Copy, Debug, PartialEq, Eq, Structural)]
pub enum Phase {
    Down,
    LoggingIn,
    Ready,
}

/// One trading connection.
#[derive(Debug)]
pub struct LaneState {
    pub backoff: Backoff,
    pub phase: Phase,
    /// The request that logs in.
    pub login_id: String,
    pub pending: PendingTable,
}

/// A `LaneState`.
pub struct LaneV {
    pub step: u64,
    pub phase: Phase,
    pub login_id: Seq<char>,
    pub pending: Seq<(Seq<char>, u64)>,
}

impl View for LaneState {
    type V = LaneV;

    open spec fn view(&self) -> LaneV {
        LaneV {
            step: self.backoff.step,
            phase: self.phase,
            login_id: self.login_id@,
            pending: self.pending@,
        }
    }
}

/// What happens to a trading connection.
#[derive(Debug)]
pub enum LaneEvent {
    /// It stands; the login is to go out under this id.
    Connected(String),
    ConnectFailed,
    LoginNotSent,
    LoginTimedOut,
    /// An answer arrived, if it could be read.
    Frame(Option<ApiFrame>),
    /// A request of this id is to go out.
    Command(String),
    /// Anything else.
    Wire(WireEvent),
}

/// What is done about it.
#[derive(Clone, Copy, Debug, PartialEq, Eq, Structural)]
pub enum LaneAction {
    SendLogin,
    SendRequest,
    /// The request is left where it is until the connection is ready.
    LeaveRequest,
    AnswerPing,
    GoOn,
    Reconnect,
    Stop,
}

/// What is done about what happens to a trading connection.
#[derive(Debug)]
pub struct LaneStep {
    /// The connection is ready for requests from now on, or no longer.
    pub ready: Option<bool>,
    /// Requests whose answers are overdue.
    pub overdue: Vec<String>,
    /// Requests whose answers will not come.
    pub lost: Vec<String>,
    /// A request that is answered.
    pub answer: Option<(String, Result<Json, String>)>,
    pub action: LaneAction,
    /// How many milliseconds to wait before connecting again.
    pub wait_ms: u64,
}

/// A `LaneStep`.
#[verifier::ext_equal]
pub struct LaneStepV {
    pub ready: Option<bool>,
    pub overdue: Seq<Seq<char>>,
    pub lost: Seq<Seq<char>>,
    pub answer: Option<(Seq<char>, Result<JsonV, Seq<char>>)>,
    pub action: LaneAction,
    pub wait_ms: u64,
}

/// What ids say.
pub open spec fn ids_said(v: Seq<String>) -> Seq<Seq<char>> {
    v.map_values(|s: String| s@)
}

/// What an answer says.
pub open spec fn result_said(r: Result<Json, String>) -> Result<JsonV, Seq<char>> {
    match r {
        Ok(v) => Ok(v.says()),
        Err(e) => Err(e@),
    }
}

impl View for LaneStep {
    type V = LaneStepV;

    open spec fn view(&self) -> LaneStepV {
        LaneStepV {
            ready: self.ready,
            overdue: ids_said(self.overdue@),
            lost: ids_said(self.lost@),
            answer: match self.answer {
                Some((id, r)) => Some((id@, result_said(r))),
                None => None,
            },
            action: self.action,
            wait_ms: self.wait_ms,
        }
    }
}

/// Nothing is done but one thing.
pub open spec fn only(action: LaneAction) -> LaneStepV {
    LaneStepV {
        ready: None,
        overdue: Seq::empty(),
        lost: Seq::empty(),
        answer: None,
        action,
        wait_ms: 0,
    }
}

/// The ids of waiting requests.
pub open spec fn waiting_ids(v: Seq<(Seq<char>, u64)>) -> Seq<Seq<char>> {
    v.map_values(|w: (Seq<char>, u64)| w.0)
}

/// The connection is lost, or did not come about: no request will be answered, and it is tried again.
pub open spec fn lost(l: LaneV, random: u64) -> (LaneV, LaneStepV) {
    (
        LaneV {
            step: step_after(l.step),
            phase: Phase::Down,
            pending: Seq::empty(),
            ..l
        },
        LaneStepV {
            ready: Some(false),
            lost: waiting_ids(l.pending),
            wait_ms: wait_at(l.step, random),
            ..only(LaneAction::Reconnect)
        },
    )
}

/// What an answer to a request comes to.
pub open spec fn outcome_of(f: FrameV) -> Result<JsonV, Seq<char>> {
    match f.error {
        Some(e) => Err(e),
        None => Ok(
            match f.result {
                Some(v) => v,
                None => JsonV::Null,
            },
        ),
    }
}

/// What an answer does: it ends the login, or settles a request that waits for it.
pub open spec fn answered(l: LaneV, f: Option<FrameV>, random: u64) -> (LaneV, LaneStepV) {
    match l.phase {
        Phase::Down => (l, only(LaneAction::GoOn)),
        Phase::LoggingIn => match login_answer(f, l.login_id) {
            LoginStep::Wait => (l, only(LaneAction::GoOn)),
            LoginStep::Accepted => (
                LaneV { phase: Phase::Ready, pending: Seq::empty(), ..l },
                LaneStepV { ready: Some(true), ..only(LaneAction::GoOn) },
            ),
            LoginStep::Refused => lost(l, random),
        },
        Phase::Ready => match settles(f) {
            None => (l, only(LaneAction::GoOn)),
            Some(id) => {
                let p = wait_place(l.pending, id, 0);
                if p < l.pending.len() {
                    (
                        LaneV { pending: without_wait(l.pending, id), ..l },
                        LaneStepV {
                            answer: Some((id, outcome_of(f->0))),
                            ..only(LaneAction::GoOn)
                        },
                    )
                } else {
                    (l, only(LaneAction::GoOn))
                }
            },
        },
    }
}

/// What happens to a trading connection does to it, and what is done about it.
pub open spec fn lane_next(l: LaneV, ev: LaneEvent, now_ms: u64, random: u64) -> (LaneV, LaneStepV) {
    match ev {
        LaneEvent::Connected(id) => (
            LaneV { step: 1, phase: Phase::LoggingIn, login_id: id@, pending: Seq::empty() },
            only(LaneAction::SendLogin),
        ),
        LaneEvent::ConnectFailed | LaneEvent::LoginNotSent | LaneEvent::LoginTimedOut => lost(
            l,
            random,
        ),
        LaneEvent::Frame(f) => answered(l, opt_frame(f), random),
        LaneEvent::Command(id) => if l.phase != Phase::Ready {
            (l, only(LaneAction::LeaveRequest))
        } else {
            (
                LaneV {
                    pending: with_wait(
                        l.pending.filter(|w: (Seq<char>, u64)| !given_up(w.1, now_ms)),
                        id@,
                        now_ms,
                    ),
                    ..l
                },
                LaneStepV {
                    overdue: waiting_ids(
                        l.pending.filter(|w: (Seq<char>, u64)| given_up(w.1, now_ms)),
                    ),
                    ..only(LaneAction::SendRequest)
                },
            )
        },
        LaneEvent::Wire(w) => match wire_reaction(w) {
            WireAction::Reconnect => lost(l, random),
            WireAction::Stop => (l, only(LaneAction::Stop)),
            WireAction::AnswerPing => (l, only(LaneAction::AnswerPing)),
            _ => (l, only(LaneAction::GoOn)),
        },
    }
}

fn quiet(action: LaneAction) -> (r: LaneStep)
    ensures
        r@ == only(action),
{
    let r = LaneStep {
        ready: None,
        overdue: Vec::new(),
        lost: Vec::new(),
        answer: None,
        action,
        wait_ms: 0,
    };
    assert(r@ =~= only(action));
    r
}

impl LaneState {
    /// The next wait is one that waits are made of, and no two requests share an id.
    pub open spec fn wf(self) -> bool {
        self.backoff.wf() && unique_waits(self@.pending)
    }

    /// A connection that does not stand.
    pub fn new() -> (r: Self)
        ensures
            r.wf(),
            r@.step == 1,
            r@.phase == Phase::Down,
            r@.login_id == ""@,
            r@.pending == Seq::<(Seq<char>, u64)>::empty(),
    {
        LaneState {
            backoff: Backoff::new(),
            phase: Phase::Down,
            login_id: "".to_owned(),
            pending: PendingTable::new(),
        }
    }

    fn lose(&mut self, random: u64) -> (r: LaneStep)
        requires
            old(self).wf(),
        ensures
            final(self).wf(),
            (final(self)@, r@) == lost(old(self)@, random),
    {
        let wait_ms = self.backoff.wait_ms(random);
        let mut gone: Vec<String> = Vec::new();
        let mut i: usize = 0;
        let ghost all = waiting_ids(self.pending@);
        assert(ids_said(gone@) =~= all.take(0));
        while i < self.pending.waiting.len()
            invariant
                i <= self.pending.waiting@.len(),
                all == waiting_ids(self.pending@),
                ids_said(gone@) == all.take(i as int),
            decreases self.pending.waiting@.len() - i,
        {
            let ghost before = ids_said(gone@);
            gone.push(self.pending.waiting[i].id.clone());
            assert(ids_said(gone@) =~= before.push(self.pending.waiting@[i as int].id@));
            i = i + 1;
            assert(all.take(i as int) =~= before.push(all[i - 1]));
        }
        assert(all.take(i as int) =~= all);
        self.phase = Phase::Down;
        self.pending = PendingTable::new();
        let r = LaneStep {
            ready: Some(false),
            overdue: Vec::new(),
            lost: gone,
            answer: None,
            action: LaneAction::Reconnect,
            wait_ms,
        };
        assert(r@ =~= lost(old(self)@, random).1);
        r
    }

    fn on_frame(&mut self, frame: Option<ApiFrame>, random: u64) -> (r: LaneStep)
        requires
            old(self).wf(),
        ensures
            final(self).wf(),
            (final(self)@, r@) == answered(old(self)@, opt_frame(frame), random),
    {
        match self.phase {
            Phase::Down => quiet(LaneAction::GoOn),
            Phase::LoggingIn => match login_step(&frame, self.login_id.as_str()) {
                LoginStep::Wait => quiet(LaneAction::GoOn),
                LoginStep::Accepted => {
                    self.phase = Phase::Ready;
                    self.pending = PendingTable::new();
                    let mut r = quiet(LaneAction::GoOn);
                    r.ready = Some(true);
                    r
                },
                LoginStep::Refused => self.lose(random),
            },
            Phase::Ready => match settled_id(&frame) {
                None => quiet(LaneAction::GoOn),
                Some(id) => {
                    if !self.pending.take(id.as_str()) {
                        return quiet(LaneAction::GoOn);
                    }
                    match frame {
                        Some(f) => {
                            let mut r = quiet(LaneAction::GoOn);
                            r.answer = Some((id, frame_result(f)));
                            r
                        },
                        None => quiet(LaneAction::GoOn),
                    }
                },
            },
        }
    }

    /// What happens to the connection, at a time in milliseconds and with a random number.
    pub fn on_event(&mut self, ev: LaneEvent, now_ms: u64, random: u64) -> (r: LaneStep)
        requires
            old(self).wf(),
        ensures
            final(self).wf(),
            (final(self)@, r@) == lane_next(old(self)@, ev, now_ms, random),
    {
        match ev {
            LaneEvent::Connected(id) => {
                self.backoff.reset();
                self.phase = Phase::LoggingIn;
                self.login_id = id;
                self.pending = PendingTable::new();
                quiet(LaneAction::SendLogin)
            },
            LaneEvent::ConnectFailed | LaneEvent::LoginNotSent | LaneEvent::LoginTimedOut => self.lose(
                random,
            ),
            LaneEvent::Frame(f) => self.on_frame(f, random),
            LaneEvent::Command(id) => {
                if self.phase != Phase::Ready {
                    return quiet(LaneAction::LeaveRequest);
                }
                let overdue = self.pending.purge(now_ms);
                self.pending.add_request(id.as_str(), now_ms);
                let mut r = quiet(LaneAction::SendRequest);
                r.overdue = overdue;
                assert(r@ =~= lane_next(old(self)@, LaneEvent::Command(id), now_ms, random).1);
                r
            },
            LaneEvent::Wire(w) => match react(w) {
                WireAction::Reconnect => self.lose(random),
                WireAction::Stop => quiet(LaneAction::Stop),
                WireAction::AnswerPing => quiet(LaneAction::AnswerPing),
                _ => quiet(LaneAction::GoOn),
            },
        }
    }
}

/// A connection that is lost leaves no request waiting, and as many are told of as waited.
pub proof fn law_lost_lane_leaves_no_request(l: LaneV, ev: LaneEvent, now_ms: u64, random: u64)
    ensures
        ({
            let (after, step) = lane_next(l, ev, now_ms, random);
            step.action == LaneAction::Reconnect ==> after.pending.len() == 0 && after.phase
                == Phase::Down && step.lost.len() == l.pending.len() && step.ready == Some(false)
        }),
{
}

/// A connection becomes ready for requests only by an accepted login.
pub proof fn law_ready_needs_login(l: LaneV, ev: LaneEvent, now_ms: u64, random: u64)
    ensures
        ({
            let (after, step) = lane_next(l, ev, now_ms, random);
            step.ready == Some(true) ==> l.phase == Phase::LoggingIn && after.phase == Phase::Ready
                && (ev matches LaneEvent::Frame(f) && login_answer(opt_frame(f), l.login_id)
                == LoginStep::Accepted)
        }),
{
}

/// A request goes out only over a connection that is ready for requests, and waits for its answer from
/// then on.
pub proof fn law_requests_need_ready(l: LaneV, ev: LaneEvent, now_ms: u64, random: u64)
    ensures
        ({
            let (after, step) = lane_next(l, ev, now_ms, random);
            step.action == LaneAction::SendRequest ==> l.phase == Phase::Ready && (ev matches
                LaneEvent::Command(id) && after.pending.contains((id@, now_ms)))
        }),
{
    if let LaneEvent::Command(id) = ev {
        if l.phase == Phase::Ready {
            let after = lane_next(l, ev, now_ms, random).0;
            assert(after.pending[after.pending.len() - 1] == (id@, now_ms));
        }
    }
}

/// A request on its way over the trading connections.
#[derive(Debug)]
pub struct RpcState {
    /// The connection that it tries first.
    pub start: usize,
    /// How many connections it has tried or passed over.
    pub tried: usize,
    /// Why the last try failed.
    pub last: Option<String>,
}

/// Where a request goes next.
#[derive(Debug)]
pub enum RpcStep {
    Try(usize),
    Fail(String),
}

impl RpcState {
    /// A request that tries the connections in turn, from one on.
    pub fn new(start: usize) -> (r: Self)
        ensures
            r.start == start,
            r.tried == 0,
            r.last is None,
    {
        RpcState { start, tried: 0, last: None }
    }

    /// Where the request goes next: to the next connection that is ready. Where there is none it fails as
    /// its last try did.
    pub fn next(&mut self, ready: &Vec<bool>) -> (r: RpcStep)
        requires
            old(self).tried <= ready@.len(),
        ensures
            final(self).start == old(self).start,
            final(self).last == old(self).last,
            ({
                let n = ready@.len() as int;
                let k = ready_try(ready@, old(self).start as int, old(self).tried as int);
                if n == 0 {
                    r matches RpcStep::Fail(m) && m@ == "disconnect: no gate trade lane"@
                        && final(self).tried == old(self).tried
                } else if k < n {
                    r matches RpcStep::Try(lane) && lane == (old(self).start + k) % n
                        && final(self).tried == k + 1
                } else {
                    r matches RpcStep::Fail(m) && m@ == (match old(self).last {
                        Some(e) => e@,
                        None => "disconnect: no ready gate trade ws"@,
                    }) && final(self).tried == old(self).tried
                }
            }),
            final(self).tried <= ready@.len(),
    {
        if ready.len() == 0 {
            return RpcStep::Fail("disconnect: no gate trade lane".to_owned());
        }
        match next_lane(ready, self.start, self.tried) {
            Some((lane, i)) => {
                self.tried = i + 1;
                RpcStep::Try(lane)
            },
            None => RpcStep::Fail(
                match &self.last {
                    Some(e) => e.clone(),
                    None => "disconnect: no ready gate trade ws".to_owned(),
                },
            ),
        }
    }

    /// What a try came to: the request is done, unless it failed in a way that was not carried out, and
    /// then goes on to the next connection.
    pub fn on_result(&mut self, result: Result<Json, String>) -> (r: Option<Result<Json, String>>)
        ensures
            final(self).start == old(self).start,
            final(self).tried == old(self).tried,
            match result {
                Ok(v) => r == Some(Ok::<Json, String>(v)) && final(self).last == old(self).last,
                Err(e) => if safe_to_retry(e@) {
                    r is None && opt_view(final(self).last) == Some(e@)
                } else {
                    r == Some(Err::<Json, String>(e)) && final(self).last == old(self).last
                },
            },
    {
        match result {
            Ok(v) => Some(Ok(v)),
            Err(e) => {
                if is_safe_retry(e.as_str()) {
                    self.last = Some(e);
                    None
                } else {
                    Some(Err(e))
                }
            },
        }
    }
}

/// On a connection that is ready the final answer to a request that waits goes to that request, a failure as its
/// error and a success as its result, and the request waits no more; any other answer does nothing.
pub proof fn law_answers_reach_their_request(l: LaneV, f: FrameV, random: u64)
    requires
        l.phase == Phase::Ready,
        unique_waits(l.pending),
    ensures
        ({
            let (n, s) = answered(l, Some(f), random);
            let waits = !f.ack && (f.request_id matches Some(id) && exists|i: int|
                0 <= i < l.pending.len() && (#[trigger] l.pending[i]).0 == id);
            &&& waits ==> s.answer == Some(
                (
                    f.request_id->0,
                    match f.error {
                        Some(e) => Err::<JsonV, Seq<char>>(e),
                        None => Ok(
                            match f.result {
                                Some(v) => v,
                                None => JsonV::Null,
                            },
                        ),
                    },
                ),
            )
            &&& !waits ==> s.answer is None && n == l
            &&& n.phase == Phase::Ready
        }),
{
    if let Some(id) = f.request_id {
        lemma_wait_place(l.pending, id, 0);
    }
}

} // verus!
