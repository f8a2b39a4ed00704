//! How a Gate account is brought to one position a contract: what is asked for, and what the answers lead to.
use crate::exchange::binance::Method;
use crate::exchange::calls::{RestCall, RestCallV};
use crate::exchange::gate::{
    enable_futures, enable_futures_body, is_single_position_mode, position_mode, unified_reaction,
    unified_step, UnifiedStep,
};
use crate::json::{json_read, json_written, Json};
use vstd::prelude::*;

verus! {

/// What was asked for last.
#[derive(Clone, Copy, Debug, PartialEq, Eq, Structural)]
pub enum OnewayPhase {
    /// The mode of the account.
    AskUnified,
    /// That perpetuals can be traded.
    EnableFutures,
    /// The account for perpetuals.
    AskAccount,
    /// One position a contract.
    Switch,
    /// The same, in the older way.
    FallBack,
}

/// What comes next.
#[derive(Debug)]
pub enum OnewayStep {
    Call(OnewayPhase, RestCall),
    Done(Result<(), String>),
}

/// What comes next.
#[verifier::ext_equal]
pub enum OnewayStepV {
    Call(OnewayPhase, RestCallV),
    Done(Result<(), Seq<char>>),
}

impl View for OnewayStep {
    type V = OnewayStepV;

    open spec fn view(&self) -> OnewayStepV {
        match self {
            OnewayStep::Call(p, c) => OnewayStepV::Call(*p, c@),
            OnewayStep::Done(Ok(_)) => OnewayStepV::Done(Ok(())),
            OnewayStep::Done(Err(e)) => OnewayStepV::Done(Err(e@)),
        }
    }
}

/// The request that goes with what is asked for.
pub open spec fn oneway_request(p: OnewayPhase) -> RestCallV {
    let get = RestCallV {
        method: Method::Get,
        path: "/api/v4/unified/unified_mode"@,
        query: ""@,
        body: None,
        lenient: false,
    };
    match p {
        OnewayPhase::AskUnified => get,
        OnewayPhase::EnableFutures => RestCallV {
            method: Method::Put,
            body: Some(json_written(enable_futures_body())),
            ..get
        },
        OnewayPhase::AskAccount => RestCallV { path: "/api/v4/futures/usdt/accounts"@, ..get },
        OnewayPhase::Switch => RestCallV {
            method: Method::Post,
            path: "/api/v4/futures/usdt/set_position_mode"@,
            query: "position_mode=single"@,
            ..get
        },
        OnewayPhase::FallBack => RestCallV {
            method: Method::Post,
            path: "/api/v4/futures/usdt/dual_mode"@,
            query: "dual_mode=false"@,
            ..get
        },
    }
}

/// What the answer to a request leads to; `None` for the value where it could not be read. Whatever comes of
/// the account's mode, the position mode is looked at next.
pub open spec fn oneway_after(p: OnewayPhase, reply: Result<Option<Json>, ()>) -> OnewayStepV {
    match p {
        OnewayPhase::AskUnified => {
            let next = match reply {
                Ok(Some(v)) => if unified_reaction(v) == UnifiedStep::EnableFutures {
                    OnewayPhase::EnableFutures
                } else {
                    OnewayPhase::AskAccount
                },
                _ => OnewayPhase::AskAccount,
            };
            OnewayStepV::Call(next, oneway_request(next))
        },
        OnewayPhase::EnableFutures => OnewayStepV::Call(
            OnewayPhase::AskAccount,
            oneway_request(OnewayPhase::AskAccount),
        ),
        OnewayPhase::AskAccount => match reply {
            Err(_) => OnewayStepV::Done(Err("gate GET /futures/usdt/accounts"@)),
            Ok(None) => OnewayStepV::Done(Err("gate futures account json"@)),
            Ok(Some(v)) => if position_mode(v) == "single"@ {
                OnewayStepV::Done(Ok(()))
            } else {
                OnewayStepV::Call(OnewayPhase::Switch, oneway_request(OnewayPhase::Switch))
            },
        },
        OnewayPhase::Switch => match reply {
            Ok(_) => OnewayStepV::Done(Ok(())),
            Err(_) => OnewayStepV::Call(
                OnewayPhase::FallBack,
                oneway_request(OnewayPhase::FallBack),
            ),
        },
        OnewayPhase::FallBack => match reply {
            Ok(_) => OnewayStepV::Done(Ok(())),
            Err(_) => OnewayStepV::Done(Err("gate set one-way position mode"@)),
        },
    }
}

fn call_of(p: OnewayPhase) -> (r: RestCall)
    ensures
        r@ == oneway_request(p),
{
    let (method, path, query, body): (Method, &str, &str, Option<String>) = match p {
        OnewayPhase::AskUnified => (Method::Get, "/api/v4/unified/unified_mode", "", None),
        OnewayPhase::EnableFutures => (
            Method::Put,
            "/api/v4/unified/unified_mode",
            "",
            Some(enable_futures()),
        ),
        OnewayPhase::AskAccount => (Method::Get, "/api/v4/futures/usdt/accounts", "", None),
        OnewayPhase::Switch => (
            Method::Post,
            "/api/v4/futures/usdt/set_position_mode",
            "position_mode=single",
            None,
        ),
        OnewayPhase::FallBack => (
            Method::Post,
            "/api/v4/futures/usdt/dual_mode",
            "dual_mode=false",
            None,
        ),
    };
    RestCall { method, path: path.to_owned(), query: query.to_owned(), body, lenient: false }
}

fn ask(p: OnewayPhase) -> (r: OnewayStep)
    ensures
        r@ == OnewayStepV::Call(p, oneway_request(p)),
{
    OnewayStep::Call(p, call_of(p))
}

fn fail(why: &str) -> (r: OnewayStep)
    ensures
        r@ == OnewayStepV::Done(Err(why@)),
{
    OnewayStep::Done(Err(why.to_owned()))
}

/// What is asked for first.
pub fn oneway_first() -> (r: OnewayStep)
    ensures
        r@ == OnewayStepV::Call(OnewayPhase::AskUnified, oneway_request(OnewayPhase::AskUnified)),
{
    ask(OnewayPhase::AskUnified)
}

/// What the answer to a request leads to.
pub fn oneway_next(p: OnewayPhase, reply: Result<Option<Json>, ()>) -> (r: OnewayStep)
    ensures
        r@ == oneway_after(p, reply),
{
    match p {
        OnewayPhase::AskUnified => match &reply {
            Ok(Some(v)) => if unified_step(v) == UnifiedStep::EnableFutures {
                ask(OnewayPhase::EnableFutures)
            } else {
                ask(OnewayPhase::AskAccount)
            },
            _ => ask(OnewayPhase::AskAccount),
        },
        OnewayPhase::EnableFutures => ask(OnewayPhase::AskAccount),
        OnewayPhase::AskAccount => match &reply {
            Err(_) => fail("gate GET /futures/usdt/accounts"),
            Ok(None) => fail("gate futures account json"),
            Ok(Some(v)) => if is_single_position_mode(v) {
                OnewayStep::Done(Ok(()))
            } else {
                ask(OnewayPhase::Switch)
            },
        },
        OnewayPhase::Switch => match &reply {
            Ok(_) => OnewayStep::Done(Ok(())),
            Err(_) => ask(OnewayPhase::FallBack),
        },
        OnewayPhase::FallBack => match &reply {
            Ok(_) => OnewayStep::Done(Ok(())),
            Err(_) => fail("gate set one-way position mode"),
        },
    }
}

/// What the text of an answer leads to; `None` where no answer came.
pub fn oneway_answer(p: OnewayPhase, text: Option<&str>) -> (r: OnewayStep)
    ensures
        r@ == oneway_after(
            p,
            match text {
                Some(t) => Ok(json_read(t@)),
                None => Err(()),
            },
        ),
{
    match text {
        Some(t) => oneway_next(p, Ok(Json::parse(t))),
        None => oneway_next(p, Err(())),
    }
}

/// How many requests can still follow one.
pub open spec fn oneway_left(p: OnewayPhase) -> nat {
    match p {
        OnewayPhase::AskUnified => 4,
        OnewayPhase::EnableFutures => 3,
        OnewayPhase::AskAccount => 2,
        OnewayPhase::Switch => 1,
        OnewayPhase::FallBack => 0,
    }
}

/// It comes to an end: fewer requests can follow each request than the one before.
pub proof fn law_oneway_ends(p: OnewayPhase, reply: Result<Option<Json>, ()>)
    ensures
        oneway_after(p, reply) matches OnewayStepV::Call(next, _) ==> oneway_left(next) < oneway_left(
            p,
        ),
{
}

/// An account that holds one position a contract is left alone.
pub proof fn law_single_mode_is_left_alone(account: Json)
    requires
        position_mode(account) == "single"@,
    ensures
        oneway_after(OnewayPhase::AskAccount, Ok(Some(account))) == OnewayStepV::Done(Ok(())),
{
}

/// An account at Gate is brought to one-way positions: it is done only once the venue says that it is in that mode, or
/// took a request that puts it there, and every request that changes the mode asks for one-way positions.
pub proof fn law_account_ends_one_way(p: OnewayPhase, reply: Result<Option<Json>, ()>)
    ensures
        oneway_after(p, reply) == OnewayStepV::Done(Ok(())) ==> {
            ||| p == OnewayPhase::AskAccount && (reply matches Ok(Some(v)) && position_mode(v) == "single"@)
            ||| (p == OnewayPhase::Switch || p == OnewayPhase::FallBack) && reply is Ok
        },
        p == OnewayPhase::AskAccount && (reply matches Ok(Some(v)) && position_mode(v) != "single"@) ==> (
        oneway_after(p, reply) matches OnewayStepV::Call(next, c) && next == OnewayPhase::Switch && c.query
            == "position_mode=single"@),
        p == OnewayPhase::Switch && reply is Err ==> (oneway_after(p, reply) matches OnewayStepV::Call(
            next,
            c,
        ) && next == OnewayPhase::FallBack && c.query == "dual_mode=false"@),
{
}

/// The mode of an account is the one that it names; one that names none is in two-way mode only where it says so.
pub proof fn law_position_mode_is_what_was_said(account: Json)
    ensures
        account.field("position_mode"@) matches Some(Json::Text(m)) ==> position_mode(account) == m@,
        account.field("position_mode"@) is None ==> (position_mode(account) == "single"@ <==> account.field(
            "in_dual_mode"@,
        ) != Some(Json::Bool(true))),
{
    reveal_strlit("dual");
    reveal_strlit("single");
    assert("dual"@.len() == 4 && "single"@.len() == 6);
}

} // verus!
