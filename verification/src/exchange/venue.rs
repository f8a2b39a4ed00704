//! What both venues have in common.
use crate::config::TradingEnv;
use crate::text::{contains, holds, opt_view};
use crate::types::ids::{
    canonical, gate_native, to_binance_native, to_gate_native, ClientOrderId, LinkKind, VenueId,
};
use crate::types::order::{ExecReport, ExecV, ReqResult};
use crate::types::position::{PosV, PositionSnapshot};
use vstd::prelude::*;

verus! {

/// What became of a request.
#[derive(Clone, Debug)]
pub struct ReqOutcome {
    pub coid: ClientOrderId,
    pub result: ReqResult,
    pub reason: Option<String>,
}

/// What a venue says of an account.
#[derive(Clone, Debug)]
pub enum PrivateMsg {
    Exec(ExecReport),
    Position(PositionSnapshot),
    Link { kind: LinkKind, up: bool },
}

/// What a venue's message says.
#[verifier::ext_equal]
pub enum PrivateV {
    Exec(ExecV),
    Position(PosV),
    Link { kind: LinkKind, up: bool },
}

impl View for PrivateMsg {
    type V = PrivateV;

    open spec fn view(&self) -> PrivateV {
        match self {
            PrivateMsg::Exec(e) => PrivateV::Exec(e@),
            PrivateMsg::Position(p) => PrivateV::Position(p@),
            PrivateMsg::Link { kind, up } => PrivateV::Link { kind: *kind, up: *up },
        }
    }
}

/// What the messages of a list say.
pub open spec fn msgs(v: Seq<PrivateMsg>) -> Seq<PrivateV> {
    v.map_values(|m: PrivateMsg| m@)
}

/// Why what a venue sent cannot be used.
#[derive(Clone, Copy, Debug, PartialEq, Eq, Structural)]
pub enum FeedError {
    /// It is no list where one is due.
    NotAList,
    /// A number in it is no decimal of 96 bits.
    BadDecimal,
}

#[derive(Clone, Copy, Debug)]
pub struct VenueHealth {
    pub venue: VenueId,
    pub md: bool,
    pub private: bool,
    pub trading: bool,
    pub has_keys: bool,
}

#[derive(Clone, Debug)]
pub struct VenueEndpoints {
    pub rest: String,
    pub public_rest: String,
    pub md_ws: String,
    pub user_ws: String,
    pub trade_ws: String,
}

/// The addresses of a venue.
#[verifier::ext_equal]
pub struct EndpointsV {
    pub rest: Seq<char>,
    pub public_rest: Seq<char>,
    pub md_ws: Seq<char>,
    pub user_ws: Seq<char>,
    pub trade_ws: Seq<char>,
}

impl View for VenueEndpoints {
    type V = EndpointsV;

    open spec fn view(&self) -> EndpointsV {
        EndpointsV {
            rest: self.rest@,
            public_rest: self.public_rest@,
            md_ws: self.md_ws@,
            user_ws: self.user_ws@,
            trade_ws: self.trade_ws@,
        }
    }
}

/// The addresses of a venue. Public market data and the catalogue always come from the main
/// network; signed requests and private streams follow the environment.
pub open spec fn addresses(venue: VenueId, env: TradingEnv) -> EndpointsV {
    match (venue, env) {
        (VenueId::Binance, TradingEnv::Mainnet) => EndpointsV {
            rest: "https://fapi.binance.com"@,
            public_rest: "https://fapi.binance.com"@,
            md_ws: "wss://fstream.binance.com/stream"@,
            user_ws: "wss://fstream.binance.com/ws"@,
            trade_ws: "wss://ws-fapi.binance.com/ws-fapi/v1"@,
        },
        (VenueId::Binance, TradingEnv::Testnet) => EndpointsV {
            rest: "https://testnet.binancefuture.com"@,
            public_rest: "https://fapi.binance.com"@,
            md_ws: "wss://fstream.binance.com/stream"@,
            user_ws: "wss://stream.binancefuture.com/ws"@,
            trade_ws: "wss://testnet.binancefuture.com/ws-fapi/v1"@,
        },
        (VenueId::Gate, TradingEnv::Mainnet) => EndpointsV {
            rest: "https://api.gateio.ws"@,
            public_rest: "https://api.gateio.ws"@,
            md_ws: "wss://fx-ws.gateio.ws/v4/ws/usdt"@,
            user_ws: "wss://fx-ws.gateio.ws/v4/ws/usdt"@,
            trade_ws: "wss://fx-ws.gateio.ws/v4/ws/usdt"@,
        },
        (VenueId::Gate, TradingEnv::Testnet) => EndpointsV {
            rest: "https://api-testnet.gateapi.io"@,
            public_rest: "https://api.gateio.ws"@,
            md_ws: "wss://fx-ws.gateio.ws/v4/ws/usdt"@,
            user_ws: "wss://fx-ws-testnet.gateio.ws/v4/ws/usdt"@,
            trade_ws: "wss://fx-ws-testnet.gateio.ws/v4/ws/usdt"@,
        },
    }
}

pub fn endpoints(venue: VenueId, env: TradingEnv) -> (r: VenueEndpoints)
    ensures
        r@ == addresses(venue, env),
{
    match (venue, env) {
        (VenueId::Binance, TradingEnv::Mainnet) => VenueEndpoints {
            rest: "https://fapi.binance.com".to_owned(),
            public_rest: "https://fapi.binance.com".to_owned(),
            md_ws: "wss://fstream.binance.com/stream".to_owned(),
            user_ws: "wss://fstream.binance.com/ws".to_owned(),
            trade_ws: "wss://ws-fapi.binance.com/ws-fapi/v1".to_owned(),
        },
        (VenueId::Binance, TradingEnv::Testnet) => VenueEndpoints {
            rest: "https://testnet.binancefuture.com".to_owned(),
            public_rest: "https://fapi.binance.com".to_owned(),
            md_ws: "wss://fstream.binance.com/stream".to_owned(),
            user_ws: "wss://stream.binancefuture.com/ws".to_owned(),
            trade_ws: "wss://testnet.binancefuture.com/ws-fapi/v1".to_owned(),
        },
        (VenueId::Gate, TradingEnv::Mainnet) => VenueEndpoints {
            rest: "https://api.gateio.ws".to_owned(),
            public_rest: "https://api.gateio.ws".to_owned(),
            md_ws: "wss://fx-ws.gateio.ws/v4/ws/usdt".to_owned(),
            user_ws: "wss://fx-ws.gateio.ws/v4/ws/usdt".to_owned(),
            trade_ws: "wss://fx-ws.gateio.ws/v4/ws/usdt".to_owned(),
        },
        (VenueId::Gate, TradingEnv::Testnet) => VenueEndpoints {
            rest: "https://api-testnet.gateapi.io".to_owned(),
            public_rest: "https://api.gateio.ws".to_owned(),
            md_ws: "wss://fx-ws.gateio.ws/v4/ws/usdt".to_owned(),
            user_ws: "wss://fx-ws-testnet.gateio.ws/v4/ws/usdt".to_owned(),
            trade_ws: "wss://fx-ws-testnet.gateio.ws/v4/ws/usdt".to_owned(),
        },
    }
}

/// Market data and the catalogue do not depend on the environment: they come from the main
/// network.
pub proof fn law_public_data_is_mainnet(venue: VenueId, env: TradingEnv)
    ensures
        addresses(venue, env).public_rest == addresses(venue, TradingEnv::Mainnet).public_rest,
        addresses(venue, env).md_ws == addresses(venue, TradingEnv::Mainnet).md_ws,
        addresses(venue, TradingEnv::Mainnet).public_rest == addresses(
            venue,
            TradingEnv::Mainnet,
        ).rest,
{
}

/// No signed request and no private stream goes to the same address in both environments: what is
/// tried out never reaches the main network.
pub proof fn law_environments_are_apart(venue: VenueId)
    ensures
        ({
            let main = addresses(venue, TradingEnv::Mainnet);
            let test = addresses(venue, TradingEnv::Testnet);
            &&& main.rest != test.rest
            &&& main.user_ws != test.user_ws
            &&& main.trade_ws != test.trade_ws
        }),
{
    reveal_strlit("https://fapi.binance.com");
    reveal_strlit("https://testnet.binancefuture.com");
    reveal_strlit("wss://fstream.binance.com/ws");
    reveal_strlit("wss://stream.binancefuture.com/ws");
    reveal_strlit("wss://ws-fapi.binance.com/ws-fapi/v1");
    reveal_strlit("wss://testnet.binancefuture.com/ws-fapi/v1");
    reveal_strlit("https://api.gateio.ws");
    reveal_strlit("https://api-testnet.gateapi.io");
    reveal_strlit("wss://fx-ws.gateio.ws/v4/ws/usdt");
    reveal_strlit("wss://fx-ws-testnet.gateio.ws/v4/ws/usdt");
    let main = addresses(venue, TradingEnv::Mainnet);
    let test = addresses(venue, TradingEnv::Testnet);
    assert(main.rest.len() != test.rest.len());
    assert(main.user_ws.len() != test.user_ws.len());
    assert(main.trade_ws.len() != test.trade_ws.len());
}

/// The form of a symbol at a venue.
pub open spec fn native_of(venue: VenueId, s: Seq<char>) -> Seq<char> {
    match venue {
        VenueId::Binance => canonical(s),
        VenueId::Gate => gate_native(s),
    }
}

pub fn native_symbol(venue: VenueId, canonical: &str) -> (r: String)
    ensures
        r@ == native_of(venue, canonical@),
{
    match venue {
        VenueId::Binance => to_binance_native(canonical),
        VenueId::Gate => to_gate_native(canonical),
    }
}

/// The outcome of a request that failed: one that the venue may have seen has an outcome that is
/// not known, any other was refused.
pub open spec fn failed_as(msg: Seq<char>) -> ReqResult {
    if holds(msg, "timeout"@) || holds(msg, "disconnect"@) {
        ReqResult::Unknown
    } else {
        ReqResult::Rejected
    }
}

/// What became of a request, from how it ended.
pub fn map_result(coid: ClientOrderId, r: Result<(), String>) -> (o: ReqOutcome)
    ensures
        o.coid == coid,
        match r {
            Ok(_) => o.result == ReqResult::Accepted && o.reason is None,
            Err(msg) => o.result == failed_as(msg@) && opt_view(o.reason) == Some(msg@),
        },
{
    match r {
        Ok(()) => ReqOutcome { coid, result: ReqResult::Accepted, reason: None },
        Err(msg) => {
            if contains(&msg, "timeout") || contains(&msg, "disconnect") {
                ReqOutcome { coid, result: ReqResult::Unknown, reason: Some(msg) }
            } else {
                ReqOutcome { coid, result: ReqResult::Rejected, reason: Some(msg) }
            }
        },
    }
}

} // verus!
