//! Connections: how long to wait before the next try, and what to do with what comes in.
use crate::text::same_text;
use crate::types::decimal::{decimal_parsed, Decimal};
use crate::types::time::{as_unsigned, cut_quotient, Ts};
use vstd::prelude::*;

verus! {

/// The longest back-off step.
pub const MAX_BACKOFF: u64 = 32;

/// How often a connection has failed in a row, as the step that the next wait is made of.
#[derive(Clone, Copy, Debug)]
pub struct Backoff {
    pub step: u64,
}

impl Backoff {
    /// The step is one that waits are made of.
    pub open spec fn wf(self) -> bool {
        1 <= self.step <= MAX_BACKOFF
    }

    pub fn new() -> (r: Self)
        ensures
            r.step == 1,
            r.wf(),
    {
        Backoff { step: 1 }
    }

    /// A connection stands: the next wait is the shortest again.
    pub fn reset(&mut self)
        ensures
            final(self).step == 1,
            final(self).wf(),
    {
        self.step = 1;
    }

    /// How many milliseconds to wait before the next try, given a random number; the wait after
    /// that is twice as long, up to a limit.
    pub fn wait_ms(&mut self, random: u64) -> (r: u64)
        requires
            old(self).wf(),
        ensures
            r == old(self).step * 400 + random % 400 + 100,
            final(self).step == (if old(self).step * 2 < MAX_BACKOFF {
                old(self).step * 2
            } else {
                MAX_BACKOFF as int
            }),
            final(self).wf(),
            500 <= r < 13_300,
    {
        let wait = self.step * 400 + random % 400 + 100;
        self.step = if self.step * 2 < MAX_BACKOFF {
            self.step * 2
        } else {
            MAX_BACKOFF
        };
        wait
    }
}

/// What happens on a connection.
#[derive(Clone, Copy, Debug, PartialEq, Eq, Structural)]
pub enum WireEvent {
    /// Text arrived.
    Text,
    /// The other side asks whether anyone is there.
    Ping,
    /// The other side answers that it is there.
    Pong,
    /// The other side closed the connection, or it ended.
    Closed,
    /// Reading failed.
    ReadFailed,
    /// Something else arrived.
    Other,
    /// There is text to send.
    Outgoing,
    /// Nobody will send anything any more.
    OutgoingDone,
    /// Sending failed.
    SendFailed,
    /// Nobody takes what arrives any more.
    NobodyListens,
}

/// What is done about it.
#[derive(Clone, Copy, Debug, PartialEq, Eq, Structural)]
pub enum WireAction {
    /// Hand the text on.
    Deliver,
    /// Answer that someone is there.
    AnswerPing,
    /// Go on.
    GoOn,
    /// Send the text.
    Send,
    /// Connect again.
    Reconnect,
    /// Give the connection up for good.
    Stop,
}

/// What is done about what happens on a connection.
pub open spec fn wire_reaction(ev: WireEvent) -> WireAction {
    match ev {
        WireEvent::Text => WireAction::Deliver,
        WireEvent::Ping => WireAction::AnswerPing,
        WireEvent::Pong | WireEvent::Other => WireAction::GoOn,
        WireEvent::Closed | WireEvent::ReadFailed | WireEvent::SendFailed => WireAction::Reconnect,
        WireEvent::Outgoing => WireAction::Send,
        WireEvent::OutgoingDone | WireEvent::NobodyListens => WireAction::Stop,
    }
}

pub fn react(ev: WireEvent) -> (r: WireAction)
    ensures
        r == wire_reaction(ev),
{
    match ev {
        WireEvent::Text => WireAction::Deliver,
        WireEvent::Ping => WireAction::AnswerPing,
        WireEvent::Pong | WireEvent::Other => WireAction::GoOn,
        WireEvent::Closed | WireEvent::ReadFailed | WireEvent::SendFailed => WireAction::Reconnect,
        WireEvent::Outgoing => WireAction::Send,
        WireEvent::OutgoingDone | WireEvent::NobodyListens => WireAction::Stop,
    }
}

/// What happens to a connection that is kept up.
#[derive(Clone, Copy, Debug, PartialEq, Eq, Structural)]
pub enum LinkEvent {
    Connected,
    ConnectFailed,
    Wire(WireEvent),
}

/// What is done about it.
#[derive(Clone, Copy, Debug, PartialEq, Eq, Structural)]
pub struct LinkStep {
    /// Whoever watches the connection is told that it is up or down.
    pub tell: Option<bool>,
    pub action: WireAction,
    /// How many milliseconds to wait before connecting again.
    pub wait_ms: u64,
}

/// The wait before the next try, at a step.
pub open spec fn wait_at(step: u64, random: u64) -> u64 {
    (step * 400 + random % 400 + 100) as u64
}

/// The step after one more failure.
pub open spec fn step_after(step: u64) -> u64 {
    if step * 2 < MAX_BACKOFF {
        (step * 2) as u64
    } else {
        MAX_BACKOFF
    }
}

/// What is done about what happens to a connection that is kept up, and the step of the next wait. A
/// connection that is lost or does not come about is told and tried again; one that is given up is not
/// told.
pub open spec fn link_next(step: u64, ev: LinkEvent, random: u64) -> (u64, LinkStep) {
    let again = (
        step_after(step),
        LinkStep { tell: Some(false), action: WireAction::Reconnect, wait_ms: wait_at(step, random) },
    );
    match ev {
        LinkEvent::Connected => (
            1,
            LinkStep { tell: Some(true), action: WireAction::GoOn, wait_ms: 0 },
        ),
        LinkEvent::ConnectFailed => again,
        LinkEvent::Wire(w) => if wire_reaction(w) == WireAction::Reconnect {
            again
        } else {
            (step, LinkStep { tell: None, action: wire_reaction(w), wait_ms: 0 })
        },
    }
}

impl Backoff {
    /// What is done about what happens to a connection that is kept up, given a random number.
    pub fn on_link(&mut self, ev: LinkEvent, random: u64) -> (r: LinkStep)
        requires
            old(self).wf(),
        ensures
            final(self).wf(),
            (final(self).step, r) == link_next(old(self).step, ev, random),
    {
        let action = match ev {
            LinkEvent::Connected => {
                self.reset();
                return LinkStep { tell: Some(true), action: WireAction::GoOn, wait_ms: 0 };
            },
            LinkEvent::ConnectFailed => WireAction::Reconnect,
            LinkEvent::Wire(w) => react(w),
        };
        if action == WireAction::Reconnect {
            let wait_ms = self.wait_ms(random);
            LinkStep { tell: Some(false), action, wait_ms }
        } else {
            LinkStep { tell: None, action, wait_ms: 0 }
        }
    }
}

/// A connection that stood starts over with the shortest waits; one that keeps failing waits longer and
/// longer, and never longer than the limit.
pub proof fn law_waits_are_bounded(step: u64, random: u64)
    requires
        1 <= step <= MAX_BACKOFF,
    ensures
        link_next(step, LinkEvent::Connected, random).0 == 1,
        ({
            let (next, s) = link_next(step, LinkEvent::ConnectFailed, random);
            &&& step <= next <= MAX_BACKOFF
            &&& 500 <= s.wait_ms < 13_300
            &&& wait_at(next, random) >= s.wait_ms
        }),
{
}

/// What is read out of an address.
#[derive(Debug)]
pub struct UrlParts {
    pub host: Option<String>,
    pub port: Option<u16>,
}

/// The host and the port that `url::Url::parse` finds in an address, the port with the one that its
/// scheme stands for; `None` where it refuses the address.
pub uninterp spec fn url_parts(text: Seq<char>) -> Option<(Option<Seq<char>>, Option<u16>)>;

/// What is read out of an address, said in plain values.
pub open spec fn parts_said(p: Option<UrlParts>) -> Option<(Option<Seq<char>>, Option<u16>)> {
    match p {
        Some(u) => Some((crate::text::opt_view(u.host), u.port)),
        None => None,
    }
}

/// Calls `url::Url::parse`, `host_str` and `port_or_known_default`. Claimed of them: what they find
/// is a function of the text.
#[verifier::external_body]
pub(crate) fn parse_url(text: &str) -> (r: Option<UrlParts>)
    ensures
        parts_said(r) == url_parts(text@),
{
    let u = url::Url::parse(text).ok()?;
    Some(UrlParts { host: u.host_str().map(|h| h.to_string()), port: u.port_or_known_default() })
}

/// Why an address cannot be dialled.
#[derive(Clone, Copy, Debug, PartialEq, Eq, Structural)]
pub enum UrlFault {
    Unreadable,
    NoHost,
}

/// The host and the port of what was read out of an address; port 443 where it has none.
pub fn host_port(parts: Option<UrlParts>) -> (r: Result<(String, u16), UrlFault>)
    ensures
        match parts_said(parts) {
            None => r == Err::<(String, u16), UrlFault>(UrlFault::Unreadable),
            Some((None, _)) => r == Err::<(String, u16), UrlFault>(UrlFault::NoHost),
            Some((Some(h), p)) => r matches Ok(v) && v.0@ == h && v.1 == (match p {
                Some(n) => n,
                None => 443,
            }),
        },
{
    match parts {
        None => Err(UrlFault::Unreadable),
        Some(u) => match u.host {
            None => Err(UrlFault::NoHost),
            Some(h) => Ok(
                (
                    h,
                    match u.port {
                        Some(n) => n,
                        None => 443,
                    },
                ),
            ),
        },
    }
}

/// The host and the port that an address means.
pub fn ws_host_port(url: &str) -> (r: Result<(String, u16), UrlFault>)
    ensures
        match url_parts(url@) {
            None => r == Err::<(String, u16), UrlFault>(UrlFault::Unreadable),
            Some((None, _)) => r == Err::<(String, u16), UrlFault>(UrlFault::NoHost),
            Some((Some(h), p)) => r matches Ok(v) && v.0@ == h && v.1 == (match p {
                Some(n) => n,
                None => 443,
            }),
        },
{
    host_port(parse_url(url))
}

/// An address that a name was resolved to.
#[derive(Debug)]
pub struct HostAddr {
    pub ip: String,
    pub port: u16,
}

impl Clone for HostAddr {
    fn clone(&self) -> (r: Self)
        ensures
            r == *self,
    {
        HostAddr { ip: self.ip.clone(), port: self.port }
    }
}

/// Some address of a list has that number.
pub open spec fn ip_seen(v: Seq<HostAddr>, ip: Seq<char>) -> bool {
    exists|i: int| 0 <= i < v.len() && (#[trigger] v[i]).ip@ == ip
}

/// The addresses of a list whose number no earlier one has.
pub open spec fn firsts(v: Seq<HostAddr>) -> Seq<HostAddr>
    decreases v.len(),
{
    if v.len() == 0 {
        Seq::empty()
    } else if ip_seen(v.drop_last(), v.last().ip@) {
        firsts(v.drop_last())
    } else {
        firsts(v.drop_last()).push(v.last())
    }
}

/// The numbers of a list's addresses.
pub open spec fn ips_of(v: Seq<HostAddr>) -> Set<Seq<char>> {
    v.map_values(|a: HostAddr| a.ip@).to_set()
}

/// The smaller of a number and a limit.
pub open spec fn up_to(n: nat, limit: usize) -> int {
    if n <= limit {
        n as int
    } else {
        limit as int
    }
}

fn has_ip(v: &Vec<HostAddr>, n: usize, ip: &str) -> (r: bool)
    requires
        n <= v@.len(),
    ensures
        r == ip_seen(v@.take(n as int), ip@),
{
    let mut i: usize = 0;
    while i < n
        invariant
            i <= n <= v@.len(),
            forall|j: int| 0 <= j < i ==> (#[trigger] v@.take(n as int)[j]).ip@ != ip@,
        decreases n - i,
    {
        if same_text(&v[i].ip, ip) {
            assert(v@.take(n as int)[i as int].ip@ == ip@);
            return true;
        }
        i = i + 1;
    }
    false
}

/// The addresses of the first `limit` numbers of a list, each the first of its number.
pub fn unique_addrs(addrs: &Vec<HostAddr>, limit: usize) -> (r: Vec<HostAddr>)
    ensures
        r@ == firsts(addrs@).take(up_to(firsts(addrs@).len(), limit)),
        r@.len() == up_to(ips_of(addrs@).len(), limit),
{
    let mut out: Vec<HostAddr> = Vec::new();
    let mut i: usize = 0;
    let ghost v = addrs@;
    assert(v.take(0) =~= Seq::<HostAddr>::empty());
    proof {
        law_addresses_are_distinct(v);
    }
    while i < addrs.len()
        invariant
            i <= addrs.len(),
            v == addrs@,
            out@ == firsts(v.take(i as int)),
            out@.len() <= limit,
            firsts(v).len() == ips_of(v).len(),
        decreases addrs.len() - i,
    {
        if out.len() >= limit {
            proof {
                lemma_firsts_prefix(v, i as int);
                assert(out@ =~= firsts(v).take(limit as int));
            }
            return out;
        }
        let a = &addrs[i];
        assert(v.take(i + 1).drop_last() =~= v.take(i as int));
        if !has_ip(addrs, i, &a.ip) {
            out.push(a.clone());
        }
        i = i + 1;
    }
    assert(v.take(i as int) =~= v);
    assert(firsts(v).take(firsts(v).len() as int) =~= firsts(v));
    out
}

proof fn lemma_firsts_prefix(v: Seq<HostAddr>, n: int)
    requires
        0 <= n <= v.len(),
    ensures
        firsts(v.take(n)).len() <= firsts(v).len(),
        firsts(v).take(firsts(v.take(n)).len() as int) == firsts(v.take(n)),
    decreases v.len() - n,
{
    if n == v.len() {
        assert(v.take(n) =~= v);
        assert(firsts(v).take(firsts(v).len() as int) =~= firsts(v));
    } else {
        lemma_firsts_prefix(v, n + 1);
        let longer = v.take(n + 1);
        assert(longer.drop_last() =~= v.take(n));
        let k = firsts(v.take(n)).len() as int;
        assert(firsts(v).take(k) =~= firsts(longer).take(k));
        assert(firsts(longer).take(k) =~= firsts(v.take(n)));
    }
}

/// Of the first addresses of their numbers no two have the same one, each number of the list is that of
/// one of them, so that there are as many as numbers, and they stand in the order of the list.
pub proof fn law_addresses_are_distinct(v: Seq<HostAddr>)
    ensures
        firsts(v).len() == ips_of(v).len(),
        forall|a: int, b: int|
            0 <= a < b < firsts(v).len() ==> (#[trigger] firsts(v)[a]).ip@ != (#[trigger] firsts(
                v,
            )[b]).ip@,
        forall|ip: Seq<char>| #[trigger] ip_seen(firsts(v), ip) == ip_seen(v, ip),
        exists|at: Seq<int>| #[trigger] picked(v, at) && firsts(v) == at.map_values(|k: int| v[k]),
    decreases v.len(),
{
    let names = |a: HostAddr| a.ip@;
    if v.len() == 0 {
        assert(v.map_values(names).to_set() =~= Set::<Seq<char>>::empty());
        let at = Seq::<int>::empty();
        assert(picked(v, at) && firsts(v) =~= at.map_values(|k: int| v[k]));
    } else {
        let w = v.drop_last();
        let last = v.last();
        law_addresses_are_distinct(w);
        let old_at = choose|at: Seq<int>| #[trigger] picked(w, at) && firsts(w) == at.map_values(
            |k: int| w[k],
        );
        assert forall|ip: Seq<char>| ip_seen(v, ip) == (ip_seen(w, ip) || last.ip@ == ip) by {
            if ip_seen(v, ip) {
                let k = choose|k: int| 0 <= k < v.len() && (#[trigger] v[k]).ip@ == ip;
                if k < w.len() {
                    assert(w[k].ip@ == ip);
                }
            }
            if ip_seen(w, ip) {
                let k = choose|k: int| 0 <= k < w.len() && (#[trigger] w[k]).ip@ == ip;
                assert(v[k].ip@ == ip);
            }
            assert(v[v.len() - 1].ip@ == last.ip@);
        }
        lemma_ips(v);
        lemma_ips(w);
        assert(ips_of(v) =~= ips_of(w).insert(last.ip@));
        if ip_seen(w, last.ip@) {
            assert(ips_of(v) =~= ips_of(w));
            assert(picked(v, old_at));
            assert(firsts(v) =~= old_at.map_values(|k: int| v[k]));
        } else {
            let f = firsts(w);
            let g = firsts(v);
            let at = old_at.push(w.len() as int);
            assert(picked(v, at));
            assert(g =~= at.map_values(|k: int| v[k]));
            assert forall|a: int, b: int| 0 <= a < b < g.len() implies (#[trigger] g[a]).ip@ != (
            #[trigger] g[b]).ip@ by {
                if b == f.len() {
                    assert(f[a] == g[a]);
                    assert(ip_seen(f, f[a].ip@));
                } else {
                    assert(f[a] == g[a] && f[b] == g[b]);
                }
            }
            assert forall|ip: Seq<char>| #[trigger] ip_seen(g, ip) == ip_seen(v, ip) by {
                if ip_seen(g, ip) {
                    let k = choose|k: int| 0 <= k < g.len() && (#[trigger] g[k]).ip@ == ip;
                    if k < f.len() {
                        assert(f[k].ip@ == ip);
                    }
                }
                if ip_seen(f, ip) {
                    let k = choose|k: int| 0 <= k < f.len() && (#[trigger] f[k]).ip@ == ip;
                    assert(g[k].ip@ == ip);
                }
                assert(g[f.len() as int].ip@ == last.ip@);
            }
        }
    }
}

/// Places of a list, each after the one before.
pub open spec fn picked(v: Seq<HostAddr>, at: Seq<int>) -> bool {
    &&& forall|i: int| 0 <= i < at.len() ==> 0 <= #[trigger] at[i] < v.len()
    &&& forall|i: int, j: int| 0 <= i < j < at.len() ==> #[trigger] at[i] < #[trigger] at[j]
}

proof fn lemma_ips(v: Seq<HostAddr>)
    ensures
        ips_of(v).finite(),
        forall|ip: Seq<char>| #[trigger] ips_of(v).contains(ip) == ip_seen(v, ip),
{
    let names = v.map_values(|a: HostAddr| a.ip@);
    vstd::seq_lib::seq_to_set_is_finite(names);
    assert forall|ip: Seq<char>| #[trigger] ips_of(v).contains(ip) == ip_seen(v, ip) by {
        if ip_seen(v, ip) {
            let k = choose|k: int| 0 <= k < v.len() && (#[trigger] v[k]).ip@ == ip;
            assert(names[k] == ip);
        }
        if names.contains(ip) {
            let k = choose|k: int| 0 <= k < names.len() && names[k] == ip;
            assert(v[k].ip@ == ip);
        }
    }
}

/// Whole milliseconds of a time, read as an unsigned number.
pub open spec fn unsigned_millis_of(t: Ts) -> int {
    as_unsigned(cut_quotient(t.0 as int, 1_000_000))
}

/// Whole seconds since the Unix epoch, as the system's clock shows them.
pub fn now_secs() -> (r: u64)
    ensures
        r <= u64::MAX / 1000,
        exists|t: Ts| r == #[trigger] unsigned_millis_of(t) / 1000,
{
    let t = Ts::now_system();
    let r = t.unsigned_secs();
    assert(r == unsigned_millis_of(t) / 1000);
    r
}

/// Whole milliseconds since the Unix epoch, as the system's clock shows them. Which time that is
/// is left unsaid.
pub fn now_millis() -> (r: u64)
    ensures
        exists|t: Ts| r == #[trigger] unsigned_millis_of(t),
{
    let t = Ts::now_system();
    let r = t.unsigned_millis();
    assert(r == unsigned_millis_of(t));
    r
}

/// The decimal that a text writes out.
pub fn parse_dec(s: &str) -> (r: Option<Decimal>)
    ensures
        r == decimal_parsed(s@),
{
    Decimal::parse(s)
}

} // verus!
