//! Passwords, tickets, lockouts and sessions.
use crate::auth::token::{
    cookie_header, cookie_line, cookie_value, header_value, session_token, sign_session, token_user,
    verify_session, COOKIE_NAME,
};
use crate::auth::totp::{
    accepts, code_at, enrol_address, enrol_picture, law_shown_code_is_accepted, otpauth_url, qr_svg,
    totp_accepts, totp_key,
};
use crate::codec::{ct_same, hmac_hex, mac_text, new_uuid, text_bytes, uuid_text};
use crate::exchange::session::now_secs;
use crate::table::TextMap;
use crate::text::{opt_view, trim, trimmed};
use vstd::prelude::*;
use vstd::utf8::encode_utf8;

verus! {

/// How long a ticket waits for its code.
pub const TICKET_TTL_SECS: u64 = 300;

/// How long a session lasts.
pub const SESSION_TTL_SECS: u64 = 43_200;

/// How many failures lock a name.
pub const MAX_FAILS: u32 = 8;

/// How long a name stays locked.
pub const LOCK_SECS: u64 = 60;

/// Whether logins are asked for, and whether an authenticator has been enrolled.
#[derive(Clone, Copy, Debug, PartialEq, Eq)]
pub struct AuthStatus {
    pub enabled: bool,
    pub enrolled: bool,
}

/// What a right password gets: a ticket, and at the first login what enrols an authenticator.
#[derive(Debug)]
pub struct LoginOutcome {
    pub ticket: String,
    pub enroll: bool,
    pub otpauth_url: Option<String>,
    pub secret: Option<String>,
    pub qr_svg: Option<String>,
}

/// A `LoginOutcome`.
pub struct OutcomeV {
    pub ticket: Seq<char>,
    pub enroll: bool,
    pub otpauth_url: Option<Seq<char>>,
    pub secret: Option<Seq<char>>,
    pub qr_svg: Option<Seq<char>>,
}

impl View for LoginOutcome {
    type V = OutcomeV;

    open spec fn view(&self) -> OutcomeV {
        OutcomeV {
            ticket: self.ticket@,
            enroll: self.enroll,
            otpauth_url: opt_view(self.otpauth_url),
            secret: opt_view(self.secret),
            qr_svg: opt_view(self.qr_svg),
        }
    }
}

/// What a right code gets: the token of a session, and whether the code enrolled the authenticator.
#[derive(Debug)]
pub struct Verified {
    pub token: String,
    pub enrolled: bool,
}

/// Why somebody is not let in.
#[derive(Debug, Clone, Copy, PartialEq, Eq, Structural)]
pub enum AuthError {
    Denied,
    Locked,
    Disabled,
}

/// A ticket that waits for its code.
#[derive(Debug, Clone, Copy)]
pub struct Pending {
    pub exp: u64,
    pub enroll: bool,
}

/// The failures of a name.
#[derive(Debug, Clone, Copy)]
pub struct FailState {
    pub fails: u32,
    pub locked_until: u64,
}

/// Who keeps the door.
pub struct Auth {
    pub enabled: bool,
    pub username: String,
    pub password_key: Vec<u8>,
    pub password_hash: String,
    pub totp_secret: String,
    pub totp_enrolled: bool,
    pub session_secret: Vec<u8>,
    pub cookie_secure: bool,
    pub pending: TextMap<Pending>,
    pub fails: TextMap<FailState>,
}

/// An `Auth`.
pub struct AuthV {
    pub enabled: bool,
    pub username: Seq<char>,
    pub password_key: Seq<u8>,
    pub password_hash: Seq<char>,
    pub totp_secret: Seq<char>,
    pub totp_enrolled: bool,
    pub session_secret: Seq<u8>,
    pub cookie_secure: bool,
    pub pending: Map<Seq<char>, Pending>,
    pub fails: Map<Seq<char>, FailState>,
}

impl View for Auth {
    type V = AuthV;

    open spec fn view(&self) -> AuthV {
        AuthV {
            enabled: self.enabled,
            username: self.username@,
            password_key: self.password_key@,
            password_hash: self.password_hash@,
            totp_secret: self.totp_secret@,
            totp_enrolled: self.totp_enrolled,
            session_secret: self.session_secret@,
            cookie_secure: self.cookie_secure,
            pending: self.pending@,
            fails: self.fails@,
        }
    }
}

/// The failures of a name; none where none are known.
pub open spec fn fails_of(m: Map<Seq<char>, FailState>, user: Seq<char>) -> FailState {
    if m.contains_key(user) {
        m[user]
    } else {
        FailState { fails: 0, locked_until: 0 }
    }
}

/// Nobody has as many failures as lock a name.
pub open spec fn fails_sound(m: Map<Seq<char>, FailState>) -> bool {
    forall|user: Seq<char>| #[trigger] m.contains_key(user) ==> m[user].fails < MAX_FAILS
}

/// The name is locked.
pub open spec fn is_locked(m: Map<Seq<char>, FailState>, user: Seq<char>, now: u64) -> bool {
    fails_of(m, user).locked_until > now
}

/// The failures after one more: the last one allowed locks the name and starts the count again.
pub open spec fn one_more_fail(m: Map<Seq<char>, FailState>, user: Seq<char>, now: u64) -> Map<
    Seq<char>,
    FailState,
> {
    let st = fails_of(m, user);
    if st.locked_until > now {
        m
    } else if st.fails + 1 >= MAX_FAILS {
        m.insert(user, FailState { fails: 0, locked_until: (now + LOCK_SECS) as u64 })
    } else {
        m.insert(
            user,
            FailState { fails: (st.fails + 1) as u32, locked_until: st.locked_until },
        )
    }
}

/// The tickets that have not ended.
pub open spec fn live_tickets(m: Map<Seq<char>, Pending>, now: u64) -> Map<Seq<char>, Pending> {
    Map::new(|k: Seq<char>| m.contains_key(k) && m[k].exp > now, |k: Seq<char>| m[k])
}

/// The password is the right one.
pub open spec fn password_right(a: AuthV, password: Seq<char>) -> bool {
    mac_text(a.password_key, encode_utf8(password)) == a.password_hash
}

/// What a right password gets.
pub open spec fn outcome(a: AuthV, ticket: Seq<char>) -> OutcomeV {
    if a.totp_enrolled {
        OutcomeV { ticket, enroll: false, otpauth_url: None, secret: None, qr_svg: None }
    } else {
        let url = enrol_address(a.username, a.totp_secret);
        OutcomeV {
            ticket,
            enroll: true,
            otpauth_url: Some(url),
            secret: Some(a.totp_secret),
            qr_svg: enrol_picture(url),
        }
    }
}

/// A name and a password, given at a time; `ticket` is the ticket that a right password gets.
pub open spec fn logged_in(
    a: AuthV,
    user: Seq<char>,
    password: Seq<char>,
    now: u64,
    ticket: Seq<char>,
) -> (AuthV, Result<OutcomeV, AuthError>) {
    if !a.enabled {
        (a, Err(AuthError::Disabled))
    } else if is_locked(a.fails, user, now) {
        (a, Err(AuthError::Locked))
    } else if user != a.username || !password_right(a, password) {
        (AuthV { fails: one_more_fail(a.fails, user, now), ..a }, Err(AuthError::Denied))
    } else {
        (
            AuthV {
                fails: a.fails.remove(user),
                pending: live_tickets(a.pending, now).insert(
                    ticket,
                    Pending { exp: (now + TICKET_TTL_SECS) as u64, enroll: !a.totp_enrolled },
                ),
                ..a
            },
            Ok(outcome(a, ticket)),
        )
    }
}

/// A ticket and a code, given at a time: the token of a session, and whether the authenticator has been
/// enrolled by it.
pub open spec fn code_given(a: AuthV, ticket: Seq<char>, code: Seq<char>, now: u64) -> (
    AuthV,
    Result<(Seq<char>, bool), AuthError>,
) {
    let live = live_tickets(a.pending, now);
    if !a.enabled {
        (a, Err(AuthError::Disabled))
    } else if !live.contains_key(ticket) {
        (AuthV { pending: live, ..a }, Err(AuthError::Denied))
    } else if !accepts(a.totp_secret, trimmed(code), now) {
        (
            AuthV {
                pending: live.remove(ticket),
                fails: one_more_fail(a.fails, a.username, now),
                ..a
            },
            Err(AuthError::Denied),
        )
    } else {
        (
            AuthV {
                pending: live.remove(ticket),
                fails: a.fails.remove(a.username),
                totp_enrolled: a.totp_enrolled || live[ticket].enroll,
                ..a
            },
            Ok(
                (
                    session_token(
                        a.session_secret,
                        a.username,
                        (now + SESSION_TTL_SECS) as u64,
                    ),
                    live[ticket].enroll,
                ),
            ),
        )
    }
}

/// Whom a request's cookies let in.
pub open spec fn let_in(a: AuthV, cookies: Option<Seq<char>>, now: u64) -> Option<Seq<char>> {
    if !a.enabled {
        Some(a.username)
    } else {
        match cookies {
            Some(raw) => match header_value(raw, COOKIE_NAME@) {
                Some(token) => token_user(a.session_secret, a.username, token, now),
                None => None,
            },
            None => None,
        }
    }
}

/// What an optional text says.
pub open spec fn opt_str(s: Option<&str>) -> Option<Seq<char>> {
    match s {
        Some(t) => Some(t@),
        None => None,
    }
}

/// What a login says.
pub open spec fn login_view(r: Result<LoginOutcome, AuthError>) -> Result<OutcomeV, AuthError> {
    match r {
        Ok(o) => Ok(o@),
        Err(e) => Err(e),
    }
}

/// What a code's answer says.
pub open spec fn verified_view(r: Result<Verified, AuthError>) -> Result<
    (Seq<char>, bool),
    AuthError,
> {
    match r {
        Ok(v) => Ok((v.token@, v.enrolled)),
        Err(e) => Err(e),
    }
}

/// Only the tickets that have not ended.
fn keep_live(m: &TextMap<Pending>, now: u64) -> (r: TextMap<Pending>)
    requires
        m.wf(),
    ensures
        r.wf(),
        r@ == live_tickets(m@, now),
{
    let mut out: TextMap<Pending> = TextMap::new();
    let mut i: usize = 0;
    while i < m.entries.len()
        invariant
            i <= m.entries@.len(),
            m.wf(),
            out.wf(),
            out@ == live_tickets(crate::table::table_of(m.entries@.take(i as int)), now),
        decreases m.entries@.len() - i,
    {
        let p: Pending = m.entries[i].1;
        proof {
            crate::table::lemma_take_next(m.entries@, i as int);
        }
        if p.exp > now {
            out.put(m.entries[i].0.as_str(), p);
        }
        i = i + 1;
        assert(out@ =~= live_tickets(crate::table::table_of(m.entries@.take(i as int)), now));
    }
    assert(m.entries@.take(i as int) =~= m.entries@);
    out
}

/// Nobody is asked for anything.
pub open spec fn nobody_asked() -> AuthV {
    AuthV {
        enabled: false,
        username: "local"@,
        password_key: Seq::new(32, |i: int| 0u8),
        password_hash: ""@,
        totp_secret: ""@,
        totp_enrolled: true,
        session_secret: Seq::new(32, |i: int| 0u8),
        cookie_secure: false,
        pending: Map::empty(),
        fails: Map::empty(),
    }
}

impl Auth {
    /// The tables are sound.
    pub open spec fn wf(self) -> bool {
        self.pending.wf() && self.fails.wf() && fails_sound(self.fails@)
    }

    /// Nobody is asked for anything.
    pub fn disabled() -> (r: Self)
        ensures
            r.wf(),
            r@ == nobody_asked(),
    {
        let r = Auth {
            enabled: false,
            username: "local".to_owned(),
            password_key: zeros(32),
            password_hash: "".to_owned(),
            totp_secret: "".to_owned(),
            totp_enrolled: true,
            session_secret: zeros(32),
            cookie_secure: false,
            pending: TextMap::new(),
            fails: TextMap::new(),
        };
        r
    }

    pub fn status(&self) -> (r: AuthStatus)
        ensures
            r == (AuthStatus { enabled: self.enabled, enrolled: self.totp_enrolled }),
    {
        AuthStatus { enabled: self.enabled, enrolled: self.totp_enrolled }
    }

    /// Whom a request's cookies let in; everybody where nobody is asked for anything.
    pub fn session_user(&self, cookies: Option<&str>, now: u64) -> (r: Option<String>)
        ensures
            opt_view(r) == let_in(self@, opt_str(cookies), now),
    {
        if !self.enabled {
            return Some(self.username.clone());
        }
        match cookies {
            Some(raw) => {
                let token = cookie_value(raw, COOKIE_NAME)?;
                self.verify_session(token.as_str(), now)
            },
            None => None,
        }
    }

    /// Whether a request's cookies let anybody in.
    pub fn session_ok(&self, cookies: Option<&str>, now: u64) -> (r: bool)
        ensures
            r == (let_in(self@, opt_str(cookies), now) is Some),
    {
        self.session_user(cookies, now).is_some()
    }

    fn password_matches(&self, password: &str) -> (r: bool)
        ensures
            r == password_right(self@, password@),
    {
        let got = hmac_hex(&self.password_key, &text_bytes(password));
        ct_same(got.as_str(), self.password_hash.as_str())
    }

    /// Whether a name may try.
    pub fn check_lock(&self, username: &str, now: u64) -> (r: Result<(), AuthError>)
        ensures
            r == (if is_locked(self@.fails, username@, now) {
                Err(AuthError::Locked)
            } else {
                Ok(())
            }),
    {
        match self.fails.get(username) {
            Some(st) => {
                if st.locked_until > now {
                    return Err(AuthError::Locked);
                }
            },
            None => {},
        }
        Ok(())
    }

    /// Counts a failure.
    pub fn record_fail(&mut self, username: &str, now: u64)
        requires
            old(self).wf(),
            now <= u64::MAX - LOCK_SECS,
        ensures
            final(self).wf(),
            final(self)@ == (AuthV {
                fails: one_more_fail(old(self)@.fails, username@, now),
                ..old(self)@
            }),
    {
        let st: FailState = match self.fails.get(username) {
            Some(st) => st,
            None => FailState { fails: 0, locked_until: 0 },
        };
        if st.locked_until > now {
            return;
        }
        let ghost before = self.fails@;
        let next = if st.fails + 1 >= MAX_FAILS {
            FailState { fails: 0, locked_until: now + LOCK_SECS }
        } else {
            FailState { fails: st.fails + 1, locked_until: st.locked_until }
        };
        self.fails.put(username, next);
        assert(fails_sound(self.fails@)) by {
            assert forall|u: Seq<char>| #[trigger] self.fails@.contains_key(u) implies self.fails@[u].fails
                < MAX_FAILS by {
                if u != username@ {
                    assert(before.contains_key(u));
                }
            }
        }
    }

    /// Forgets the failures of a name.
    pub fn clear_fails(&mut self, username: &str)
        requires
            old(self).wf(),
        ensures
            final(self).wf(),
            final(self)@ == (AuthV { fails: old(self)@.fails.remove(username@), ..old(self)@ }),
    {
        let ghost before = self.fails@;
        let _ = self.fails.remove(username);
        assert(fails_sound(self.fails@)) by {
            assert forall|u: Seq<char>| #[trigger] self.fails@.contains_key(u) implies self.fails@[u].fails
                < MAX_FAILS by {
                assert(before.contains_key(u));
            }
        }
    }

    /// A name and a password, given at a time; `ticket` is the ticket that a right password gets.
    pub fn login_at(&mut self, username: &str, password: &str, now: u64, ticket: &str) -> (r: Result<
        LoginOutcome,
        AuthError,
    >)
        requires
            old(self).wf(),
            now <= u64::MAX - TICKET_TTL_SECS,
        ensures
            final(self).wf(),
            (final(self)@, login_view(r)) == logged_in(
                old(self)@,
                username@,
                password@,
                now,
                ticket@,
            ),
    {
        if !self.enabled {
            return Err(AuthError::Disabled);
        }
        self.check_lock(username, now)?;
        if !ct_same(username, self.username.as_str()) || !self.password_matches(password) {
            self.record_fail(username, now);
            return Err(AuthError::Denied);
        }
        self.clear_fails(username);
        let enroll = !self.totp_enrolled;
        self.pending = keep_live(&self.pending, now);
        self.pending.put(ticket, Pending { exp: now + TICKET_TTL_SECS, enroll });
        if enroll {
            let url = otpauth_url(self.username.as_str(), self.totp_secret.as_str());
            let picture = qr_svg(url.as_str());
            Ok(
                LoginOutcome {
                    ticket: ticket.to_owned(),
                    enroll: true,
                    otpauth_url: Some(url),
                    secret: Some(self.totp_secret.clone()),
                    qr_svg: picture,
                },
            )
        } else {
            Ok(
                LoginOutcome {
                    ticket: ticket.to_owned(),
                    enroll: false,
                    otpauth_url: None,
                    secret: None,
                    qr_svg: None,
                },
            )
        }
    }

    /// A name and a password, given now.
    pub fn login(&mut self, username: &str, password: &str) -> (r: Result<LoginOutcome, AuthError>)
        requires
            old(self).wf(),
        ensures
            final(self).wf(),
            exists|now: u64, ticket: Seq<char>|
                now <= u64::MAX / 1000 && uuid_text(ticket) && (final(self)@, login_view(r))
                    == #[trigger] logged_in(
                    old(self)@,
                    username@,
                    password@,
                    now,
                    ticket,
                ),
    {
        let now = now_secs();
        let ticket = new_uuid();
        self.login_at(username, password, now, ticket.as_str())
    }

    /// A ticket and a code, given at a time.
    pub fn verify_at(&mut self, ticket: &str, code: &str, now: u64) -> (r: Result<
        Verified,
        AuthError,
    >)
        requires
            old(self).wf(),
            now <= u64::MAX - SESSION_TTL_SECS,
        ensures
            final(self).wf(),
            (final(self)@, verified_view(r)) == code_given(old(self)@, ticket@, code@, now),
            r matches Ok(v) ==> forall|t: u64| #[trigger]
                token_user(old(self)@.session_secret, old(self)@.username, v.token@, t) == (if t
                    < now + SESSION_TTL_SECS {
                    Some(old(self)@.username)
                } else {
                    None
                }),
    {
        if !self.enabled {
            return Err(AuthError::Disabled);
        }
        self.pending = keep_live(&self.pending, now);
        let pending = match self.pending.remove(ticket) {
            Some(p) => p,
            None => {
                assert(self.pending@ =~= live_tickets(old(self)@.pending, now));
                return Err(AuthError::Denied);
            },
        };
        let username = self.username.clone();
        if !totp_accepts(self.totp_secret.as_str(), trim(code).as_str(), now) {
            self.record_fail(username.as_str(), now);
            return Err(AuthError::Denied);
        }
        self.clear_fails(username.as_str());
        if pending.enroll {
            self.totp_enrolled = true;
        }
        Ok(
            Verified {
                token: sign_session(
                    &self.session_secret,
                    username.as_str(),
                    now + SESSION_TTL_SECS,
                ),
                enrolled: pending.enroll,
            },
        )
    }

    /// A ticket and a code, given now: the token of a session.
    pub fn verify(&mut self, ticket: &str, code: &str) -> (r: Result<String, AuthError>)
        requires
            old(self).wf(),
        ensures
            final(self).wf(),
            exists|now: u64|
                {
                    let (a, out) = #[trigger] code_given(old(self)@, ticket@, code@, now);
                    &&& now <= u64::MAX / 1000
                    &&& final(self)@ == a
                    &&& match r {
                        Ok(token) => out is Ok && token@ == (out->Ok_0).0 && forall|t: u64| #[trigger]
                            token_user(
                                old(self)@.session_secret,
                                old(self)@.username,
                                token@,
                                t,
                            ) == (if t < now + SESSION_TTL_SECS {
                                Some(old(self)@.username)
                            } else {
                                None
                            }),
                        Err(e) => out == Err::<(Seq<char>, bool), AuthError>(e),
                    }
                },
    {
        let now = now_secs();
        let r = self.verify_at(ticket, code, now);
        assert(code_given(old(self)@, ticket@, code@, now) == (self@, verified_view(r)));
        match r {
            Ok(v) => Ok(v.token),
            Err(e) => Err(e),
        }
    }

    /// The cookie that ends a session.
    pub fn logout_cookie(&self) -> (r: String)
        ensures
            r@ == cookie_line(""@, 0, self.cookie_secure),
    {
        cookie_header("", 0, self.cookie_secure)
    }

    /// The cookie that carries a session.
    pub fn session_cookie(&self, token: &str) -> (r: String)
        ensures
            r@ == cookie_line(token@, SESSION_TTL_SECS as int, self.cookie_secure),
    {
        cookie_header(token, SESSION_TTL_SECS as i64, self.cookie_secure)
    }

    /// The token of a session of a name, which lets the keeper's own name in until it ends.
    pub fn sign_session(&self, username: &str, exp: u64) -> (r: String)
        ensures
            r@ == session_token(self@.session_secret, username@, exp),
            forall|now: u64| #[trigger]
                token_user(self@.session_secret, self@.username, r@, now) == (if now < exp && username@
                    == self@.username {
                    Some(username@)
                } else {
                    None
                }),
    {
        sign_session(&self.session_secret, username, exp)
    }

    /// Whom a token lets in.
    pub fn verify_session(&self, token: &str, now: u64) -> (r: Option<String>)
        ensures
            opt_view(r) == token_user(self@.session_secret, self@.username, token@, now),
    {
        verify_session(&self.session_secret, self.username.as_str(), token, now)
    }
}

fn zeros(n: usize) -> (r: Vec<u8>)
    ensures
        r@ == Seq::new(n as nat, |i: int| 0u8),
{
    let mut v: Vec<u8> = Vec::new();
    let mut i: usize = 0;
    while i < n
        invariant
            i <= n,
            v@ == Seq::new(i as nat, |j: int| 0u8),
        decreases n - i,
    {
        v.push(0);
        i = i + 1;
        assert(v@ =~= Seq::new(i as nat, |j: int| 0u8));
    }
    v
}

/// The failures after failures at several times.
pub open spec fn many_fails(m: Map<Seq<char>, FailState>, user: Seq<char>, times: Seq<u64>) -> Map<
    Seq<char>,
    FailState,
>
    decreases times.len(),
{
    if times.len() == 0 {
        m
    } else {
        one_more_fail(many_fails(m, user, times.drop_last()), user, times.last())
    }
}

proof fn lemma_fails_count(m: Map<Seq<char>, FailState>, user: Seq<char>, times: Seq<u64>)
    requires
        fails_of(m, user).fails == 0,
        times.len() < MAX_FAILS,
        forall|i: int|
            0 <= i < times.len() ==> fails_of(m, user).locked_until <= #[trigger] times[i],
    ensures
        fails_of(many_fails(m, user, times), user) == (FailState {
            fails: times.len() as u32,
            locked_until: fails_of(m, user).locked_until,
        }),
    decreases times.len(),
{
    if times.len() > 0 {
        lemma_fails_count(m, user, times.drop_last());
        assert(times.last() == times[times.len() - 1]);
    }
}

/// As many failures as are allowed, one after the other, lock a name for as long as a lock lasts, from
/// the last of them on: no password is looked at before then, and nothing changes.
pub proof fn law_failures_lock(
    a: AuthV,
    user: Seq<char>,
    times: Seq<u64>,
    password: Seq<char>,
    now: u64,
    ticket: Seq<char>,
)
    requires
        a.enabled,
        fails_of(a.fails, user).fails == 0,
        times.len() == MAX_FAILS,
        forall|i: int|
            0 <= i < times.len() ==> fails_of(a.fails, user).locked_until <= #[trigger] times[i] <= u64::MAX
                - LOCK_SECS,
    ensures
        ({
            let b = AuthV { fails: many_fails(a.fails, user, times), ..a };
            &&& now < times.last() + LOCK_SECS ==> logged_in(b, user, password, now, ticket) == (
                b,
                Err::<OutcomeV, AuthError>(AuthError::Locked),
            )
            &&& now >= times.last() + LOCK_SECS ==> logged_in(b, user, password, now, ticket).1
                != Err::<OutcomeV, AuthError>(AuthError::Locked)
        }),
{
    lemma_fails_count(a.fails, user, times.drop_last());
    assert(times.last() == times[times.len() - 1]);
}

/// Fewer failures lock nobody.
pub proof fn law_few_failures_do_not_lock(
    m: Map<Seq<char>, FailState>,
    user: Seq<char>,
    times: Seq<u64>,
    now: u64,
)
    requires
        fails_of(m, user).fails == 0,
        times.len() < MAX_FAILS,
        fails_of(m, user).locked_until <= now,
        forall|i: int|
            0 <= i < times.len() ==> fails_of(m, user).locked_until <= #[trigger] times[i],
    ensures
        !is_locked(many_fails(m, user, times), user, now),
{
    lemma_fails_count(m, user, times);
}

/// The failures of one name say nothing of another.
pub proof fn law_failures_are_per_name(
    m: Map<Seq<char>, FailState>,
    user: Seq<char>,
    other: Seq<char>,
    times: Seq<u64>,
)
    requires
        user != other,
    ensures
        fails_of(many_fails(m, user, times), other) == fails_of(m, other),
    decreases times.len(),
{
    if times.len() > 0 {
        law_failures_are_per_name(m, user, other, times.drop_last());
    }
}

/// A ticket serves once: whatever the first code was, the second is denied.
pub proof fn law_ticket_serves_once(
    a: AuthV,
    ticket: Seq<char>,
    first: Seq<char>,
    now: u64,
    second: Seq<char>,
    later: u64,
)
    requires
        a.enabled,
    ensures
        code_given(code_given(a, ticket, first, now).0, ticket, second, later).1 == Err::<
            (Seq<char>, bool),
            AuthError,
        >(AuthError::Denied),
{
}

/// A session is given only for a ticket that a login left, before the ticket ends, with a code that the
/// authenticator's secret accepts; its token is that of the keeper's own name.
pub proof fn law_session_needs_ticket_and_code(
    a: AuthV,
    ticket: Seq<char>,
    code: Seq<char>,
    now: u64,
)
    ensures
        code_given(a, ticket, code, now).1 is Ok <==> a.enabled && a.pending.contains_key(ticket)
            && now < a.pending[ticket].exp && accepts(a.totp_secret, trimmed(code), now),
{
}

/// A ticket comes only of the right name and the right password, while the name is not locked.
pub proof fn law_ticket_needs_password(
    a: AuthV,
    user: Seq<char>,
    password: Seq<char>,
    now: u64,
    ticket: Seq<char>,
)
    ensures
        logged_in(a, user, password, now, ticket).1 is Ok <==> a.enabled && !is_locked(
            a.fails,
            user,
            now,
        ) && user == a.username && password_right(a, password),
{
}

/// The right password and then, before the ticket ends, the code that the authenticator shows give a
/// session and leave the authenticator enrolled, and no failure is remembered.
pub proof fn law_password_and_code_let_in(
    a: AuthV,
    password: Seq<char>,
    now: u64,
    ticket: Seq<char>,
    code: Seq<char>,
    later: u64,
)
    requires
        a.enabled,
        !is_locked(a.fails, a.username, now),
        password_right(a, password),
        totp_key(a.totp_secret) is Some,
        now <= later < now + TICKET_TTL_SECS <= u64::MAX,
        trimmed(code) == code_at(totp_key(a.totp_secret)->0, later),
    ensures
        ({
            let (b, login) = logged_in(a, a.username, password, now, ticket);
            let (c, session) = code_given(b, ticket, code, later);
            &&& login == Ok::<OutcomeV, AuthError>(outcome(a, ticket))
            &&& session == Ok::<(Seq<char>, bool), AuthError>(
                (
                    session_token(
                        a.session_secret,
                        a.username,
                        (later + SESSION_TTL_SECS) as u64,
                    ),
                    !a.totp_enrolled,
                ),
            )
            &&& c.totp_enrolled
            &&& !c.fails.contains_key(a.username)
            &&& !c.pending.contains_key(ticket)
        }),
{
    law_shown_code_is_accepted(a.totp_secret, later, later);
}

/// Where nobody is asked for anything, everybody is let in, and nobody can log in.
pub proof fn law_disabled_lets_everybody_in(
    a: AuthV,
    cookies: Option<Seq<char>>,
    now: u64,
    user: Seq<char>,
    password: Seq<char>,
    ticket: Seq<char>,
)
    requires
        !a.enabled,
    ensures
        let_in(a, cookies, now) == Some(a.username),
        logged_in(a, user, password, now, ticket) == (
            a,
            Err::<OutcomeV, AuthError>(AuthError::Disabled),
        ),
{
}

/// A wrong name or password counts one more failure of that name, and the eighth locks it for a minute; nothing else
/// changes.
pub proof fn law_wrong_passwords_are_counted(
    a: AuthV,
    user: Seq<char>,
    password: Seq<char>,
    now: u64,
    ticket: Seq<char>,
)
    requires
        a.enabled,
        fails_of(a.fails, user).locked_until <= now <= u64::MAX - 60,
        user != a.username || mac_text(a.password_key, encode_utf8(password)) != a.password_hash,
    ensures
        ({
            let r = logged_in(a, user, password, now, ticket);
            let before = fails_of(a.fails, user);
            let after = fails_of(r.0.fails, user);
            &&& r.1 == Err::<OutcomeV, AuthError>(AuthError::Denied)
            &&& r.0 == (AuthV { fails: r.0.fails, ..a })
            &&& before.fails + 1 < 8 ==> after.fails == before.fails + 1 && after.locked_until
                == before.locked_until
            &&& before.fails + 1 >= 8 ==> after.fails == 0 && after.locked_until == now + 60
        }),
{
}

/// A wrong code uses its ticket up and counts one more failure of the keeper's name.
pub proof fn law_wrong_codes_are_counted(a: AuthV, ticket: Seq<char>, code: Seq<char>, now: u64)
    requires
        a.enabled,
        a.pending.contains_key(ticket) && now < a.pending[ticket].exp,
        !accepts(a.totp_secret, trimmed(code), now),
        fails_of(a.fails, a.username).locked_until <= now <= u64::MAX - 60,
    ensures
        ({
            let r = code_given(a, ticket, code, now);
            let before = fails_of(a.fails, a.username);
            let after = fails_of(r.0.fails, a.username);
            &&& r.1 is Err && !r.0.pending.contains_key(ticket)
            &&& before.fails + 1 < 8 ==> after.fails == before.fails + 1
            &&& before.fails + 1 >= 8 ==> after.locked_until == now + 60
            &&& r.0.totp_enrolled == a.totp_enrolled
        }),
{
}

/// A right password gets a ticket that waits five minutes for its code, forgets the failures of the name, and drops
/// tickets that have ended; the authenticator's secret is shown only until it is enrolled.
pub proof fn law_right_password_gets_a_ticket(a: AuthV, password: Seq<char>, now: u64, ticket: Seq<char>)
    requires
        a.enabled,
        fails_of(a.fails, a.username).locked_until <= now <= u64::MAX - 300,
        mac_text(a.password_key, encode_utf8(password)) == a.password_hash,
    ensures
        ({
            let r = logged_in(a, a.username, password, now, ticket);
            &&& r.1 matches Ok(o) && o.ticket == ticket && o.enroll == !a.totp_enrolled && (o.secret is Some
                <==> !a.totp_enrolled) && (o.otpauth_url is Some <==> !a.totp_enrolled)
            &&& r.0.pending.contains_key(ticket) && r.0.pending[ticket].exp == now + 300
            &&& !r.0.fails.contains_key(a.username)
            &&& forall|t: Seq<char>|
                t != ticket ==> (#[trigger] r.0.pending.contains_key(t) <==> a.pending.contains_key(t)
                    && a.pending[t].exp > now)
        }),
{
}

/// A session lasts twelve hours from the code that it was given for.
pub proof fn law_sessions_last_twelve_hours(a: AuthV, ticket: Seq<char>, code: Seq<char>, now: u64)
    requires
        code_given(a, ticket, code, now).1 is Ok,
        now <= u64::MAX - 43_200,
    ensures
        code_given(a, ticket, code, now).1 matches Ok((token, _)) && token == session_token(
            a.session_secret,
            a.username,
            (now + 43_200) as u64,
        ),
{
}

/// Where logins are asked for, a request is let in only by the token in its session cookie.
pub proof fn law_only_session_cookies_let_in(a: AuthV, cookies: Option<Seq<char>>, now: u64)
    requires
        a.enabled,
        let_in(a, cookies, now) is Some,
    ensures
        let_in(a, cookies, now) == Some(a.username),
        cookies matches Some(raw) && (header_value(raw, "mm_session"@) matches Some(token) && token_user(
            a.session_secret,
            a.username,
            token,
            now,
        ) == Some(a.username)),
{
    crate::auth::token::law_tokens_need_the_secret(
        a.session_secret,
        a.username,
        header_value(cookies->0, COOKIE_NAME@)->0,
        now,
    );
}

} // verus!
