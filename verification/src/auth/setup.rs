//! How the keeper is set up, from the environment and from what was kept.
use crate::auth::gatekeeper::{nobody_asked, Auth, AuthV};
use crate::auth::totp::{decode_totp_secret, totp_key};
use crate::codec::{
    base32_text, decode_hex, encode_base32, encode_hex, hex_bytes, hex_text, hmac_hex,
    law_hex_round_trip, mac_text, random_below, random_bytes, text_bytes,
};
use crate::table::TextMap;
use crate::text::{
    chars_of, lower_text, lowered, opt_view, same_text, starts, strip_prefix, trim, trimmed, upper_text,
    uppered,
};
use vstd::prelude::*;
use vstd::utf8::encode_utf8;

verus! {

/// How many bytes a key has.
pub const KEY_BYTES: usize = 32;

/// How many bytes an authenticator's secret has.
pub const TOTP_BYTES: usize = 20;

/// How many characters a password has that nobody chose.
pub const PASSWORD_CHARS: usize = 16;

/// The characters of a password that nobody chose.
pub const PASSWORD_ALPHABET: &'static str = "ABCDEFGHJKLMNPQRSTUVWXYZabcdefghijkmnopqrstuvwxyz23456789";

/// What the environment says.
#[derive(Debug, Default)]
pub struct AuthEnv {
    pub disabled: Option<String>,
    pub session_secret: Option<String>,
    pub username: Option<String>,
    pub password: Option<String>,
    pub totp_secret: Option<String>,
    pub reset_totp: Option<String>,
    pub cookie_secure: Option<String>,
}

/// What is kept from one run to the next.
#[derive(Debug, Default)]
pub struct Persist {
    pub password_key: String,
    pub password_hash: String,
    pub totp_secret: String,
    pub totp_enrolled: bool,
    pub session_secret: String,
}

/// A `Persist`.
pub struct PersistV {
    pub password_key: Seq<char>,
    pub password_hash: Seq<char>,
    pub totp_secret: Seq<char>,
    pub totp_enrolled: bool,
    pub session_secret: Seq<char>,
}

impl View for Persist {
    type V = PersistV;

    open spec fn view(&self) -> PersistV {
        PersistV {
            password_key: self.password_key@,
            password_hash: self.password_hash@,
            totp_secret: self.totp_secret@,
            totp_enrolled: self.totp_enrolled,
            session_secret: self.session_secret@,
        }
    }
}

/// What chance has in store.
#[derive(Debug)]
pub struct Fresh {
    pub password_key: Vec<u8>,
    pub session_secret: Vec<u8>,
    pub password: String,
    pub totp_secret: String,
}

/// A secret that is no base 32.
#[derive(Debug, Clone, Copy, PartialEq, Eq, Structural)]
pub enum SetupFault {
    GivenSecret,
    KeptSecret,
}

/// What becomes of the file with the first password.
#[derive(Debug)]
pub enum FirstPassword {
    Leave,
    Remove,
    Write(String),
}

/// The keeper and what is to be kept of it; nothing of one who asks nobody for anything.
pub struct Setup {
    pub first_password: FirstPassword,
    pub result: Result<(Auth, Option<Persist>), SetupFault>,
}

/// A value that means yes.
pub open spec fn means_yes(value: Option<Seq<char>>) -> bool {
    match value {
        Some(v) => {
            let t = lowered(trimmed(v));
            t == "1"@ || t == "true"@ || t == "yes"@ || t == "on"@
        },
        None => false,
    }
}

/// Whether a variable's value means yes.
pub fn env_flag(value: &Option<String>) -> (r: bool)
    ensures
        r == means_yes(opt_view(*value)),
{
    match value {
        Some(v) => {
            let t = lower_text(trim(v.as_str()).as_str());
            same_text(t.as_str(), "1") || same_text(t.as_str(), "true") || same_text(t.as_str(), "yes")
                || same_text(t.as_str(), "on")
        },
        None => false,
    }
}

/// A value without the white space around it, where anything is left.
pub open spec fn filled(value: Option<Seq<char>>) -> Option<Seq<char>> {
    match value {
        Some(v) => if trimmed(v).len() == 0 {
            None
        } else {
            Some(trimmed(v))
        },
        None => None,
    }
}

fn fill(value: &Option<String>) -> (r: Option<String>)
    ensures
        opt_view(r) == filled(opt_view(*value)),
{
    match value {
        Some(v) => {
            let t = trim(v.as_str());
            if is_blank(t.as_str()) {
                None
            } else {
                Some(t)
            }
        },
        None => None,
    }
}

fn is_blank(s: &str) -> (r: bool)
    ensures
        r == (s@.len() == 0),
{
    chars_of(s).len() == 0
}

/// The bytes of the right number that a text keeps in hexadecimal digits, else fresh ones.
pub open spec fn kept_or_fresh(kept: Seq<char>, fresh: Seq<u8>) -> Seq<u8> {
    match hex_bytes(kept) {
        Some(b) => if b.len() == fresh.len() {
            b
        } else {
            fresh
        },
        None => fresh,
    }
}

/// The bytes that a text keeps in hexadecimal digits, if they are as many as the fresh ones; else the
/// fresh ones, which the text then keeps.
pub fn decode_hex_or_new(stored: &mut String, fresh: &Vec<u8>) -> (r: Vec<u8>)
    ensures
        r@ == kept_or_fresh(old(stored)@, fresh@),
        hex_bytes(final(stored)@) == Some(r@),
        final(stored)@ == (match hex_bytes(old(stored)@) {
            Some(b) => if b.len() == fresh@.len() {
                old(stored)@
            } else {
                hex_text(fresh@)
            },
            None => hex_text(fresh@),
        }),
{
    match decode_hex(stored.as_str()) {
        Some(b) => {
            if b.len() == fresh.len() {
                return b;
            }
        },
        None => {},
    }
    *stored = encode_hex(fresh);
    proof {
        law_hex_round_trip(fresh@);
    }
    copy_bytes(fresh)
}

fn copy_bytes(b: &Vec<u8>) -> (r: Vec<u8>)
    ensures
        r@ == b@,
{
    let mut r: Vec<u8> = Vec::new();
    let mut i: usize = 0;
    while i < b.len()
        invariant
            i <= b@.len(),
            r@ == b@.take(i as int),
        decreases b@.len() - i,
    {
        r.push(b[i]);
        i = i + 1;
        assert(b@.take(i as int) =~= b@.take(i - 1).push(b@[i - 1]));
    }
    assert(b@.take(i as int) =~= b@);
    r
}

/// The secret that signs sessions.
pub open spec fn session_key(value: Option<Seq<char>>, kept: Seq<char>, fresh: Seq<u8>) -> Seq<u8> {
    match filled(value) {
        Some(t) => match hex_bytes(t) {
            Some(b) => b,
            None => encode_utf8(t),
        },
        None => kept_or_fresh(kept, fresh),
    }
}

/// The authenticator's secret that the environment gives.
pub open spec fn given_totp(value: Option<Seq<char>>) -> Option<Seq<char>> {
    match value {
        Some(v) => {
            let t = uppered(trimmed(v).filter(|c: char| c != ' '));
            if t.len() == 0 {
                None
            } else {
                Some(t)
            }
        },
        None => None,
    }
}

/// A text without one of its characters.
fn without(s: &str, gone: char) -> (r: String)
    ensures
        r@ == s@.filter(|c: char| c != gone),
{
    let v = chars_of(s);
    let mut out: String = String::new();
    let ghost keep = |c: char| c != gone;
    let mut i: usize = 0;
    assert(v@.take(0).filter(keep) =~= Seq::<char>::empty()) by {
        reveal(Seq::filter);
    }
    while i < v.len()
        invariant
            i <= v@.len(),
            keep == (|c: char| c != gone),
            out@ == v@.take(i as int).filter(keep),
        decreases v@.len() - i,
    {
        proof {
            reveal(Seq::filter);
            assert(v@.take(i + 1).drop_last() =~= v@.take(i as int));
        }
        if v[i] != gone {
            out.push(v[i]);
        }
        i = i + 1;
    }
    assert(v@.take(i as int) =~= v@);
    out
}

fn given_secret(value: &Option<String>) -> (r: Option<String>)
    ensures
        opt_view(r) == given_totp(opt_view(*value)),
{
    match value {
        Some(v) => {
            let t = upper_text(without(trim(v.as_str()).as_str(), ' ').as_str());
            if is_blank(t.as_str()) {
                None
            } else {
                Some(t)
            }
        },
        None => None,
    }
}

/// The authenticator's secret, and whether it has been enrolled.
pub open spec fn chosen_totp(
    value: Option<Seq<char>>,
    reset: bool,
    kept: PersistV,
    fresh: Seq<char>,
) -> Result<(Seq<char>, bool), SetupFault> {
    match given_totp(value) {
        Some(t) => if totp_key(t) is Some {
            Ok((t, true))
        } else {
            Err(SetupFault::GivenSecret)
        },
        None => if kept.totp_secret.len() > 0 && !reset {
            if totp_key(kept.totp_secret) is Some {
                Ok((kept.totp_secret, kept.totp_enrolled))
            } else {
                Err(SetupFault::KeptSecret)
            }
        } else {
            Ok((fresh, false))
        },
    }
}

/// What a choice of a secret says.
pub open spec fn choice_view(r: Result<(String, bool), SetupFault>) -> Result<
    (Seq<char>, bool),
    SetupFault,
> {
    match r {
        Ok((s, b)) => Ok((s@, b)),
        Err(e) => Err(e),
    }
}

/// The authenticator's secret, and whether it has been enrolled: the environment's comes first, then the
/// kept one, then a fresh one.
pub fn choose_totp(
    value: &Option<String>,
    reset: bool,
    kept: &Persist,
    fresh: &str,
) -> (r: Result<(String, bool), SetupFault>)
    ensures
        choice_view(r) == chosen_totp(opt_view(*value), reset, kept@, fresh@),
{
    match given_secret(value) {
        Some(t) => {
            if decode_totp_secret(t.as_str()).is_none() {
                return Err(SetupFault::GivenSecret);
            }
            Ok((t, true))
        },
        None => {
            if !is_blank(kept.totp_secret.as_str()) && !reset {
                if decode_totp_secret(kept.totp_secret.as_str()).is_none() {
                    return Err(SetupFault::KeptSecret);
                }
                Ok((kept.totp_secret.clone(), kept.totp_enrolled))
            } else {
                Ok((fresh.to_owned(), false))
            }
        },
    }
}

/// The text of the file with the first password.
pub open spec fn first_password_text(username: Seq<char>, password: Seq<char>) -> Seq<char> {
    "username="@ + username + "\npassword="@ + password
        + "\n# deleted after the first successful TOTP login\n"@
}

/// The text of the file with the first password.
pub fn first_password_file(username: &str, password: &str) -> (r: String)
    ensures
        r@ == first_password_text(username@, password@),
{
    let mut out: String = "username=".to_owned();
    out.append(username);
    out.append("\npassword=");
    out.append(password);
    out.append("\n# deleted after the first successful TOTP login\n");
    out
}

/// The name that may log in.
pub open spec fn chosen_name(value: Option<Seq<char>>) -> Seq<char> {
    match filled(value) {
        Some(n) => n,
        None => "admin"@,
    }
}

/// The keeper that the settings describe.
pub open spec fn keeper(env: AuthEnv, kept: PersistV, fresh: Fresh, totp: (Seq<char>, bool)) -> AuthV {
    let key = kept_or_fresh(kept.password_key, fresh.password_key@);
    AuthV {
        enabled: true,
        username: chosen_name(opt_view(env.username)),
        password_key: key,
        password_hash: match filled(opt_view(env.password)) {
            Some(p) => mac_text(key, encode_utf8(p)),
            None => if kept.password_hash.len() > 0 {
                kept.password_hash
            } else {
                mac_text(key, encode_utf8(fresh.password@))
            },
        },
        totp_secret: totp.0,
        totp_enrolled: totp.1,
        session_secret: session_key(
            opt_view(env.session_secret),
            kept.session_secret,
            fresh.session_secret@,
        ),
        cookie_secure: means_yes(opt_view(env.cookie_secure)),
        pending: Map::empty(),
        fails: Map::empty(),
    }
}

/// What is kept of a keeper: of a password that the environment gives, nothing.
pub open spec fn to_keep(env: AuthEnv, a: AuthV) -> PersistV {
    PersistV {
        password_key: hex_text(a.password_key),
        password_hash: if filled(opt_view(env.password)) is Some {
            Seq::empty()
        } else {
            a.password_hash
        },
        totp_secret: a.totp_secret,
        totp_enrolled: a.totp_enrolled,
        session_secret: hex_text(a.session_secret),
    }
}

/// What becomes of the file with the first password: it goes where the environment gives a password,
/// and is written where no password was ever set.
pub open spec fn first_password_due(env: AuthEnv, kept: PersistV, fresh: Fresh, f: FirstPassword) -> bool {
    match f {
        FirstPassword::Remove => filled(opt_view(env.password)) is Some,
        FirstPassword::Leave => filled(opt_view(env.password)) is None && kept.password_hash.len() > 0,
        FirstPassword::Write(text) => filled(opt_view(env.password)) is None
            && kept.password_hash.len() == 0 && text@ == first_password_text(
            chosen_name(opt_view(env.username)),
            fresh.password@,
        ),
    }
}

impl Auth {
    /// Sets the keeper up from the environment, from what was kept and from what chance has in store. The
    /// environment can have everybody let in.
    pub fn load(env: &AuthEnv, kept: Persist, fresh: Fresh) -> (r: Setup)
        ensures
            if means_yes(opt_view(env.disabled)) {
                r.first_password is Leave && (r.result matches Ok((a, None)) && a.wf() && a@
                    == nobody_asked())
            } else {
                &&& first_password_due(*env, kept@, fresh, r.first_password)
                &&& match chosen_totp(
                    opt_view(env.totp_secret),
                    means_yes(opt_view(env.reset_totp)),
                    kept@,
                    fresh.totp_secret@,
                ) {
                    Ok(totp) => r.result matches Ok((a, Some(p))) && a.wf() && a@ == keeper(
                        *env,
                        kept@,
                        fresh,
                        totp,
                    ) && p@ == to_keep(*env, a@) && a@.password_hash.len() > 0,
                    Err(e) => r.result matches Err(f) && f == e,
                }
            },
    {
        if env_flag(&env.disabled) {
            return Setup {
                first_password: FirstPassword::Leave,
                result: Ok((Auth::disabled(), None)),
            };
        }
        let mut kept_key = kept.password_key.clone();
        let mut kept_session = kept.session_secret.clone();
        let password_key = decode_hex_or_new(&mut kept_key, &fresh.password_key);
        let session_secret = match fill(&env.session_secret) {
            Some(t) => match decode_hex(t.as_str()) {
                Some(b) => b,
                None => text_bytes(t.as_str()),
            },
            None => decode_hex_or_new(&mut kept_session, &fresh.session_secret),
        };
        let username = match fill(&env.username) {
            Some(n) => n,
            None => "admin".to_owned(),
        };
        let mut keep_hash = true;
        let mut first_password = FirstPassword::Leave;
        let password_hash = match fill(&env.password) {
            Some(p) => {
                keep_hash = false;
                first_password = FirstPassword::Remove;
                hmac_hex(&password_key, &text_bytes(p.as_str()))
            },
            None => if !is_blank(kept.password_hash.as_str()) {
                kept.password_hash.clone()
            } else {
                first_password =
                FirstPassword::Write(
                    first_password_file(username.as_str(), fresh.password.as_str()),
                );
                hmac_hex(&password_key, &text_bytes(fresh.password.as_str()))
            },
        };
        let reset = env_flag(&env.reset_totp);
        let (totp_secret, totp_enrolled) = match choose_totp(
            &env.totp_secret,
            reset,
            &kept,
            fresh.totp_secret.as_str(),
        ) {
            Ok(t) => t,
            Err(e) => {
                return Setup { first_password, result: Err(e) };
            },
        };
        let persist = Persist {
            password_key: encode_hex(&password_key),
            password_hash: if keep_hash {
                password_hash.clone()
            } else {
                String::new()
            },
            totp_secret: totp_secret.clone(),
            totp_enrolled,
            session_secret: encode_hex(&session_secret),
        };
        let auth = Auth {
            enabled: true,
            username,
            password_key,
            password_hash,
            totp_secret,
            totp_enrolled,
            session_secret,
            cookie_secure: env_flag(&env.cookie_secure),
            pending: TextMap::new(),
            fails: TextMap::new(),
        };
        Setup { first_password, result: Ok((auth, Some(persist))) }
    }
}

/// What is kept once an authenticator has been enrolled.
pub fn persist_enrolled(auth: &Auth, kept: Persist) -> (r: Persist)
    ensures
        r@ == (PersistV { totp_enrolled: true, totp_secret: auth@.totp_secret, ..kept@ }),
{
    Persist {
        password_key: kept.password_key,
        password_hash: kept.password_hash,
        totp_secret: auth.totp_secret.clone(),
        totp_enrolled: true,
        session_secret: kept.session_secret,
    }
}

/// The password that picks from the alphabet make.
pub open spec fn picked_password(picks: Seq<usize>) -> Seq<char> {
    picks.map_values(|k: usize| PASSWORD_ALPHABET@[k as int])
}

/// The password that picks from the alphabet make.
pub fn password_of(picks: &Vec<usize>) -> (r: String)
    requires
        forall|i: int| 0 <= i < picks@.len() ==> #[trigger] picks@[i] < PASSWORD_ALPHABET@.len(),
    ensures
        r@ == picked_password(picks@),
{
    let alphabet = chars_of(PASSWORD_ALPHABET);
    let mut out: String = String::new();
    let mut n: usize = 0;
    while n < picks.len()
        invariant
            n <= picks@.len(),
            alphabet@ == PASSWORD_ALPHABET@,
            forall|i: int|
                0 <= i < picks@.len() ==> #[trigger] picks@[i] < PASSWORD_ALPHABET@.len(),
            out@ == picked_password(picks@.take(n as int)),
        decreases picks@.len() - n,
    {
        let k = picks[n];
        assert(picked_password(picks@.take(n + 1)) =~= picked_password(picks@.take(n as int)).push(
            PASSWORD_ALPHABET@[k as int],
        ));
        out.push(alphabet[k]);
        n = n + 1;
    }
    assert(picks@.take(n as int) =~= picks@);
    assert(out@ =~= picked_password(picks@));
    out
}

/// A password that nobody chose. Which picks make it is up to chance.
pub fn generate_password() -> (r: String)
    ensures
        r@.len() == PASSWORD_CHARS,
        forall|i: int| 0 <= i < r@.len() ==> PASSWORD_ALPHABET@.contains(#[trigger] r@[i]),
        exists|picks: Seq<usize>| #[trigger]
            picked_password(picks) == r@ && picks.len() == PASSWORD_CHARS && forall|i: int|
                0 <= i < picks.len() ==> #[trigger] picks[i] < PASSWORD_ALPHABET@.len(),
{
    proof {
        reveal_strlit("ABCDEFGHJKLMNPQRSTUVWXYZabcdefghijkmnopqrstuvwxyz23456789");
    }
    let letters = chars_of(PASSWORD_ALPHABET).len();
    let mut picks: Vec<usize> = Vec::new();
    while picks.len() < PASSWORD_CHARS
        invariant
            picks@.len() <= PASSWORD_CHARS,
            letters == PASSWORD_ALPHABET@.len(),
            letters > 0,
            forall|i: int| 0 <= i < picks@.len() ==> #[trigger] picks@[i] < letters,
        decreases PASSWORD_CHARS - picks@.len(),
    {
        let k = random_below(letters);
        picks.push(k);
    }
    let out = password_of(&picks);
    assert forall|i: int| 0 <= i < out@.len() implies PASSWORD_ALPHABET@.contains(
        #[trigger] out@[i],
    ) by {
        assert(out@[i] == PASSWORD_ALPHABET@[picks@[i] as int]);
    }
    out
}

/// The authenticator's secret that bytes make: base 32 without padding.
pub open spec fn secret_of(raw: Seq<u8>) -> Seq<char> {
    base32_text(raw).filter(|c: char| c != '=')
}

/// The authenticator's secret that bytes make.
pub fn totp_secret_of(raw: &Vec<u8>) -> (r: String)
    ensures
        r@ == secret_of(raw@),
{
    without(encode_base32(raw).as_str(), '=')
}

/// An authenticator's secret that nobody chose.
pub fn generate_totp_secret() -> (r: String)
    ensures
        exists|raw: Seq<u8>| raw.len() == TOTP_BYTES && r@ == #[trigger] secret_of(raw),
{
    let raw = random_bytes(TOTP_BYTES);
    totp_secret_of(&raw)
}

/// What chance has in store.
pub fn draw() -> (r: Fresh)
    ensures
        r.password_key@.len() == KEY_BYTES,
        r.session_secret@.len() == KEY_BYTES,
        exists|picks: Seq<usize>| #[trigger]
            picked_password(picks) == r.password@ && picks.len() == PASSWORD_CHARS && forall|i: int|
                0 <= i < picks.len() ==> #[trigger] picks[i] < PASSWORD_ALPHABET@.len(),
        exists|raw: Seq<u8>| raw.len() == TOTP_BYTES && r.totp_secret@ == #[trigger] secret_of(raw),
{
    Fresh {
        password_key: random_bytes(KEY_BYTES),
        session_secret: random_bytes(KEY_BYTES),
        password: generate_password(),
        totp_secret: generate_totp_secret(),
    }
}

/// The file behind the address of a database.
pub open spec fn database_file(url: Seq<char>) -> Option<Seq<char>> {
    if starts(url, "sqlite://"@) {
        Some(url.skip("sqlite://"@.len() as int))
    } else if starts(url, "sqlite:"@) {
        Some(url.skip("sqlite:"@.len() as int))
    } else {
        None
    }
}

/// Where the keeper's files stand: beside the database, where it has a directory.
pub open spec fn files_dir(parent: Option<Seq<char>>) -> Seq<char> {
    match parent {
        Some(p) => if p.len() > 0 {
            p
        } else {
            "data"@
        },
        None => "data"@,
    }
}

/// Where the keeper's files stand: beside the database, where it has a directory.
pub fn files_beside(parent: Option<String>) -> (r: String)
    ensures
        r@ == files_dir(opt_view(parent)),
{
    match parent {
        Some(p) => if is_blank(p.as_str()) {
            "data".to_owned()
        } else {
            p
        },
        None => "data".to_owned(),
    }
}

/// A character that divides no path on any system.
pub open spec fn name_char(c: char) -> bool {
    c != '/' && c != '\\' && c != ':'
}

/// A name of a file that means no other place.
pub open spec fn plain_name(s: Seq<char>) -> bool {
    &&& s.len() > 0
    &&& !(s.len() == 1 && s[0] == '.')
    &&& !(s.len() == 2 && s[0] == '.' && s[1] == '.')
    &&& forall|i: int| 0 <= i < s.len() ==> name_char(#[trigger] s[i])
}

/// A directory, relative or from the root on, whose parts are divided by one slash each; but for the
/// first none of them means the part before it.
pub open spec fn plain_dir(s: Seq<char>) -> bool {
    &&& s.len() > 0
    &&& s.last() != '/'
    &&& forall|i: int| 0 <= i < s.len() ==> s[i] == '/' || name_char(#[trigger] s[i])
    &&& forall|i: int|
        0 <= i < s.len() - 1 && #[trigger] s[i] == '/' ==> s[i + 1] != '/' && (s[i + 1] == '.' ==> i
            + 2 < s.len() && s[i + 2] != '/')
}

/// The path of a file in a directory.
pub open spec fn in_dir(dir: Seq<char>, name: Seq<char>) -> Seq<char> {
    dir.push('/') + name
}

/// What stands before the last part of a path: it starts the path. The empty path has none, a name
/// alone has the empty one, a name under the root has the root, and a name in a directory has the
/// directory.
pub open spec fn parent_fits(path: Seq<char>, parent: Option<Seq<char>>) -> bool {
    &&& parent matches Some(p) ==> p.is_prefix_of(path)
    &&& path.len() == 0 ==> parent is None
    &&& plain_name(path) ==> parent == Some(Seq::<char>::empty())
    &&& forall|name: Seq<char>|
        plain_name(name) && path == #[trigger] in_dir(Seq::empty(), name) ==> parent == Some(
            seq!['/'],
        )
    &&& forall|dir: Seq<char>, name: Seq<char>|
        plain_dir(dir) && plain_name(name) && path == #[trigger] in_dir(dir, name) ==> parent
            == Some(dir)
}

/// Calls `std::path::Path::parent`. Claimed of it: it gives the path without its last part, which
/// starts the path; the empty path has none, a name alone has the empty one, a name under the root
/// has the root, and a name in a directory has the directory. Of paths with doubled or trailing
/// slashes, with a part that means the one before it, or with a character that divides paths on some
/// systems only, no more is said.
#[verifier::external_body]
fn parent_of(path: &str) -> (r: Option<String>)
    ensures
        parent_fits(path@, opt_view(r)),
{
    std::path::Path::new(path).parent().map(|p| p.to_string_lossy().into_owned())
}

/// Where the keeper's files stand: beside the database, or under `data` where that has no directory.
pub fn persist_path(database_url: &str) -> (r: String)
    ensures
        match database_file(database_url@) {
            None => r@ == "data"@,
            Some(file) => {
                &&& r@ == "data"@ || (r@.len() > 0 && r@.is_prefix_of(file))
                &&& file.len() == 0 || plain_name(file) ==> r@ == "data"@
                &&& forall|name: Seq<char>|
                    plain_name(name) && file == #[trigger] in_dir(Seq::empty(), name) ==> r@
                        == seq!['/']
                &&& forall|dir: Seq<char>, name: Seq<char>|
                    plain_dir(dir) && plain_name(name) && file == #[trigger] in_dir(dir, name)
                        ==> r@ == dir
            },
        },
{
    match strip_prefix(database_url, "sqlite://") {
        Some(p) => files_beside(parent_of(p.as_str())),
        None => match strip_prefix(database_url, "sqlite:") {
            Some(p) => files_beside(parent_of(p.as_str())),
            None => files_beside(None),
        },
    }
}

/// A set-up that finds what the last one kept, in the same environment, changes nothing: the same name, the
/// same keys, the same secret, the same password. A reset of the authenticator aside.
pub proof fn law_setup_is_kept(
    env: AuthEnv,
    kept: PersistV,
    fresh: Fresh,
    totp: (Seq<char>, bool),
    again: Fresh,
)
    requires
        !means_yes(opt_view(env.reset_totp)),
        chosen_totp(opt_view(env.totp_secret), false, kept, fresh.totp_secret@) == Ok::<
            (Seq<char>, bool),
            SetupFault,
        >(totp),
        fresh.password_key@.len() == KEY_BYTES == again.password_key@.len(),
        fresh.session_secret@.len() == KEY_BYTES == again.session_secret@.len(),
        totp.0.len() > 0,
        totp_key(totp.0) is Some,
        keeper(env, kept, fresh, totp).password_hash.len() > 0,
    ensures
        ({
            let a = keeper(env, kept, fresh, totp);
            let p = to_keep(env, a);
            &&& chosen_totp(opt_view(env.totp_secret), false, p, again.totp_secret@) == Ok::<
                (Seq<char>, bool),
                SetupFault,
            >(totp)
            &&& keeper(env, p, again, totp) == a
        }),
{
    let a = keeper(env, kept, fresh, totp);
    law_hex_round_trip(a.password_key);
    law_hex_round_trip(a.session_secret);
}

/// A keeper that is set up asks for logins, holds nobody's ticket or failure, and takes the password that the
/// environment gives before any other, the one that was kept before a new one.
pub proof fn law_keeper_asks_for_logins(env: AuthEnv, kept: PersistV, fresh: Fresh, totp: (Seq<char>, bool))
    ensures
        ({
            let a = keeper(env, kept, fresh, totp);
            &&& a.enabled && a.pending == Map::<Seq<char>, crate::auth::gatekeeper::Pending>::empty()
            &&& a.totp_secret == totp.0 && a.totp_enrolled == totp.1
            &&& filled(opt_view(env.password)) matches Some(p) ==> a.password_hash == mac_text(
                a.password_key,
                encode_utf8(p),
            )
            &&& filled(opt_view(env.password)) is None && kept.password_hash.len() > 0 ==> a.password_hash
                == kept.password_hash
            &&& filled(opt_view(env.password)) is None && kept.password_hash.len() == 0
                ==> a.password_hash == mac_text(a.password_key, encode_utf8(fresh.password@))
        }),
{
}

} // verus!
