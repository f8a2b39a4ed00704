//! Sessions that a cookie carries.
use crate::codec::{
    base64_bytes, base64_text, bytes_text, ct_same, decode_base64, encode_base64, hmac_hex, mac_text,
    text_bytes,
};
use crate::json::{lemma_digits_value, parse_uint, uint_written};
use crate::text::{
    cat2, cat3, cut_first, cut_last, digits, digits_text, lemma_cut_first, lemma_cut_last,
    lemma_digits_are_digits, opt_view, signed_digits, signed_text, split_first, split_last,
    starts, strip_prefix, trim, trimmed,
};
use vstd::prelude::*;
use vstd::utf8::{
    decode_utf8, encode_utf8, encode_utf8_decode_utf8, encode_utf8_valid_utf8, valid_utf8,
};

verus! {

/// The name of the cookie that carries a session.
pub const COOKIE_NAME: &'static str = "mm_session";

/// What a session says: who it is for, and when it ends.
pub open spec fn session_payload(user: Seq<char>, exp: u64) -> Seq<char> {
    user + "|"@ + digits(exp as nat)
}

/// The token of a session.
pub open spec fn session_token(secret: Seq<u8>, user: Seq<char>, exp: u64) -> Seq<char> {
    let said = encode_utf8(session_payload(user, exp));
    base64_text(said) + "."@ + mac_text(secret, said)
}

/// Whom the signed bytes of a session let in.
pub open spec fn payload_user(payload: Seq<u8>, user: Seq<char>, now: u64) -> Option<Seq<char>> {
    if valid_utf8(payload) {
        match cut_last(decode_utf8(payload), '|') {
            Some((who, until)) => match uint_written(until) {
                Some(exp) => if now < exp && who == user {
                    Some(who)
                } else {
                    None
                },
                None => None,
            },
            None => None,
        }
    } else {
        None
    }
}

/// Whom a token lets in: `user`, if the token is signed with the secret and has not ended.
pub open spec fn token_user(secret: Seq<u8>, user: Seq<char>, token: Seq<char>, now: u64) -> Option<
    Seq<char>,
> {
    match cut_first(token, '.') {
        Some((said, sig)) => match base64_bytes(said) {
            Some(payload) => if sig == mac_text(secret, payload) {
                payload_user(payload, user, now)
            } else {
                None
            },
            None => None,
        },
        None => None,
    }
}

/// The bytes of a session let its user in until it ends, and nobody else.
pub proof fn law_payload_lets_user_in(user: Seq<char>, exp: u64, now: u64, other: Seq<char>)
    ensures
        payload_user(encode_utf8(session_payload(user, exp)), other, now) == (if now < exp && user
            == other {
            Some(user)
        } else {
            None
        }),
{
    let said = session_payload(user, exp);
    encode_utf8_valid_utf8(said);
    encode_utf8_decode_utf8(said);
    lemma_digits_are_digits(exp as nat);
    lemma_digits_value(exp as nat);
    reveal_strlit("|");
    let n = user.len() as int;
    let d = digits(exp as nat);
    assert(said[n] == '|');
    assert forall|j: int| n < j < said.len() implies said[j] != '|' by {
        assert(said[j] == d[j - n - 1]);
    }
    lemma_cut_last(said, '|', n);
    assert(said.take(n) =~= user);
    assert(said.skip(n + 1) =~= d);
}

/// The token of a session, which lets its user in until it ends, and nobody else.
pub fn sign_session(secret: &Vec<u8>, user: &str, exp: u64) -> (r: String)
    ensures
        r@ == session_token(secret@, user@, exp),
        forall|now: u64, other: Seq<char>| #[trigger]
            token_user(secret@, other, r@, now) == (if now < exp && user@ == other {
                Some(user@)
            } else {
                None
            }),
{
    let said = text_bytes(cat3(user, "|", digits_text(exp).as_str()).as_str());
    let sig = hmac_hex(secret, &said);
    let head = encode_base64(&said);
    let r = cat3(head.as_str(), ".", sig.as_str());
    proof {
        reveal_strlit(".");
        let n = head@.len() as int;
        assert(r@[n] == '.');
        assert forall|j: int| 0 <= j < n implies r@[j] != '.' by {
            assert(r@[j] == head@[j]);
            assert(head@.contains(head@[j]));
        }
        lemma_cut_first(r@, '.', n);
        assert(r@.take(n) =~= head@);
        assert(r@.skip(n + 1) =~= sig@);
        assert forall|now: u64, other: Seq<char>| #[trigger]
            token_user(secret@, other, r@, now) == (if now < exp && user@ == other {
                Some(user@)
            } else {
                None
            }) by {
            law_payload_lets_user_in(user@, exp, now, other);
        }
    }
    r
}

/// Whom the signed bytes of a session let in.
pub fn session_bytes_user(payload: &Vec<u8>, user: &str, now: u64) -> (r: Option<String>)
    ensures
        opt_view(r) == payload_user(payload@, user@, now),
{
    let text = bytes_text(payload)?;
    let (who, until) = split_last(text.as_str(), '|')?;
    let exp = parse_uint(until.as_str())?;
    if now >= exp || !ct_same(who.as_str(), user) {
        return None;
    }
    Some(who)
}

/// Whom a token lets in.
pub fn verify_session(secret: &Vec<u8>, user: &str, token: &str, now: u64) -> (r: Option<String>)
    ensures
        opt_view(r) == token_user(secret@, user@, token@, now),
{
    let (said, sig) = split_first(token, '.')?;
    let payload = decode_base64(said.as_str())?;
    let expect = hmac_hex(secret, &payload);
    if !ct_same(expect.as_str(), sig.as_str()) {
        return None;
    }
    session_bytes_user(&payload, user, now)
}

/// The header that sets the session's cookie.
pub open spec fn cookie_line(value: Seq<char>, max_age: int, secure: bool) -> Seq<char> {
    COOKIE_NAME@ + "="@ + value + "; HttpOnly; SameSite=Lax; Path=/; Max-Age="@ + signed_digits(
        max_age,
    ) + (if secure {
        "; Secure"@
    } else {
        ""@
    })
}

/// The header that sets the session's cookie.
pub fn cookie_header(value: &str, max_age: i64, secure: bool) -> (r: String)
    ensures
        r@ == cookie_line(value@, max_age as int, secure),
{
    let mut out: String = COOKIE_NAME.to_owned();
    out.append("=");
    out.append(value);
    out.append("; HttpOnly; SameSite=Lax; Path=/; Max-Age=");
    out.append(signed_text(max_age).as_str());
    out.append(if secure {
        "; Secure"
    } else {
        ""
    });
    out
}

/// What one part of a cookie header says under a name.
pub open spec fn part_value(part: Seq<char>, name: Seq<char>) -> Option<Seq<char>> {
    let p = trimmed(part);
    let want = name + "="@;
    if starts(p, want) {
        Some(p.skip(want.len() as int))
    } else {
        None
    }
}

/// What a cookie header says under a name: the first of its parts, which semicolons separate, that
/// begins with the name and an equals sign.
pub open spec fn header_value(raw: Seq<char>, name: Seq<char>) -> Option<Seq<char>>
    decreases raw.len(),
{
    match cut_first(raw, ';') {
        Some((part, rest)) => match part_value(part, name) {
            Some(v) => Some(v),
            None => if rest.len() < raw.len() {
                header_value(rest, name)
            } else {
                None
            },
        },
        None => part_value(raw, name),
    }
}

fn value_in(part: &str, name: &str) -> (r: Option<String>)
    ensures
        opt_view(r) == part_value(part@, name@),
{
    let want = cat2(name, "=");
    strip_prefix(trim(part).as_str(), want.as_str())
}

/// What a cookie header says under a name.
pub fn cookie_value(raw: &str, name: &str) -> (r: Option<String>)
    ensures
        opt_view(r) == header_value(raw@, name@),
    decreases raw@.len(),
{
    match split_first(raw, ';') {
        Some((part, rest)) => {
            match value_in(part.as_str(), name) {
                Some(v) => Some(v),
                None => cookie_value(rest.as_str(), name),
            }
        },
        None => value_in(raw, name),
    }
}

/// A token lets somebody in only if it is the user, its bytes are signed with the secret, and they let the user in
/// at that time.
pub proof fn law_tokens_need_the_secret(secret: Seq<u8>, user: Seq<char>, token: Seq<char>, now: u64)
    requires
        token_user(secret, user, token, now) is Some,
    ensures
        token_user(secret, user, token, now) == Some(user),
        cut_first(token, '.') matches Some((said, sig)) && (base64_bytes(said) matches Some(payload)
            && sig == mac_text(secret, payload) && payload_user(payload, user, now) == Some(user)),
{
}

/// Bytes that let a user in name the user and a time that has not come yet.
pub proof fn law_sessions_end(payload: Seq<u8>, user: Seq<char>, now: u64)
    requires
        payload_user(payload, user, now) is Some,
    ensures
        cut_last(decode_utf8(payload), '|') matches Some((who, until)) && who == user && (uint_written(
            until,
        ) matches Some(exp) && now < exp),
{
}

} // verus!
