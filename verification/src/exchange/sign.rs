//! Signatures of requests.
use crate::codec::{
    all_hex, digest512, encode_hex, hex_text, hmac_hex, hmac_sha512, law_hex_round_trip, mac512,
    mac_text, sha512 as sha512_bytes, text_bytes,
};
use vstd::prelude::*;
use vstd::utf8::encode_utf8;

verus! {

/// The lower-case hexadecimal HMAC-SHA-256 of a message under a secret.
pub open spec fn hmac256(secret: Seq<char>, msg: Seq<char>) -> Seq<char> {
    mac_text(encode_utf8(secret), encode_utf8(msg))
}

/// The lower-case hexadecimal HMAC-SHA-512 of a message under a secret.
pub open spec fn hmac512(secret: Seq<char>, msg: Seq<char>) -> Seq<char> {
    hex_text(mac512(encode_utf8(secret), encode_utf8(msg)))
}

/// The lower-case hexadecimal SHA-512 of a message.
pub open spec fn sha512(msg: Seq<char>) -> Seq<char> {
    hex_text(digest512(encode_utf8(msg)))
}

/// The lower-case hexadecimal HMAC-SHA-256 of a message under a secret.
pub fn hmac_sha256_hex(secret: &str, msg: &str) -> (r: String)
    ensures
        r@ == hmac256(secret@, msg@),
        r@.len() == 64,
        all_hex(r@),
{
    hmac_hex(&text_bytes(secret), &text_bytes(msg))
}

/// The lower-case hexadecimal HMAC-SHA-512 of a message under a secret.
pub fn hmac_sha512_hex(secret: &str, msg: &str) -> (r: String)
    ensures
        r@ == hmac512(secret@, msg@),
        r@.len() == 128,
        all_hex(r@),
{
    let mac = hmac_sha512(&text_bytes(secret), &text_bytes(msg));
    proof {
        law_hex_round_trip(mac@);
    }
    encode_hex(&mac)
}

/// The lower-case hexadecimal SHA-512 of a message.
pub fn sha512_hex(msg: &str) -> (r: String)
    ensures
        r@ == sha512(msg@),
        r@.len() == 128,
        all_hex(r@),
{
    let digest = sha512_bytes(&text_bytes(msg));
    proof {
        law_hex_round_trip(digest@);
    }
    encode_hex(&digest)
}

} // verus!
