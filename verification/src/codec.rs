//! Bytes and texts: encodings, digests and chance.
use crate::text::{digit_char, opt_view};
use vstd::prelude::*;
use vstd::utf8::{decode_utf8, encode_utf8, encode_utf8_decode_utf8, valid_utf8};

verus! {

/// The bytes of a text.
pub fn text_bytes(s: &str) -> (r: Vec<u8>)
    ensures
        r@ == encode_utf8(s@),
{
    let b = s.as_bytes();
    let mut r: Vec<u8> = Vec::new();
    let mut i: usize = 0;
    while i < b.len()
        invariant
            i <= b@.len(),
            b@ == encode_utf8(s@),
            r@ == b@.take(i as int),
        decreases b@.len() - i,
    {
        r.push(b[i]);
        assert(b@.take(i + 1) =~= b@.take(i as int).push(b@[i as int]));
        i = i + 1;
    }
    assert(b@.take(i as int) =~= b@);
    r
}

/// Texts with the same bytes are the same text.
pub proof fn lemma_bytes_injective(a: Seq<char>, b: Seq<char>)
    requires
        encode_utf8(a) == encode_utf8(b),
    ensures
        a == b,
{
    encode_utf8_decode_utf8(a);
    encode_utf8_decode_utf8(b);
}

/// Calls `String::from_utf8`: the text of bytes that are one, and none of others.
#[verifier::external_body]
pub(crate) fn bytes_text(b: &Vec<u8>) -> (r: Option<String>)
    ensures
        match r {
            Some(s) => valid_utf8(b@) && s@ == decode_utf8(b@),
            None => !valid_utf8(b@),
        },
{
    String::from_utf8(b.clone()).ok()
}

/// What optional bytes are.
pub open spec fn opt_bytes(b: Option<Vec<u8>>) -> Option<Seq<u8>> {
    match b {
        Some(v) => Some(v@),
        None => None,
    }
}

/// The HMAC-SHA-256 of data under a key, by `hmac` and `sha2`.
pub uninterp spec fn mac256(key: Seq<u8>, data: Seq<u8>) -> Seq<u8>;

/// The HMAC-SHA-512 of data under a key, by `hmac` and `sha2`.
pub uninterp spec fn mac512(key: Seq<u8>, data: Seq<u8>) -> Seq<u8>;

/// The HMAC-SHA-1 of data under a key, by `hmac` and `sha1`.
pub uninterp spec fn mac1(key: Seq<u8>, data: Seq<u8>) -> Seq<u8>;

/// The SHA-512 of data, by `sha2`.
pub uninterp spec fn digest512(data: Seq<u8>) -> Seq<u8>;

/// Calls `hmac::Hmac` over `sha2::Sha256`. Claimed of it: the result is a function of the key and the
/// data, and has 32 bytes.
#[verifier::external_body]
pub(crate) fn hmac_sha256(key: &Vec<u8>, data: &Vec<u8>) -> (r: Vec<u8>)
    ensures
        r@ == mac256(key@, data@),
        r@.len() == 32,
{
    let mut mac = <hmac::Hmac<sha2::Sha256> as hmac::Mac>::new_from_slice(key).expect("hmac key");
    hmac::Mac::update(&mut mac, data);
    hmac::Mac::finalize(mac).into_bytes().to_vec()
}

/// Calls `hmac::Hmac` over `sha2::Sha512`. Claimed of it: the result is a function of the key and the
/// data, and has 64 bytes.
#[verifier::external_body]
pub(crate) fn hmac_sha512(key: &Vec<u8>, data: &Vec<u8>) -> (r: Vec<u8>)
    ensures
        r@ == mac512(key@, data@),
        r@.len() == 64,
{
    let mut mac = <hmac::Hmac<sha2::Sha512> as hmac::Mac>::new_from_slice(key).expect("hmac key");
    hmac::Mac::update(&mut mac, data);
    hmac::Mac::finalize(mac).into_bytes().to_vec()
}

/// Calls `hmac::Hmac` over `sha1::Sha1`. Claimed of it: the result is a function of the key and the
/// data, and has 20 bytes.
#[verifier::external_body]
pub(crate) fn hmac_sha1(key: &Vec<u8>, data: &Vec<u8>) -> (r: Vec<u8>)
    ensures
        r@ == mac1(key@, data@),
        r@.len() == 20,
{
    let mut mac = <hmac::Hmac<sha1::Sha1> as hmac::Mac>::new_from_slice(key).expect("hmac key");
    hmac::Mac::update(&mut mac, data);
    hmac::Mac::finalize(mac).into_bytes().to_vec()
}

/// Calls the `digest` of `sha2::Sha512`. Claimed of it: the result is a function of the data, and has
/// 64 bytes.
#[verifier::external_body]
pub(crate) fn sha512(data: &Vec<u8>) -> (r: Vec<u8>)
    ensures
        r@ == digest512(data@),
        r@.len() == 64,
{
    <sha2::Sha512 as sha2::Digest>::digest(data).to_vec()
}

/// A lower-case hexadecimal digit.
pub open spec fn is_hex(c: char) -> bool {
    ('0' <= c && c <= '9') || ('a' <= c && c <= 'f')
}

/// A text of lower-case hexadecimal digits.
pub open spec fn all_hex(s: Seq<char>) -> bool {
    forall|i: int| 0 <= i < s.len() ==> is_hex(#[trigger] s[i])
}

/// The lower-case hexadecimal digit of a number below sixteen.
pub open spec fn hex_char(d: int) -> char {
    if d < 10 {
        digit_char(d)
    } else {
        ('a' as int + (d - 10)) as char
    }
}

/// The number that a hexadecimal digit of either case stands for.
pub open spec fn hex_value(c: char) -> Option<int> {
    if '0' <= c && c <= '9' {
        Some(c as int - '0' as int)
    } else if 'a' <= c && c <= 'f' {
        Some(c as int - 'a' as int + 10)
    } else if 'A' <= c && c <= 'F' {
        Some(c as int - 'A' as int + 10)
    } else {
        None
    }
}

/// Two lower-case hexadecimal digits for each byte.
pub open spec fn hex_text(data: Seq<u8>) -> Seq<char> {
    Seq::new(
        2 * data.len(),
        |i: int|
            hex_char(
                if i % 2 == 0 {
                    data[i / 2] as int / 16
                } else {
                    data[i / 2] as int % 16
                },
            ),
    )
}

/// The bytes that pairs of hexadecimal digits stand for.
pub open spec fn hex_bytes(s: Seq<char>) -> Option<Seq<u8>> {
    if s.len() % 2 == 0 && forall|i: int| 0 <= i < s.len() ==> hex_value(#[trigger] s[i]) is Some {
        Some(
            Seq::new(
                s.len() / 2,
                |i: int| (hex_value(s[2 * i])->0 * 16 + hex_value(s[2 * i + 1])->0) as u8,
            ),
        )
    } else {
        None
    }
}

/// Hexadecimal digits give back the bytes that they were written for.
pub proof fn law_hex_round_trip(data: Seq<u8>)
    ensures
        hex_bytes(hex_text(data)) == Some(data),
        all_hex(hex_text(data)),
{
    let s = hex_text(data);
    assert forall|i: int| 0 <= i < s.len() implies hex_value(#[trigger] s[i]) is Some && is_hex(s[i])
        && hex_value(s[i])->0 == (if i % 2 == 0 {
        data[i / 2] as int / 16
    } else {
        data[i / 2] as int % 16
    }) by {
        let d = if i % 2 == 0 {
            data[i / 2] as int / 16
        } else {
            data[i / 2] as int % 16
        };
        assert(0 <= d < 16);
        assert(s[i] == hex_char(d));
    }
    let r = hex_bytes(s)->0;
    assert(hex_bytes(s) is Some);
    assert forall|i: int| 0 <= i < data.len() implies #[trigger] r[i] == data[i] by {
        assert(hex_value(s[2 * i])->0 == data[i] as int / 16);
        assert(hex_value(s[2 * i + 1])->0 == data[i] as int % 16);
    }
    assert(r =~= data);
}

/// Calls `hex::encode`: two lower-case digits for each byte.
#[verifier::external_body]
pub(crate) fn encode_hex(data: &Vec<u8>) -> (r: String)
    ensures
        r@ == hex_text(data@),
{
    hex::encode(data)
}

/// Calls `hex::decode`: the bytes of pairs of digits of either case, and none of any other text.
#[verifier::external_body]
pub(crate) fn decode_hex(text: &str) -> (r: Option<Vec<u8>>)
    ensures
        opt_bytes(r) == hex_bytes(text@),
{
    hex::decode(text).ok()
}

/// The HMAC-SHA-256 of data under a key, in hexadecimal digits.
pub open spec fn mac_text(key: Seq<u8>, data: Seq<u8>) -> Seq<char> {
    hex_text(mac256(key, data))
}

/// The HMAC-SHA-256 of data under a key, in hexadecimal digits.
pub fn hmac_hex(key: &Vec<u8>, data: &Vec<u8>) -> (r: String)
    ensures
        r@ == mac_text(key@, data@),
        r@.len() == 64,
        all_hex(r@),
{
    let mac = hmac_sha256(key, data);
    proof {
        law_hex_round_trip(mac@);
    }
    encode_hex(&mac)
}

/// The bytes that `data_encoding::BASE32_NOPAD` reads in a text.
pub uninterp spec fn base32_bytes(text: Seq<char>) -> Option<Seq<u8>>;

/// The bytes that `data_encoding::BASE32`, which wants padding, reads in a text.
pub uninterp spec fn base32_padded_bytes(text: Seq<char>) -> Option<Seq<u8>>;

/// The text that `data_encoding::BASE32` writes.
pub uninterp spec fn base32_text(data: Seq<u8>) -> Seq<char>;

/// The bytes that the URL-safe alphabet of `base64`, without padding, reads in a text.
pub uninterp spec fn base64_bytes(text: Seq<char>) -> Option<Seq<u8>>;

/// The text that the URL-safe alphabet of `base64`, without padding, writes.
pub uninterp spec fn base64_text(data: Seq<u8>) -> Seq<char>;

/// The picture that `qrcode` draws of a text: its least width and height, its two colours, and whether
/// there is a margin.
pub uninterp spec fn qr_picture(
    text: Seq<char>,
    size: u32,
    dark: Seq<char>,
    light: Seq<char>,
    margin: bool,
) -> Option<Seq<char>>;

/// Calls the `decode` of `data_encoding::BASE32_NOPAD`. Claimed of it: what it reads is a function of
/// the text.
#[verifier::external_body]
pub(crate) fn decode_base32(text: &str) -> (r: Option<Vec<u8>>)
    ensures
        opt_bytes(r) == base32_bytes(text@),
{
    data_encoding::BASE32_NOPAD.decode(text.as_bytes()).ok()
}

/// Calls the `decode` of `data_encoding::BASE32`. Claimed of it: what it reads is a function of the
/// text.
#[verifier::external_body]
pub(crate) fn decode_base32_padded(text: &str) -> (r: Option<Vec<u8>>)
    ensures
        opt_bytes(r) == base32_padded_bytes(text@),
{
    data_encoding::BASE32.decode(text.as_bytes()).ok()
}

/// Calls the `encode` of `data_encoding::BASE32`. Claimed of it: what it writes is a function of the
/// bytes.
#[verifier::external_body]
pub(crate) fn encode_base32(data: &Vec<u8>) -> (r: String)
    ensures
        r@ == base32_text(data@),
{
    data_encoding::BASE32.encode(data)
}

/// Calls the `decode` of `base64`'s URL-safe engine without padding. Claimed of it: what it reads is a
/// function of the text.
#[verifier::external_body]
pub(crate) fn decode_base64(text: &str) -> (r: Option<Vec<u8>>)
    ensures
        opt_bytes(r) == base64_bytes(text@),
{
    let engine = base64::engine::general_purpose::URL_SAFE_NO_PAD;
    base64::Engine::decode(&engine, text).ok()
}

/// Calls the `encode` of `base64`'s URL-safe engine without padding. Claimed of it: what it writes is a
/// function of the bytes, which `decode` reads back, and holds no full stop.
#[verifier::external_body]
pub(crate) fn encode_base64(data: &Vec<u8>) -> (r: String)
    ensures
        r@ == base64_text(data@),
        base64_bytes(r@) == Some(data@),
        !r@.contains('.'),
{
    let engine = base64::engine::general_purpose::URL_SAFE_NO_PAD;
    base64::Engine::encode(&engine, data)
}

/// Calls `qrcode::QrCode::new` and renders the code as an SVG picture. Claimed of them: the picture is
/// a function of the arguments; there is none where the text does not fit a code. The least size is
/// kept small enough for the renderer's own sums.
#[verifier::external_body]
pub(crate) fn draw_qr(text: &str, size: u32, dark: &str, light: &str, margin: bool) -> (r: Option<String>)
    requires
        size <= 65_535,
    ensures
        opt_view(r) == qr_picture(text@, size, dark@, light@, margin),
{
    let code = qrcode::QrCode::new(text.as_bytes()).ok()?;
    let mut pen = code.render::<qrcode::render::svg::Color<'_>>();
    pen.min_dimensions(size, size);
    pen.dark_color(qrcode::render::svg::Color(dark));
    pen.light_color(qrcode::render::svg::Color(light));
    pen.quiet_zone(margin);
    Some(pen.build())
}

/// Calls the `fill` of `rand::thread_rng`: as many bytes as asked for. Nothing else is claimed of them.
#[verifier::external_body]
pub(crate) fn random_bytes(n: usize) -> (r: Vec<u8>)
    ensures
        r@.len() == n,
{
    let mut v = vec![0u8; n];
    rand::Rng::fill(&mut rand::thread_rng(), v.as_mut_slice());
    v
}

/// Calls the `gen_range` of `rand::thread_rng`: a number below the one given.
#[verifier::external_body]
pub(crate) fn random_below(n: usize) -> (r: usize)
    requires
        n > 0,
    ensures
        r < n,
{
    rand::Rng::gen_range(&mut rand::thread_rng(), 0..n)
}

/// The text of a UUID: 32 hexadecimal digits in groups of 8, 4, 4, 4 and 12.
pub open spec fn uuid_text(s: Seq<char>) -> bool {
    &&& s.len() == 36
    &&& forall|i: int|
        0 <= i < 36 ==> if i == 8 || i == 13 || i == 18 || i == 23 {
            #[trigger] s[i] == '-'
        } else {
            '0' <= s[i] <= '9' || 'a' <= s[i] <= 'f'
        }
}

/// Calls `uuid::Uuid::new_v4` and writes it out with its `Display`. Claimed of it: it has the
/// hyphenated form, in lower case. Which digits it has is up to chance.
#[verifier::external_body]
pub(crate) fn new_uuid() -> (r: String)
    ensures
        uuid_text(r@),
{
    uuid::Uuid::new_v4().to_string()
}

/// Whether two strings of bytes are the same, found out without stopping at the first difference.
pub fn ct_eq(a: &Vec<u8>, b: &Vec<u8>) -> (r: bool)
    ensures
        r == (a@ == b@),
{
    if a.len() != b.len() {
        return false;
    }
    let mut acc: u8 = 0;
    let mut i: usize = 0;
    while i < a.len()
        invariant
            i <= a@.len(),
            a@.len() == b@.len(),
            acc == 0 <==> (forall|j: int| 0 <= j < i ==> a@[j] == b@[j]),
        decreases a@.len() - i,
    {
        let x: u8 = a[i];
        let y: u8 = b[i];
        assert((acc | (x ^ y)) == 0u8 <==> (acc == 0u8 && x == y)) by (bit_vector);
        acc = acc | (x ^ y);
        i = i + 1;
    }
    if acc == 0 {
        assert(a@ =~= b@);
    }
    acc == 0
}

/// Whether two texts are the same, found out without stopping at the first difference.
pub fn ct_same(a: &str, b: &str) -> (r: bool)
    ensures
        r == (a@ == b@),
{
    let r = ct_eq(&text_bytes(a), &text_bytes(b));
    proof {
        if r {
            lemma_bytes_injective(a@, b@);
        }
    }
    r
}

} // verus!
