//! Codes that change with time, as authenticators show them.
use crate::codec::{
    base32_bytes, base32_padded_bytes, ct_same, decode_base32, decode_base32_padded, draw_qr,
    hmac_sha1, mac1, opt_bytes, qr_picture, text_bytes,
};
use crate::json::all_digits;
use crate::text::{cat2, char_is_space, chars_of, digit_char, opt_view, to_upper, upper_char, uppered};
use vstd::prelude::*;
use vstd::utf8::encode_utf8;

verus! {

/// The time that one code lasts.
pub const PERIOD_SECS: u64 = 30;

/// How wide the picture of an enrolment is at least.
pub const QR_SIZE: u32 = 180;

/// The padding that base 32 wants behind as many characters.
pub open spec fn padding_of(len: int) -> Seq<char> {
    if len % 8 == 2 {
        "======"@
    } else if len % 8 == 4 {
        "===="@
    } else if len % 8 == 5 {
        "==="@
    } else if len % 8 == 7 {
        "="@
    } else {
        ""@
    }
}

/// The padding that base 32 wants behind a text.
pub fn padding(s: &str) -> (r: &'static str)
    ensures
        r@ == padding_of(encode_utf8(s@).len() as int),
{
    let n = text_bytes(s).len() % 8;
    if n == 2 {
        "======"
    } else if n == 4 {
        "===="
    } else if n == 5 {
        "==="
    } else if n == 7 {
        "="
    } else {
        ""
    }
}

/// A secret as it was typed, without spaces and padding, in capitals.
pub open spec fn cleaned(s: Seq<char>) -> Seq<char> {
    uppered(s.filter(|c: char| !char_is_space(c) && c != '='))
}

/// The key that a secret stands for, in base 32 with or without padding.
pub open spec fn totp_key(secret: Seq<char>) -> Option<Seq<u8>> {
    let c = cleaned(secret);
    match base32_bytes(c) {
        Some(b) => Some(b),
        None => base32_padded_bytes(c + padding_of(encode_utf8(c).len() as int)),
    }
}

fn clean(secret: &str) -> (r: String)
    ensures
        r@ == cleaned(secret@),
{
    let s = chars_of(secret);
    let mut out: String = String::new();
    let ghost keep = |c: char| !char_is_space(c) && c != '=';
    let mut i: usize = 0;
    assert(s@.take(0).filter(keep) =~= Seq::<char>::empty()) by {
        reveal(Seq::filter);
    }
    while i < s.len()
        invariant
            i <= s@.len(),
            keep == (|c: char| !char_is_space(c) && c != '='),
            out@ == uppered(s@.take(i as int).filter(keep)),
        decreases s@.len() - i,
    {
        let c = s[i];
        proof {
            reveal(Seq::filter);
            assert(s@.take(i + 1).drop_last() =~= s@.take(i as int));
            assert(s@.take(i + 1).last() == c);
        }
        if !c.is_whitespace() && c != '=' {
            out.push(to_upper(c));
            let ghost kept = s@.take(i as int).filter(keep);
            assert(s@.take(i + 1).filter(keep) == kept.push(c));
            assert(uppered(kept.push(c)) =~= uppered(kept).push(upper_char(c)));
        }
        i = i + 1;
    }
    assert(s@.take(i as int) =~= secret@);
    out
}

/// The key that a secret stands for, in base 32 with or without padding.
pub fn decode_totp_secret(secret: &str) -> (r: Option<Vec<u8>>)
    ensures
        opt_bytes(r) == totp_key(secret@),
{
    let c = clean(secret);
    match decode_base32(c.as_str()) {
        Some(b) => Some(b),
        None => decode_base32_padded(cat2(c.as_str(), padding(c.as_str())).as_str()),
    }
}

/// The eight bytes of a number, the highest first.
pub open spec fn high_first(n: u64) -> Seq<u8> {
    seq![
        (n / 0x100_0000_0000_0000 % 256) as u8,
        (n / 0x1_0000_0000_0000 % 256) as u8,
        (n / 0x100_0000_0000 % 256) as u8,
        (n / 0x1_0000_0000 % 256) as u8,
        (n / 0x100_0000 % 256) as u8,
        (n / 0x1_0000 % 256) as u8,
        (n / 0x100 % 256) as u8,
        (n % 256) as u8,
    ]
}

fn to_high_first(n: u64) -> (r: Vec<u8>)
    ensures
        r@ == high_first(n),
{
    let mut v: Vec<u8> = Vec::new();
    v.push((n / 0x100_0000_0000_0000 % 256) as u8);
    v.push((n / 0x1_0000_0000_0000 % 256) as u8);
    v.push((n / 0x100_0000_0000 % 256) as u8);
    v.push((n / 0x1_0000_0000 % 256) as u8);
    v.push((n / 0x100_0000 % 256) as u8);
    v.push((n / 0x1_0000 % 256) as u8);
    v.push((n / 0x100 % 256) as u8);
    v.push((n % 256) as u8);
    assert(v@ =~= high_first(n));
    v
}

/// The number in the four bytes of a digest at which its last half byte points, without the sign.
pub open spec fn picked(hash: Seq<u8>) -> int {
    let at = hash[19] as int % 16;
    (hash[at] as int % 128) * 0x100_0000 + hash[at + 1] as int * 0x1_0000 + hash[at + 2] as int * 0x100
        + hash[at + 3] as int
}

/// Six digits of a number, with leading zeros.
pub open spec fn six_digits(n: int) -> Seq<char> {
    seq![
        digit_char(n / 100_000 % 10),
        digit_char(n / 10_000 % 10),
        digit_char(n / 1_000 % 10),
        digit_char(n / 100 % 10),
        digit_char(n / 10 % 10),
        digit_char(n % 10),
    ]
}

/// The code of a key at a time.
pub open spec fn code_at(key: Seq<u8>, unix: u64) -> Seq<char> {
    code_of(mac1(key, high_first(unix / PERIOD_SECS)))
}

/// The code that a digest stands for.
pub open spec fn code_of(hash: Seq<u8>) -> Seq<char> {
    six_digits(picked(hash) % 1_000_000)
}

fn digit(d: u32) -> (r: char)
    requires
        d < 10,
    ensures
        r == digit_char(d as int),
{
    (48u8 + d as u8) as char
}

/// The code that a digest stands for.
pub fn code_from(hash: &Vec<u8>) -> (r: String)
    requires
        hash@.len() == 20,
    ensures
        r@ == code_of(hash@),
{
    let at: usize = (hash[19] % 16) as usize;
    let bin: u32 = (hash[at] % 128) as u32 * 0x100_0000 + hash[at + 1] as u32 * 0x1_0000
        + hash[at + 2] as u32 * 0x100 + hash[at + 3] as u32;
    let n: u32 = bin % 1_000_000;
    let mut out: String = String::new();
    out.push(digit(n / 100_000 % 10));
    out.push(digit(n / 10_000 % 10));
    out.push(digit(n / 1_000 % 10));
    out.push(digit(n / 100 % 10));
    out.push(digit(n / 10 % 10));
    out.push(digit(n % 10));
    assert(out@ =~= code_of(hash@));
    out
}

/// The code of a key at a time.
pub fn totp_code(secret: &Vec<u8>, unix: u64) -> (r: String)
    ensures
        r@ == code_at(secret@, unix),
{
    let hash = hmac_sha1(secret, &to_high_first(unix / PERIOD_SECS));
    code_from(&hash)
}

/// A code: six digits.
pub open spec fn is_code(s: Seq<char>) -> bool {
    s.len() == 6 && all_digits(s)
}

/// The time one period earlier, or the first of all.
pub open spec fn period_before(unix: u64) -> u64 {
    if unix < PERIOD_SECS {
        0
    } else {
        (unix - PERIOD_SECS) as u64
    }
}

/// The time one period later, or the last of all.
pub open spec fn period_after(unix: u64) -> u64 {
    if unix > u64::MAX - PERIOD_SECS {
        u64::MAX
    } else {
        (unix + PERIOD_SECS) as u64
    }
}

/// A code is accepted in its own period, and one period earlier or later.
pub open spec fn accepts(secret: Seq<char>, code: Seq<char>, unix: u64) -> bool {
    &&& is_code(code)
    &&& match totp_key(secret) {
        Some(key) => code == code_at(key, unix) || code == code_at(key, period_before(unix)) || code
            == code_at(key, period_after(unix)),
        None => false,
    }
}

fn looks_like_code(code: &str) -> (r: bool)
    ensures
        r == is_code(code@),
{
    let s = chars_of(code);
    if s.len() != 6 {
        return false;
    }
    let mut i: usize = 0;
    while i < s.len()
        invariant
            i <= s@.len(),
            forall|j: int| 0 <= j < i ==> '0' <= (#[trigger] s@[j]) <= '9',
            s@ == code@,
        decreases s@.len() - i,
    {
        if s[i] < '0' || s[i] > '9' {
            return false;
        }
        i = i + 1;
    }
    true
}

/// Whether a code is right for a secret at a time, one period of either side allowed for.
pub fn totp_accepts(secret_b32: &str, code: &str, unix: u64) -> (r: bool)
    ensures
        r == accepts(secret_b32@, code@, unix),
{
    if !looks_like_code(code) {
        return false;
    }
    match decode_totp_secret(secret_b32) {
        Some(key) => {
            let before: u64 = if unix < PERIOD_SECS {
                0
            } else {
                unix - PERIOD_SECS
            };
            let after: u64 = if unix > u64::MAX - PERIOD_SECS {
                u64::MAX
            } else {
                unix + PERIOD_SECS
            };
            ct_same(totp_code(&key, unix).as_str(), code) || ct_same(
                totp_code(&key, before).as_str(),
                code,
            ) || ct_same(totp_code(&key, after).as_str(), code)
        },
        None => false,
    }
}

/// A code is always six digits.
proof fn lemma_code_is_code(hash: Seq<u8>)
    ensures
        is_code(code_of(hash)),
{
}

/// The code that a key shows in one period is accepted throughout that period, the one before it and
/// the one after it.
pub proof fn law_shown_code_is_accepted(secret: Seq<char>, shown: u64, unix: u64)
    requires
        totp_key(secret) is Some,
        -1 <= shown / PERIOD_SECS - unix / PERIOD_SECS <= 1,
    ensures
        accepts(secret, code_at(totp_key(secret)->0, shown), unix),
{
    lemma_code_is_code(mac1(totp_key(secret)->0, high_first(shown / PERIOD_SECS)));
    if shown / PERIOD_SECS < unix / PERIOD_SECS {
        assert(period_before(unix) / PERIOD_SECS == shown / PERIOD_SECS);
    } else if shown / PERIOD_SECS > unix / PERIOD_SECS {
        assert(period_after(unix) / PERIOD_SECS == shown / PERIOD_SECS);
    }
}

/// A capital hexadecimal digit.
pub open spec fn capital_hex(d: int) -> char {
    if d < 10 {
        digit_char(d)
    } else {
        ('A' as int + (d - 10)) as char
    }
}

/// A byte that stands for itself in an address.
pub open spec fn unreserved(b: u8) -> bool {
    ||| 'A' as u8 <= b && b <= 'Z' as u8
    ||| 'a' as u8 <= b && b <= 'z' as u8
    ||| '0' as u8 <= b && b <= '9' as u8
    ||| b == '-' as u8
    ||| b == '_' as u8
    ||| b == '.' as u8
    ||| b == '~' as u8
}

/// How a byte is written in an address.
pub open spec fn escaped(b: u8) -> Seq<char> {
    if unreserved(b) {
        seq![b as char]
    } else {
        seq!['%', capital_hex(b as int / 16), capital_hex(b as int % 16)]
    }
}

/// How bytes are written in an address.
pub open spec fn url_bytes(b: Seq<u8>) -> Seq<char>
    decreases b.len(),
{
    if b.len() == 0 {
        Seq::empty()
    } else {
        url_bytes(b.drop_last()) + escaped(b.last())
    }
}

fn to_capital_hex(d: u8) -> (r: char)
    requires
        d < 16,
    ensures
        r == capital_hex(d as int),
{
    if d < 10 {
        (48u8 + d) as char
    } else {
        (55u8 + d) as char
    }
}

/// How a text is written in an address.
pub fn url_encode(s: &str) -> (r: String)
    ensures
        r@ == url_bytes(encode_utf8(s@)),
{
    let b = text_bytes(s);
    let mut out: String = String::new();
    let mut i: usize = 0;
    assert(b@.take(0) =~= Seq::<u8>::empty());
    while i < b.len()
        invariant
            i <= b@.len(),
            out@ == url_bytes(b@.take(i as int)),
        decreases b@.len() - i,
    {
        let x: u8 = b[i];
        let ghost before = out@;
        assert(b@.take(i + 1).drop_last() =~= b@.take(i as int));
        assert(b@.take(i + 1).last() == x);
        if (65 <= x && x <= 90) || (97 <= x && x <= 122) || (48 <= x && x <= 57) || x == 45 || x == 95
            || x == 46 || x == 126 {
            out.push(x as char);
            assert(unreserved(x));
            assert(out@ =~= before + escaped(x));
        } else {
            out.push('%');
            out.push(to_capital_hex(x / 16));
            out.push(to_capital_hex(x % 16));
            assert(!unreserved(x));
            assert(out@ =~= before + escaped(x));
        }
        i = i + 1;
    }
    assert(b@.take(i as int) =~= b@);
    out
}

/// The address that enrols an authenticator.
pub open spec fn enrol_address(account: Seq<char>, secret: Seq<char>) -> Seq<char> {
    "otpauth://totp/STOCK%20MM:"@ + url_bytes(encode_utf8(account)) + "?secret="@ + secret
        + "&issuer=STOCK%20MM&algorithm=SHA1&digits=6&period=30"@
}

/// The address that enrols an authenticator.
pub fn otpauth_url(account: &str, secret: &str) -> (r: String)
    ensures
        r@ == enrol_address(account@, secret@),
{
    let mut out: String = "otpauth://totp/STOCK%20MM:".to_owned();
    out.append(url_encode(account).as_str());
    out.append("?secret=");
    out.append(secret);
    out.append("&issuer=STOCK%20MM&algorithm=SHA1&digits=6&period=30");
    out
}

/// The picture of an address that enrols an authenticator.
pub open spec fn enrol_picture(url: Seq<char>) -> Option<Seq<char>> {
    qr_picture(url, QR_SIZE, "#0b1020"@, "#ffffff"@, true)
}

/// The picture of an address that enrols an authenticator.
pub fn qr_svg(url: &str) -> (r: Option<String>)
    ensures
        opt_view(r) == enrol_picture(url@),
{
    draw_qr(url, QR_SIZE, "#0b1020", "#ffffff", true)
}

/// A code that is accepted is the one that the secret shows in this period, the one before or the one after; no
/// other is.
pub proof fn law_only_shown_codes_are_accepted(secret: Seq<char>, code: Seq<char>, unix: u64)
    requires
        accepts(secret, code, unix),
        30 <= unix <= u64::MAX - 30,
    ensures
        totp_key(secret) is Some,
        code.len() == 6,
        exists|at: u64| #[trigger]
            code_at(totp_key(secret)->0, at) == code && (at == unix || at == unix - 30 || at == unix + 30),
{
}

/// A code lasts half a minute: at all times of one it is the same.
pub proof fn law_codes_last_half_a_minute(key: Seq<u8>, a: u64, b: u64)
    requires
        a / 30 == b / 30,
    ensures
        code_at(key, a) == code_at(key, b),
{
}

/// Six digits read as the number that they were made of.
proof fn lemma_six_digits(n: int)
    requires
        0 <= n < 1_000_000,
    ensures
        n == (n / 100_000 % 10) * 100_000 + (n / 10_000 % 10) * 10_000 + (n / 1_000 % 10) * 1_000 + (n
            / 100 % 10) * 100 + (n / 10 % 10) * 10 + n % 10,
{
    let a = n / 10;
    let b = n / 100;
    let c = n / 1_000;
    let d = n / 10_000;
    let e = n / 100_000;
    assert(b == a / 10);
    assert(c == b / 10);
    assert(d == c / 10);
    assert(e == d / 10);
    assert(0 <= e < 10);
    assert(n == a * 10 + n % 10);
    assert(a == b * 10 + a % 10);
    assert(b == c * 10 + b % 10);
    assert(c == d * 10 + c % 10);
    assert(d == e * 10 + d % 10);
}

proof fn lemma_digit_char(d: int)
    requires
        0 <= d < 10,
    ensures
        digit_char(d) as int - 48 == d,
{
}

/// The number that a code is made of, and its digits: the code reads as that number.
pub proof fn law_code_reads_as_its_number(hash: Seq<u8>)
    requires
        hash.len() == 20,
    ensures
        0 <= picked(hash) < 0x8000_0000,
        ({
            let c = code_of(hash);
            (c[0] as int - 48) * 100_000 + (c[1] as int - 48) * 10_000 + (c[2] as int - 48) * 1_000 + (
            c[3] as int - 48) * 100 + (c[4] as int - 48) * 10 + (c[5] as int - 48) == picked(hash)
                % 1_000_000
        }),
{
    let n = picked(hash) % 1_000_000;
    lemma_six_digits(n);
    lemma_digit_char(n / 100_000 % 10);
    lemma_digit_char(n / 10_000 % 10);
    lemma_digit_char(n / 1_000 % 10);
    lemma_digit_char(n / 100 % 10);
    lemma_digit_char(n / 10 % 10);
    lemma_digit_char(n % 10);
    let c = code_of(hash);
    assert(c[0] == digit_char(n / 100_000 % 10) && c[1] == digit_char(n / 10_000 % 10));
    assert(c[2] == digit_char(n / 1_000 % 10) && c[3] == digit_char(n / 100 % 10));
    assert(c[4] == digit_char(n / 10 % 10) && c[5] == digit_char(n % 10));
}

} // verus!
