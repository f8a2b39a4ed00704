//! JSON values, read and written by `serde_json`.
use crate::text::{
    digit_char, digits, digits_text, lemma_digits_are_digits, same_text, signed_digits,
    signed_text,
};
use crate::types::decimal::{dec_int, decimal_parsed, Decimal};
use vstd::prelude::*;

verus! {

/// A number as it was read: as each kind of integer that holds it, as it is written, cut off to an
/// integer, and as the decimal of its double.
#[derive(Debug)]
pub struct JsonNumber {
    pub int: Option<i64>,
    pub uint: Option<u64>,
    pub text: String,
    pub whole: Option<i64>,
    pub retained: Option<Decimal>,
}

impl Clone for JsonNumber {
    fn clone(&self) -> (r: Self)
        ensures
            r == *self,
    {
        JsonNumber {
            int: self.int,
            uint: self.uint,
            text: self.text.clone(),
            whole: self.whole,
            retained: self.retained,
        }
    }
}

/// What a number says: everything that can be read of it.
pub struct NumberV {
    pub int: Option<i64>,
    pub uint: Option<u64>,
    pub text: Seq<char>,
    pub whole: Option<i64>,
    pub retained: Option<Decimal>,
}

impl View for JsonNumber {
    type V = NumberV;

    open spec fn view(&self) -> NumberV {
        NumberV {
            int: self.int,
            uint: self.uint,
            text: self.text@,
            whole: self.whole,
            retained: self.retained,
        }
    }
}

#[derive(Debug)]
pub enum Json {
    Null,
    Bool(bool),
    Number(JsonNumber),
    Text(String),
    List(Vec<Json>),
    Object(Vec<(String, Json)>),
}

/// What a value says.
pub enum JsonV {
    Null,
    Bool(bool),
    Number(NumberV),
    Text(Seq<char>),
    List(Seq<JsonV>),
    Object(Seq<(Seq<char>, JsonV)>),
}

impl Json {
    /// What a value says.
    pub open spec fn says(self) -> JsonV
        decreases self,
    {
        match self {
            Json::Null => JsonV::Null,
            Json::Bool(b) => JsonV::Bool(b),
            Json::Number(n) => JsonV::Number(n@),
            Json::Text(s) => JsonV::Text(s@),
            Json::List(v) => JsonV::List(
                Seq::new(
                    v@.len(),
                    |i: int|
                        if 0 <= i < v@.len() {
                            v@[i].says()
                        } else {
                            JsonV::Null
                        },
                ),
            ),
            Json::Object(v) => JsonV::Object(
                Seq::new(
                    v@.len(),
                    |i: int|
                        if 0 <= i < v@.len() {
                            (v@[i].0@, v@[i].1.says())
                        } else {
                            (Seq::empty(), JsonV::Null)
                        },
                ),
            ),
        }
    }
}

/// A value of `serde_json`.
#[verifier::external_type_specification]
#[verifier::external_body]
pub struct ExValue(serde_json::Value);

/// A number of `serde_json`.
#[verifier::external_type_specification]
#[verifier::external_body]
pub struct ExNumber(serde_json::Number);

/// What `serde_json::from_str` reads in a text; `None` where it refuses it.
pub uninterp spec fn json_read(text: Seq<char>) -> Option<Json>;

/// What the `Display` of `serde_json::Value` writes.
pub uninterp spec fn json_written(v: JsonV) -> Seq<char>;

/// Turns a number of `serde_json` into plain values, one for one.
#[verifier::external_body]
fn number_of(n: &serde_json::Number) -> JsonNumber {
    let retained = n.as_f64().and_then(rust_decimal::Decimal::from_f64_retain);
    JsonNumber {
        int: n.as_i64(),
        uint: n.as_u64(),
        text: n.to_string(),
        whole: n.as_f64().map(|x| x as i64),
        retained: retained.map(|d| Decimal { mantissa: d.mantissa(), scale: d.scale() }),
    }
}

/// Turns a value of `serde_json` into one of this library, one for one.
#[verifier::external_body]
fn json_of(v: &serde_json::Value) -> Json {
    match v {
        serde_json::Value::Null => Json::Null,
        serde_json::Value::Bool(b) => Json::Bool(*b),
        serde_json::Value::Number(n) => Json::Number(number_of(n)),
        serde_json::Value::String(s) => Json::Text(s.clone()),
        serde_json::Value::Array(a) => Json::List(a.iter().map(json_of).collect()),
        serde_json::Value::Object(o) => Json::Object(
            o.iter().map(|(k, x)| (k.clone(), json_of(x))).collect(),
        ),
    }
}

/// Turns a value of this library into one of `serde_json`, one for one. A number is one that an
/// integer holds.
#[verifier::external_body]
fn value_of(v: &Json) -> serde_json::Value {
    match v {
        Json::Null => serde_json::Value::Null,
        Json::Bool(b) => serde_json::Value::Bool(*b),
        Json::Number(n) => serde_json::from_str(&n.text).unwrap_or_default(),
        Json::Text(s) => serde_json::Value::String(s.clone()),
        Json::List(a) => serde_json::Value::Array(a.iter().map(value_of).collect()),
        Json::Object(o) => serde_json::Value::Object(
            o.iter().map(|(k, x)| (k.clone(), value_of(x))).collect(),
        ),
    }
}

/// Calls `serde_json::from_str`. Claimed of it: what it reads is a function of the text.
#[verifier::external_body]
pub(crate) fn read_json(text: &str) -> (r: Option<Json>)
    ensures
        r == json_read(text@),
{
    let v: serde_json::Value = serde_json::from_str(text).ok()?;
    Some(json_of(&v))
}

/// Calls the `Display` of `serde_json::Value`. Claimed of it: what it writes is a function of the
/// value.
#[verifier::external_body]
pub(crate) fn write_json(v: &Json) -> (r: String)
    ensures
        r@ == json_written(v.says()),
{
    value_of(v).to_string()
}

/// The place of a key among the members from `i` on; the number of members if it has none.
pub open spec fn member_place(v: Seq<(String, Json)>, key: Seq<char>, i: int) -> int
    decreases v.len() - i,
{
    if 0 <= i < v.len() && v[i].0@ != key {
        member_place(v, key, i + 1)
    } else {
        i
    }
}

fn find_member(v: &Vec<(String, Json)>, key: &str) -> (r: usize)
    ensures
        r == member_place(v@, key@, 0),
        r <= v@.len(),
{
    let mut i: usize = 0;
    while i < v.len()
        invariant
            i <= v.len(),
            member_place(v@, key@, 0) == member_place(v@, key@, i as int),
        decreases v.len() - i,
    {
        if same_text(&v[i].0, key) {
            return i;
        }
        i = i + 1;
    }
    i
}

impl Json {
    /// The member of an object under a key.
    pub open spec fn field(self, key: Seq<char>) -> Option<Json> {
        match self {
            Json::Object(v) => {
                let p = member_place(v@, key, 0);
                if p < v@.len() {
                    Some(v@[p].1)
                } else {
                    None
                }
            },
            _ => None,
        }
    }

    pub open spec fn text_value(self) -> Option<Seq<char>> {
        match self {
            Json::Text(s) => Some(s@),
            _ => None,
        }
    }

    pub open spec fn bool_value(self) -> Option<bool> {
        match self {
            Json::Bool(b) => Some(b),
            _ => None,
        }
    }

    pub open spec fn int_value(self) -> Option<i64> {
        match self {
            Json::Number(n) => n.int,
            _ => None,
        }
    }

    pub open spec fn uint_value(self) -> Option<u64> {
        match self {
            Json::Number(n) => n.uint,
            _ => None,
        }
    }

    pub open spec fn list_value(self) -> Option<Seq<Json>> {
        match self {
            Json::List(v) => Some(v@),
            _ => None,
        }
    }

    /// The text of a member.
    pub open spec fn text_at(self, key: Seq<char>) -> Option<Seq<char>> {
        match self.field(key) {
            Some(v) => v.text_value(),
            None => None,
        }
    }

    /// The text of a member, or what stands in for it.
    pub open spec fn text_or(self, key: Seq<char>, fallback: Seq<char>) -> Seq<char> {
        match self.text_at(key) {
            Some(s) => s,
            None => fallback,
        }
    }

    /// The truth of a member.
    pub open spec fn bool_or(self, key: Seq<char>, fallback: bool) -> bool {
        match self.field(key) {
            Some(v) => match v.bool_value() {
                Some(b) => b,
                None => fallback,
            },
            None => fallback,
        }
    }

    /// The integer of a member.
    pub open spec fn int_at(self, key: Seq<char>) -> Option<i64> {
        match self.field(key) {
            Some(v) => v.int_value(),
            None => None,
        }
    }

    /// The integer of a member, or what stands in for it.
    pub open spec fn int_or(self, key: Seq<char>, fallback: i64) -> i64 {
        match self.int_at(key) {
            Some(n) => n,
            None => fallback,
        }
    }

    /// The unsigned integer of a member.
    pub open spec fn uint_at(self, key: Seq<char>) -> Option<u64> {
        match self.field(key) {
            Some(v) => v.uint_value(),
            None => None,
        }
    }

    /// The list of a member.
    pub open spec fn list_at(self, key: Seq<char>) -> Option<Seq<Json>> {
        match self.field(key) {
            Some(v) => v.list_value(),
            None => None,
        }
    }

    pub fn get(&self, key: &str) -> (r: Option<&Json>)
        ensures
            match r {
                Some(v) => self.field(key@) == Some(*v),
                None => self.field(key@) is None,
            },
    {
        match self {
            Json::Object(v) => {
                let p = find_member(v, key);
                if p < v.len() {
                    Some(&v[p].1)
                } else {
                    None
                }
            },
            _ => None,
        }
    }

    pub fn as_text(&self) -> (r: Option<&String>)
        ensures
            match r {
                Some(s) => self.text_value() == Some(s@),
                None => self.text_value() is None,
            },
    {
        match self {
            Json::Text(s) => Some(s),
            _ => None,
        }
    }

    pub fn as_bool(&self) -> (r: Option<bool>)
        ensures
            r == self.bool_value(),
    {
        match self {
            Json::Bool(b) => Some(*b),
            _ => None,
        }
    }

    pub fn as_int(&self) -> (r: Option<i64>)
        ensures
            r == self.int_value(),
    {
        match self {
            Json::Number(n) => n.int,
            _ => None,
        }
    }

    pub fn as_uint(&self) -> (r: Option<u64>)
        ensures
            r == self.uint_value(),
    {
        match self {
            Json::Number(n) => n.uint,
            _ => None,
        }
    }

    pub fn as_list(&self) -> (r: Option<&Vec<Json>>)
        ensures
            match r {
                Some(v) => self.list_value() == Some(v@),
                None => self.list_value() is None,
            },
    {
        match self {
            Json::List(v) => Some(v),
            _ => None,
        }
    }

    pub fn get_text(&self, key: &str) -> (r: Option<&String>)
        ensures
            match r {
                Some(s) => self.text_at(key@) == Some(s@),
                None => self.text_at(key@) is None,
            },
    {
        match self.get(key) {
            Some(v) => v.as_text(),
            None => None,
        }
    }

    pub fn get_text_or(&self, key: &str, fallback: &str) -> (r: String)
        ensures
            r@ == self.text_or(key@, fallback@),
    {
        match self.get_text(key) {
            Some(s) => s.clone(),
            None => fallback.to_owned(),
        }
    }

    pub fn get_bool_or(&self, key: &str, fallback: bool) -> (r: bool)
        ensures
            r == self.bool_or(key@, fallback),
    {
        match self.get(key) {
            Some(v) => match v.as_bool() {
                Some(b) => b,
                None => fallback,
            },
            None => fallback,
        }
    }

    pub fn get_int(&self, key: &str) -> (r: Option<i64>)
        ensures
            r == self.int_at(key@),
    {
        match self.get(key) {
            Some(v) => v.as_int(),
            None => None,
        }
    }

    pub fn get_int_or(&self, key: &str, fallback: i64) -> (r: i64)
        ensures
            r == self.int_or(key@, fallback),
    {
        match self.get_int(key) {
            Some(n) => n,
            None => fallback,
        }
    }

    pub fn get_uint(&self, key: &str) -> (r: Option<u64>)
        ensures
            r == self.uint_at(key@),
    {
        match self.get(key) {
            Some(v) => v.as_uint(),
            None => None,
        }
    }

    pub fn get_list(&self, key: &str) -> (r: Option<&Vec<Json>>)
        ensures
            match r {
                Some(v) => self.list_at(key@) == Some(v@),
                None => self.list_at(key@) is None,
            },
    {
        match self.get(key) {
            Some(v) => v.as_list(),
            None => None,
        }
    }

    /// The decimal that a text or a number writes out. A number is read as it is written, not as
    /// its double, whose binary error would spoil comparisons with ticks.
    pub open spec fn decimal_value(self) -> Option<Decimal> {
        match self {
            Json::Text(s) => decimal_parsed(s@),
            Json::Number(n) => decimal_parsed(n.text@),
            _ => None,
        }
    }

    pub fn as_decimal(&self) -> (r: Option<Decimal>)
        ensures
            r == self.decimal_value(),
    {
        match self {
            Json::Text(s) => Decimal::parse(s),
            Json::Number(n) => Decimal::parse(&n.text),
            _ => None,
        }
    }

    /// The decimal that a text, an integer, or the double of another number comes to.
    pub open spec fn loose_decimal(self) -> Option<Decimal> {
        match self {
            Json::Text(s) => decimal_parsed(s@),
            Json::Number(n) => match n.int {
                Some(i) => Some(dec_int(i as int)),
                None => n.retained,
            },
            _ => None,
        }
    }

    pub fn as_loose_decimal(&self) -> (r: Option<Decimal>)
        ensures
            r == self.loose_decimal(),
    {
        match self {
            Json::Text(s) => Decimal::parse(s),
            Json::Number(n) => match n.int {
                Some(i) => Some(Decimal::from_int(i)),
                None => n.retained,
            },
            _ => None,
        }
    }

    /// The integer that a number or a text comes to; a fraction is cut off.
    pub open spec fn whole_value(self) -> Option<i64> {
        match self {
            Json::Text(s) => int_written(s@),
            Json::Number(n) => match (n.int, n.uint) {
                (Some(i), _) => Some(i),
                (None, Some(u)) => if u <= i64::MAX {
                    Some(u as i64)
                } else {
                    None
                },
                (None, None) => n.whole,
            },
            _ => None,
        }
    }

    pub fn as_whole(&self) -> (r: Option<i64>)
        ensures
            r == self.whole_value(),
    {
        match self {
            Json::Text(s) => parse_int(s),
            Json::Number(n) => match (n.int, n.uint) {
                (Some(i), _) => Some(i),
                (None, Some(u)) => if u <= i64::MAX as u64 {
                    Some(u as i64)
                } else {
                    None
                },
                (None, None) => n.whole,
            },
            _ => None,
        }
    }
}

/// Every character is a decimal digit.
pub open spec fn all_digits(s: Seq<char>) -> bool {
    forall|i: int| 0 <= i < s.len() ==> '0' <= (#[trigger] s[i]) <= '9'
}

/// The number that digits write out.
pub open spec fn digits_value(s: Seq<char>) -> nat
    decreases s.len(),
{
    if s.len() == 0 {
        0
    } else {
        digits_value(s.drop_last()) * 10 + (s.last() as nat - '0' as nat) as nat
    }
}

/// The text has a sign in front.
pub open spec fn has_sign(s: Seq<char>) -> bool {
    s.len() > 0 && (s[0] == '+' || s[0] == '-')
}

/// The integer of 64 bits that a text writes out: a sign or none, and digits.
pub open spec fn int_written(s: Seq<char>) -> Option<i64> {
    let d = if has_sign(s) {
        s.skip(1)
    } else {
        s
    };
    let v = if s.len() > 0 && s[0] == '-' {
        -(digits_value(d) as int)
    } else {
        digits_value(d) as int
    };
    if d.len() > 0 && all_digits(d) && i64::MIN <= v <= i64::MAX {
        Some(v as i64)
    } else {
        None
    }
}

proof fn lemma_digits_grow(s: Seq<char>, n: int)
    requires
        0 <= n <= s.len(),
    ensures
        digits_value(s) >= digits_value(s.take(n)),
    decreases s.len(),
{
    if n < s.len() {
        lemma_digits_grow(s.drop_last(), n);
        assert(s.drop_last().take(n) =~= s.take(n));
    } else {
        assert(s.take(n) =~= s);
    }
}

/// The integer of 64 bits that a text writes out.
pub fn parse_int(text: &str) -> (r: Option<i64>)
    ensures
        r == int_written(text@),
{
    let s = crate::text::chars_of(text);
    let n = s.len();
    let neg = n > 0 && s[0] == '-';
    let start: usize = if n > 0 && (s[0] == '-' || s[0] == '+') {
        1
    } else {
        0
    };
    let ghost d = if has_sign(text@) {
        text@.skip(1)
    } else {
        text@
    };
    assert(d =~= text@.skip(start as int));
    if start == n {
        return None;
    }
    let mut v: i128 = 0;
    let mut i: usize = start;
    assert(d.take(0) =~= Seq::<char>::empty());
    while i < n
        invariant
            start <= i <= n,
            n == s.len(),
            s@ == text@,
            d == text@.skip(start as int),
            d == (if has_sign(text@) {
                text@.skip(1)
            } else {
                text@
            }),
            0 <= v <= 0x8000_0000_0000_0000,
            v == digits_value(d.take(i - start)),
            forall|j: int| 0 <= j < i - start ==> '0' <= (#[trigger] d[j]) <= '9',
        decreases n - i,
    {
        let c = s[i];
        assert(d[i - start] == c);
        if c < '0' || c > '9' {
            assert(!all_digits(d));
            return None;
        }
        let k: i128 = (c as u32 - '0' as u32) as i128;
        proof {
            let next = d.take(i - start + 1);
            assert(next.drop_last() =~= d.take(i - start));
            assert(next.last() == c);
        }
        v = v * 10 + k;
        if v > 0x8000_0000_0000_0000 {
            proof {
                lemma_digits_grow(d, i - start + 1);
            }
            return None;
        }
        i = i + 1;
    }
    assert(d.take(n - start) =~= d);
    assert(all_digits(d));
    if neg {
        Some((-v) as i64)
    } else if v <= 0x7FFF_FFFF_FFFF_FFFF {
        Some(v as i64)
    } else {
        None
    }
}

/// The unsigned integer of 64 bits that a text writes out: a plus sign or none, and digits.
pub open spec fn uint_written(s: Seq<char>) -> Option<u64> {
    let d = if s.len() > 0 && s[0] == '+' {
        s.skip(1)
    } else {
        s
    };
    if d.len() > 0 && all_digits(d) && digits_value(d) <= u64::MAX {
        Some(digits_value(d) as u64)
    } else {
        None
    }
}

/// The digits of a number write it out.
pub proof fn lemma_digits_value(n: nat)
    ensures
        digits_value(digits(n)) == n,
        n <= u64::MAX ==> uint_written(digits(n)) == Some(n as u64),
    decreases n,
{
    lemma_digits_are_digits(n);
    if n < 10 {
        assert(digits(n).drop_last() =~= Seq::<char>::empty());
        assert(digits(n).last() == digit_char(n as int));
    } else {
        lemma_digits_value(n / 10);
        assert(digits(n).drop_last() =~= digits(n / 10));
        assert(digits(n).last() == digit_char((n % 10) as int));
    }
    assert(digits_value(Seq::<char>::empty()) == 0);
    assert('0' <= digits(n)[0] <= '9');
}

/// The unsigned integer of 64 bits that a text writes out.
pub fn parse_uint(text: &str) -> (r: Option<u64>)
    ensures
        r == uint_written(text@),
{
    let s = crate::text::chars_of(text);
    let n = s.len();
    let start: usize = if n > 0 && s[0] == '+' {
        1
    } else {
        0
    };
    let ghost d = if text@.len() > 0 && text@[0] == '+' {
        text@.skip(1)
    } else {
        text@
    };
    assert(d =~= text@.skip(start as int));
    if start == n {
        return None;
    }
    let mut v: u128 = 0;
    let mut i: usize = start;
    assert(d.take(0) =~= Seq::<char>::empty());
    while i < n
        invariant
            start <= i <= n,
            n == s.len(),
            s@ == text@,
            d == text@.skip(start as int),
            d == (if text@.len() > 0 && text@[0] == '+' {
                text@.skip(1)
            } else {
                text@
            }),
            v <= u64::MAX,
            v == digits_value(d.take(i - start)),
            forall|j: int| 0 <= j < i - start ==> '0' <= (#[trigger] d[j]) <= '9',
        decreases n - i,
    {
        let c = s[i];
        assert(d[i - start] == c);
        if c < '0' || c > '9' {
            assert(!all_digits(d));
            return None;
        }
        let k: u128 = (c as u32 - '0' as u32) as u128;
        proof {
            let next = d.take(i - start + 1);
            assert(next.drop_last() =~= d.take(i - start));
            assert(next.last() == c);
        }
        v = v * 10 + k;
        if v > u64::MAX as u128 {
            proof {
                lemma_digits_grow(d, i - start + 1);
            }
            return None;
        }
        i = i + 1;
    }
    assert(d.take(n - start) =~= d);
    assert(all_digits(d));
    Some(v as u64)
}

/// What an integer says.
pub open spec fn int_said(n: i64) -> JsonV {
    JsonV::Number(
        NumberV {
            int: Some(n),
            uint: if n >= 0 {
                Some(n as u64)
            } else {
                None
            },
            text: signed_digits(n as int),
            whole: None,
            retained: None,
        },
    )
}

/// What an unsigned integer says.
pub open spec fn uint_said(n: u64) -> JsonV {
    JsonV::Number(
        NumberV {
            int: if n <= i64::MAX {
                Some(n as i64)
            } else {
                None
            },
            uint: Some(n),
            text: digits(n as nat),
            whole: None,
            retained: None,
        },
    )
}

/// The value of an integer.
pub fn int_json(n: i64) -> (r: Json)
    ensures
        r.says() == int_said(n),
        r.int_value() == Some(n),
        r.uint_value() == (if n >= 0 {
            Some(n as u64)
        } else {
            None
        }),
{
    Json::Number(
        JsonNumber {
            int: Some(n),
            uint: if n >= 0 {
                Some(n as u64)
            } else {
                None
            },
            text: signed_text(n),
            whole: None,
            retained: None,
        },
    )
}

/// The value of an unsigned integer.
pub fn uint_json(n: u64) -> (r: Json)
    ensures
        r.says() == uint_said(n),
        r.uint_value() == Some(n),
        r.int_value() == (if n <= i64::MAX {
            Some(n as i64)
        } else {
            None
        }),
{
    Json::Number(
        JsonNumber {
            int: if n <= i64::MAX as u64 {
                Some(n as i64)
            } else {
                None
            },
            uint: Some(n),
            text: digits_text(n),
            whole: None,
            retained: None,
        },
    )
}

/// The value of a text.
pub fn text_json(s: &str) -> (r: Json)
    ensures
        r.says() == JsonV::Text(s@),
{
    Json::Text(s.to_owned())
}

/// What the members of an object say.
pub open spec fn members(v: Seq<(String, Json)>) -> Seq<(Seq<char>, JsonV)> {
    v.map_values(|e: (String, Json)| (e.0@, e.1.says()))
}

/// What the items of a list say.
pub open spec fn items(v: Seq<Json>) -> Seq<JsonV> {
    v.map_values(|e: Json| e.says())
}

/// An object says what its members say.
pub proof fn lemma_object_says(v: Vec<(String, Json)>)
    ensures
        Json::Object(v).says() == JsonV::Object(members(v@)),
{
    assert(Json::Object(v).says()->Object_0 =~= members(v@));
}

/// A list says what its items say.
pub proof fn lemma_list_says(v: Vec<Json>)
    ensures
        Json::List(v).says() == JsonV::List(items(v@)),
{
    assert(Json::List(v).says()->List_0 =~= items(v@));
}

proof fn lemma_same_place(
    a: Seq<(String, Json)>,
    b: Seq<(String, Json)>,
    key: Seq<char>,
    i: int,
)
    requires
        members(a) == members(b),
        0 <= i <= a.len(),
    ensures
        a.len() == b.len(),
        member_place(a, key, i) == member_place(b, key, i),
        i <= member_place(a, key, i) <= a.len(),
    decreases a.len() - i,
{
    assert(members(a).len() == a.len() && members(b).len() == b.len());
    if i < a.len() {
        assert(members(a)[i] == members(b)[i]);
        if a[i].0@ != key {
            lemma_same_place(a, b, key, i + 1);
        }
    }
}

/// What is read of a value follows from what it says: of two that say the same the same is read, and
/// their members say the same.
pub proof fn law_what_is_said_is_read(a: Json, b: Json, key: Seq<char>)
    requires
        a.says() == b.says(),
    ensures
        a.text_value() == b.text_value(),
        a.bool_value() == b.bool_value(),
        a.int_value() == b.int_value(),
        a.uint_value() == b.uint_value(),
        a.whole_value() == b.whole_value(),
        a.decimal_value() == b.decimal_value(),
        a.loose_decimal() == b.loose_decimal(),
        match (a.list_value(), b.list_value()) {
            (Some(x), Some(y)) => items(x) == items(y),
            (None, None) => true,
            _ => false,
        },
        match (a.field(key), b.field(key)) {
            (Some(x), Some(y)) => x.says() == y.says(),
            (None, None) => true,
            _ => false,
        },
        a.text_at(key) == b.text_at(key),
        a.int_at(key) == b.int_at(key),
        a.uint_at(key) == b.uint_at(key),
{
    if let (Json::List(x), Json::List(y)) = (a, b) {
        lemma_list_says(x);
        lemma_list_says(y);
    }
    if let (Json::Object(x), Json::Object(y)) = (a, b) {
        lemma_object_says(x);
        lemma_object_says(y);
        lemma_same_place(x@, y@, key, 0);
        let p = member_place(x@, key, 0);
        if p < x@.len() {
            assert(members(x@)[p] == members(y@)[p]);
        }
    }
}

/// A new object without members.
pub fn no_members() -> (r: Vec<(String, Json)>)
    ensures
        members(r@) == Seq::<(Seq<char>, JsonV)>::empty(),
        r@.len() == 0,
{
    let r = Vec::new();
    assert(members(r@) =~= Seq::<(Seq<char>, JsonV)>::empty());
    r
}

/// Adds a member to an object.
pub fn add_member(v: &mut Vec<(String, Json)>, key: &str, x: Json)
    ensures
        members(final(v)@) == members(old(v)@).push((key@, x.says())),
        final(v)@.drop_last() == old(v)@,
        final(v)@.len() > 0 && final(v)@.last().0@ == key@ && final(v)@.last().1 == x,
{
    v.push((key.to_owned(), x));
    assert(members(v@) =~= members(old(v)@).push((key@, x.says())));
    assert(v@.drop_last() =~= old(v)@);
}

/// The object of members.
pub fn object_json(v: Vec<(String, Json)>) -> (r: Json)
    ensures
        r.says() == JsonV::Object(members(v@)),
        r == Json::Object(v),
{
    proof {
        lemma_object_says(v);
    }
    Json::Object(v)
}

/// The list of texts.
pub fn texts_json(v: &Vec<String>) -> (r: Json)
    ensures
        r.says() == JsonV::List(v@.map_values(|s: String| JsonV::Text(s@))),
{
    let mut l: Vec<Json> = Vec::new();
    let mut i: usize = 0;
    while i < v.len()
        invariant
            i <= v.len(),
            l@.len() == i,
            forall|j: int| 0 <= j < i ==> (#[trigger] l@[j]).says() == JsonV::Text(v@[j]@),
        decreases v.len() - i,
    {
        l.push(text_json(&v[i]));
        i = i + 1;
    }
    proof {
        lemma_list_says(l);
        assert(items(l@) =~= v@.map_values(|s: String| JsonV::Text(s@)));
    }
    Json::List(l)
}

impl Json {
    /// A copy that says the same.
    pub fn copy(&self) -> (r: Json)
        ensures
            r.says() == self.says(),
        decreases *self,
    {
        match self {
            Json::Null => Json::Null,
            Json::Bool(b) => Json::Bool(*b),
            Json::Number(n) => Json::Number(n.clone()),
            Json::Text(s) => Json::Text(s.clone()),
            Json::List(v) => {
                let mut l: Vec<Json> = Vec::new();
                let mut i: usize = 0;
                while i < v.len()
                    invariant
                        *self == Json::List(*v),
                        i <= v.len(),
                        l@.len() == i,
                        forall|j: int| 0 <= j < i ==> (#[trigger] l@[j]).says() == v@[j].says(),
                    decreases v.len() - i,
                {
                    assert(decreases_to!(*self => self->List_0));
                    assert(decreases_to!(*v => v@));
                    assert(decreases_to!(v@ => v@[i as int]));
                    let c = v[i].copy();
                    l.push(c);
                    i = i + 1;
                }
                proof {
                    lemma_list_says(l);
                    lemma_list_says(*v);
                    assert(items(l@) =~= items(v@));
                }
                Json::List(l)
            },
            Json::Object(v) => {
                let mut l: Vec<(String, Json)> = Vec::new();
                let mut i: usize = 0;
                while i < v.len()
                    invariant
                        *self == Json::Object(*v),
                        i <= v.len(),
                        l@.len() == i,
                        forall|j: int|
                            0 <= j < i ==> (#[trigger] l@[j]).0@ == v@[j].0@ && l@[j].1.says()
                                == v@[j].1.says(),
                    decreases v.len() - i,
                {
                    assert(decreases_to!(*self => self->Object_0));
                    assert(decreases_to!(*v => v@));
                    assert(decreases_to!(v@ => v@[i as int]));
                    assert(decreases_to!(v@[i as int] => v@[i as int].1));
                    let c = v[i].1.copy();
                    l.push((v[i].0.clone(), c));
                    i = i + 1;
                }
                proof {
                    lemma_object_says(l);
                    lemma_object_says(*v);
                    assert(members(l@) =~= members(v@));
                }
                Json::Object(l)
            },
        }
    }
}

impl Json {
    /// The value that a text writes out.
    pub fn parse(text: &str) -> (r: Option<Json>)
        ensures
            r == json_read(text@),
    {
        read_json(text)
    }

    /// The value, written out.
    pub fn to_text(&self) -> (r: String)
        ensures
            r@ == json_written(self.says()),
    {
        write_json(self)
    }
}

proof fn lemma_member_place(v: Seq<(String, Json)>, key: Seq<char>, i: int)
    requires
        0 <= i <= v.len(),
    ensures
        i <= member_place(v, key, i) <= v.len(),
        member_place(v, key, i) < v.len() ==> v[member_place(v, key, i)].0@ == key,
        forall|j: int| i <= j < member_place(v, key, i) ==> (#[trigger] v[j]).0@ != key,
    decreases v.len() - i,
{
    if i < v.len() && v[i].0@ != key {
        lemma_member_place(v, key, i + 1);
    }
}

/// A member is looked up under its key: the first that has it, and none only where no member has it or
/// the value has no members.
pub proof fn law_members_are_found(o: Json, key: Seq<char>)
    ensures
        match (o, o.field(key)) {
            (Json::Object(v), Some(x)) => exists|i: int|
                0 <= i < v@.len() && (#[trigger] v@[i]).0@ == key && v@[i].1 == x && forall|j: int|
                    0 <= j < i ==> (#[trigger] v@[j]).0@ != key,
            (Json::Object(v), None) => forall|j: int|
                0 <= j < v@.len() ==> (#[trigger] v@[j]).0@ != key,
            (_, x) => x is None,
        },
{
    if let Json::Object(v) = o {
        lemma_member_place(v@, key, 0);
        let p = member_place(v@, key, 0);
        if p < v@.len() {
            assert(v@[p].0@ == key && v@[p].1 == o.field(key)->0);
        }
    }
}

/// A member is read as what it is: a text as its characters, a number as its integer, a truth as itself, a
/// list as its items. What stands in for a member does so only where there is none of that kind.
pub proof fn law_members_are_read(o: Json, key: Seq<char>, t: Seq<char>, n: i64, b: bool)
    ensures
        o.field(key) matches Some(Json::Text(s)) ==> o.text_at(key) == Some(s@) && o.text_or(key, t)
            == s@ && (o.field(key)->0).decimal_value() == decimal_parsed(s@) && (o.field(
            key,
        )->0).loose_decimal() == decimal_parsed(s@),
        !(o.field(key) matches Some(Json::Text(_))) ==> o.text_at(key) is None && o.text_or(key, t)
            == t,
        o.field(key) matches Some(Json::Number(x)) ==> o.int_at(key) == x.int && o.uint_at(key)
            == x.uint && (o.field(key)->0).decimal_value() == decimal_parsed(x.text@) && o.int_or(
            key,
            n,
        ) == (if x.int is Some {
            x.int->0
        } else {
            n
        }) && (x.int matches Some(i) ==> (o.field(key)->0).whole_value() == Some(i) && (o.field(
            key,
        )->0).loose_decimal() == Some(dec_int(i as int))),
        !(o.field(key) matches Some(Json::Number(_))) ==> o.int_at(key) is None && o.uint_at(key)
            is None && o.int_or(key, n) == n,
        o.field(key) matches Some(Json::Bool(x)) ==> o.bool_or(key, b) == x,
        !(o.field(key) matches Some(Json::Bool(_))) ==> o.bool_or(key, b) == b,
        o.field(key) matches Some(Json::List(l)) ==> o.list_at(key) == Some(l@),
        !(o.field(key) matches Some(Json::List(_))) ==> o.list_at(key) is None,
{
}

} // verus!
