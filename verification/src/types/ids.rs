//! Names of venues, symbols, strategies, orders and order slots.
use crate::text::{
    before_first, cat2, cat3, chars_of, digits, digits_text, find_char, find_in, is_alnum,
    lemma_before_first, lemma_digits_are_digits, lemma_digits_injective, lower_text, lowered,
    occurs_at, part, same_text, text_of, to_upper, upper_char,
};
use vstd::prelude::*;

verus! {

#[derive(Clone, Copy, Debug, PartialEq, Eq, Hash, Structural)]
pub enum VenueId {
    Binance,
    Gate,
}

impl VenueId {
    pub open spec fn name(self) -> Seq<char> {
        match self {
            VenueId::Binance => "binance"@,
            VenueId::Gate => "gate"@,
        }
    }

    /// The venue that a name means, in any case of letters.
    pub open spec fn named(s: Seq<char>) -> Option<VenueId> {
        let l = lowered(s);
        if l == "binance"@ || l == "bn"@ {
            Some(VenueId::Binance)
        } else if l == "gate"@ || l == "gateio"@ {
            Some(VenueId::Gate)
        } else {
            None
        }
    }

    pub fn as_str(self) -> (r: &'static str)
        ensures
            r@ == self.name(),
    {
        match self {
            VenueId::Binance => "binance",
            VenueId::Gate => "gate",
        }
    }

    pub fn all() -> (r: [VenueId; 2])
        ensures
            r@ == seq![VenueId::Binance, VenueId::Gate],
    {
        [VenueId::Binance, VenueId::Gate]
    }

    /// The venue of that name, or the message that there is none.
    pub fn parse(s: &str) -> (r: Result<VenueId, String>)
        ensures
            match r {
                Ok(v) => VenueId::named(s@) == Some(v),
                Err(e) => VenueId::named(s@) is None && e@ == "unknown venue: "@ + lowered(s@),
            },
    {
        let l = lower_text(s);
        if same_text(&l, "binance") || same_text(&l, "bn") {
            Ok(VenueId::Binance)
        } else if same_text(&l, "gate") || same_text(&l, "gateio") {
            Ok(VenueId::Gate)
        } else {
            Err(cat2("unknown venue: ", &l))
        }
    }
}

/// Canonical symbol, e.g. `AAPLUSDT` (no underscore, upper case).
#[derive(Debug)]
pub struct SymbolId(pub String);

impl View for SymbolId {
    type V = Seq<char>;

    open spec fn view(&self) -> Seq<char> {
        self.0@
    }
}

impl Clone for SymbolId {
    fn clone(&self) -> (r: Self)
        ensures
            r == *self,
    {
        SymbolId(self.0.clone())
    }
}

impl PartialEq for SymbolId {
    fn eq(&self, other: &Self) -> (r: bool) {
        same_text(&self.0, &other.0)
    }
}

impl vstd::std_specs::cmp::PartialEqSpecImpl for SymbolId {
    open spec fn obeys_eq_spec() -> bool {
        true
    }

    open spec fn eq_spec(&self, other: &Self) -> bool {
        self.0@ == other.0@
    }
}

impl Eq for SymbolId {

}

impl SymbolId {
    pub fn new(raw: &str) -> (r: Self)
        ensures
            r@ == canonical(raw@),
    {
        SymbolId(canonicalize_symbol(raw))
    }

    pub fn as_str(&self) -> (r: &str)
        ensures
            r@ == self@,
    {
        self.0.as_str()
    }
}

/// The ASCII letters and digits of a text, in upper case.
pub open spec fn canonical(raw: Seq<char>) -> Seq<char> {
    raw.filter(|c: char| is_alnum(c)).map_values(|c: char| upper_char(c))
}

pub fn canonicalize_symbol(raw: &str) -> (r: String)
    ensures
        r@ == canonical(raw@),
{
    let src = chars_of(raw);
    let mut out: Vec<char> = Vec::new();
    let ghost p = |c: char| is_alnum(c);
    let ghost f = |c: char| upper_char(c);
    let mut i: usize = 0;
    assert(raw@.take(0).filter(p).map_values(f) =~= Seq::<char>::empty()) by {
        reveal(Seq::filter);
    }
    while i < src.len()
        invariant
            0 <= i <= src.len(),
            src@ == raw@,
            p == (|c: char| is_alnum(c)),
            f == (|c: char| upper_char(c)),
            out@ == raw@.take(i as int).filter(p).map_values(f),
        decreases src.len() - i,
    {
        let c = src[i];
        proof {
            reveal(Seq::filter);
            let next = raw@.take(i + 1);
            assert(next.drop_last() =~= raw@.take(i as int));
            assert(next.last() == c);
            let base = raw@.take(i as int).filter(p);
            assert(base.push(c).map_values(f) =~= base.map_values(f).push(upper_char(c)));
        }
        if ('0' <= c && c <= '9') || ('A' <= c && c <= 'Z') || ('a' <= c && c <= 'z') {
            out.push(to_upper(c));
        }
        i = i + 1;
    }
    assert(raw@.take(raw@.len() as int) =~= raw@);
    text_of(&out)
}

/// The place where `p` first occurs in `s`.
pub open spec fn first_place(s: Seq<char>, p: Seq<char>) -> Option<int> {
    if exists|i: int| occurs_at(s, p, i) {
        Some(choose|i: int| occurs_at(s, p, i) && forall|j: int| 0 <= j < i ==> !occurs_at(s, p, j))
    } else {
        None
    }
}

/// The form of a symbol at Gate: the part before `USDT`, an underscore, and `USDT`. A text
/// with an underscore is left as it is.
pub open spec fn gate_native(s: Seq<char>) -> Seq<char> {
    if s.contains('_') {
        s
    } else {
        match first_place(s, "USDT"@) {
            Some(i) => if i > 0 {
                s.take(i) + "_USDT"@
            } else {
                s + "_USDT"@
            },
            None => s + "_USDT"@,
        }
    }
}

/// Gate native form: `AAPL_USDT`.
pub fn to_gate_native(canonical: &str) -> (r: String)
    ensures
        r@ == gate_native(canonical@),
{
    let s = chars_of(canonical);
    if find_char(&s, '_').is_some() {
        return part(&s, 0, s.len());
    }
    let p = chars_of("USDT");
    match find_in(&s, &p) {
        Some(i) => {
            proof {
                lemma_first_place(s@, p@, i as int);
            }
            if i > 0 {
                let head = part(&s, 0, i);
                assert(s@.subrange(0, i as int) =~= s@.take(i as int));
                cat2(&head, "_USDT")
            } else {
                cat2(canonical, "_USDT")
            }
        },
        None => cat2(canonical, "_USDT"),
    }
}

proof fn lemma_first_place(s: Seq<char>, p: Seq<char>, i: int)
    requires
        occurs_at(s, p, i),
        forall|j: int| 0 <= j < i ==> !occurs_at(s, p, j),
    ensures
        first_place(s, p) == Some(i),
{
    let c = choose|i: int| occurs_at(s, p, i) && forall|j: int| 0 <= j < i ==> !occurs_at(s, p, j);
    assert(c == i) by {
        assert(occurs_at(s, p, c) && forall|j: int| 0 <= j < c ==> !occurs_at(s, p, j));
        if c < i {
            assert(!occurs_at(s, p, c));
        } else if i < c {
            assert(!occurs_at(s, p, i));
        }
    }
}

/// Binance native form: `AAPLUSDT`.
pub fn to_binance_native(canonical: &str) -> (r: String)
    ensures
        r@ == crate::types::ids::canonical(canonical@),
{
    canonicalize_symbol(canonical)
}

proof fn lemma_canonical_push(s: Seq<char>, c: char)
    ensures
        canonical(s.push(c)) == (if is_alnum(c) {
            canonical(s).push(upper_char(c))
        } else {
            canonical(s)
        }),
{
    reveal(Seq::filter);
    let p = |c: char| is_alnum(c);
    let f = |c: char| upper_char(c);
    assert(s.push(c).drop_last() =~= s);
    assert(s.filter(p).push(c).map_values(f) =~= s.filter(p).map_values(f).push(upper_char(c)));
}

proof fn lemma_canonical_empty()
    ensures
        canonical(Seq::<char>::empty()) == Seq::<char>::empty(),
{
    reveal(Seq::filter);
    assert(canonical(Seq::<char>::empty()) =~= Seq::<char>::empty());
}

/// A text of upper-case letters and digits only.
pub open spec fn is_canonical(s: Seq<char>) -> bool {
    forall|i: int| 0 <= i < s.len() ==> is_alnum(#[trigger] s[i]) && upper_char(s[i]) == s[i]
}

/// A canonical text is its own canonical form.
pub proof fn law_canonical_fixed(s: Seq<char>)
    requires
        is_canonical(s),
    ensures
        canonical(s) == s,
    decreases s.len(),
{
    if s.len() == 0 {
        lemma_canonical_empty();
        assert(s =~= Seq::<char>::empty());
    } else {
        let t = s.drop_last();
        assert(s =~= t.push(s.last()));
        assert(is_canonical(t)) by {
            assert forall|i: int| 0 <= i < t.len() implies is_alnum(#[trigger] t[i]) && upper_char(
                t[i],
            ) == t[i] by {
                assert(t[i] == s[i]);
            }
        }
        law_canonical_fixed(t);
        assert(is_alnum(s[s.len() - 1]));
        lemma_canonical_push(t, s.last());
    }
}

/// Every canonical form is a canonical text, so making it canonical again changes nothing.
pub proof fn law_canonical_idempotent(s: Seq<char>)
    ensures
        is_canonical(canonical(s)),
        canonical(canonical(s)) == canonical(s),
    decreases s.len(),
{
    if s.len() == 0 {
        lemma_canonical_empty();
        assert(s =~= Seq::<char>::empty());
    } else {
        let t = s.drop_last();
        let c = s.last();
        assert(s =~= t.push(c));
        law_canonical_idempotent(t);
        lemma_canonical_push(t, c);
        if is_alnum(c) {
            assert(is_alnum(upper_char(c)) && upper_char(upper_char(c)) == upper_char(c));
        }
    }
    law_canonical_fixed(canonical(s));
}

/// Gate's form of a canonical symbol leads back to the symbol, for a symbol that is quoted in
/// `USDT`: one that ends in it, does not begin with it, and does not hold it before.
pub proof fn law_gate_native_round_trip(s: Seq<char>, base: Seq<char>)
    requires
        is_canonical(base),
        base.len() > 0,
        s == base + "USDT"@,
        first_place(s, "USDT"@) == Some(base.len() as int),
    ensures
        gate_native(s) == base + "_USDT"@,
        canonical(gate_native(s)) == s,
{
    lemma_no_underscore(base);
    assert(s.take(base.len() as int) =~= base);
    law_canonical_fixed(base);
    lemma_canonical_usdt(base);
}

proof fn lemma_no_underscore(base: Seq<char>)
    requires
        is_canonical(base),
    ensures
        !(base + "USDT"@).contains('_'),
{
    reveal_strlit("USDT");
    let s = base + "USDT"@;
    assert forall|i: int| 0 <= i < s.len() implies s[i] != '_' by {
        if i < base.len() {
            assert(s[i] == base[i]);
            assert(is_alnum(base[i]));
        } else {
            assert(s[i] == "USDT"@[i - base.len()]);
        }
    }
}

proof fn lemma_canonical_usdt(h: Seq<char>)
    ensures
        canonical(h + "_USDT"@) == canonical(h) + "USDT"@,
{
    reveal_strlit("USDT");
    reveal_strlit("_USDT");
    let a = h.push('_');
    lemma_canonical_push(h, '_');
    lemma_canonical_push(a, 'U');
    lemma_canonical_push(a.push('U'), 'S');
    lemma_canonical_push(a.push('U').push('S'), 'D');
    lemma_canonical_push(a.push('U').push('S').push('D'), 'T');
    assert(h + "_USDT"@ =~= a.push('U').push('S').push('D').push('T'));
    assert(canonical(h).push('U').push('S').push('D').push('T') =~= canonical(h) + "USDT"@);
}

#[derive(Debug)]
pub struct StrategyId(pub String);

impl View for StrategyId {
    type V = Seq<char>;

    open spec fn view(&self) -> Seq<char> {
        self.0@
    }
}

impl Clone for StrategyId {
    fn clone(&self) -> (r: Self)
        ensures
            r == *self,
    {
        StrategyId(self.0.clone())
    }
}

impl PartialEq for StrategyId {
    fn eq(&self, other: &Self) -> (r: bool) {
        same_text(&self.0, &other.0)
    }
}

impl vstd::std_specs::cmp::PartialEqSpecImpl for StrategyId {
    open spec fn obeys_eq_spec() -> bool {
        true
    }

    open spec fn eq_spec(&self, other: &Self) -> bool {
        self.0@ == other.0@
    }
}

impl Eq for StrategyId {

}

impl StrategyId {
    pub fn new(id: &str) -> (r: Self)
        ensures
            r@ == id@,
    {
        StrategyId(id.to_owned())
    }

    pub fn as_str(&self) -> (r: &str)
        ensures
            r@ == self@,
    {
        self.0.as_str()
    }
}

#[derive(Debug)]
pub struct ClientOrderId(pub String);

impl View for ClientOrderId {
    type V = Seq<char>;

    open spec fn view(&self) -> Seq<char> {
        self.0@
    }
}

impl Clone for ClientOrderId {
    fn clone(&self) -> (r: Self)
        ensures
            r == *self,
    {
        ClientOrderId(self.0.clone())
    }
}

impl PartialEq for ClientOrderId {
    fn eq(&self, other: &Self) -> (r: bool) {
        same_text(&self.0, &other.0)
    }
}

impl vstd::std_specs::cmp::PartialEqSpecImpl for ClientOrderId {
    open spec fn obeys_eq_spec() -> bool {
        true
    }

    open spec fn eq_spec(&self, other: &Self) -> bool {
        self.0@ == other.0@
    }
}

impl Eq for ClientOrderId {

}

impl ClientOrderId {
    pub fn as_str(&self) -> (r: &str)
        ensures
            r@ == self@,
    {
        self.0.as_str()
    }

    /// What stands before the first hyphen; the whole text where there is none.
    pub fn strategy_prefix(&self) -> (r: Option<String>)
        ensures
            r matches Some(s) && s@ == before_first(self@, '-'),
    {
        let s = chars_of(&self.0);
        let n: usize = match find_char(&s, '-') {
            Some(i) => i,
            None => s.len(),
        };
        proof {
            lemma_before_first(s@, '-', n as int);
            assert(s@.subrange(0, n as int) =~= s@.take(n as int));
        }
        Some(part(&s, 0, n))
    }
}

#[derive(Clone, Copy, Debug, PartialEq, Eq, Hash, Structural)]
pub enum Side {
    Buy,
    Sell,
}

impl Side {
    pub open spec fn name(self) -> Seq<char> {
        match self {
            Side::Buy => "buy"@,
            Side::Sell => "sell"@,
        }
    }

    pub open spec fn other(self) -> Side {
        match self {
            Side::Buy => Side::Sell,
            Side::Sell => Side::Buy,
        }
    }

    pub fn as_str(self) -> (r: &'static str)
        ensures
            r@ == self.name(),
    {
        match self {
            Side::Buy => "buy",
            Side::Sell => "sell",
        }
    }

    pub fn opposite(self) -> (r: Self)
        ensures
            r == self.other(),
    {
        match self {
            Side::Buy => Side::Sell,
            Side::Sell => Side::Buy,
        }
    }

    pub fn sign(self) -> (r: i32)
        ensures
            r == (if self == Side::Buy { 1int } else { -1 }),
    {
        match self {
            Side::Buy => 1,
            Side::Sell => -1,
        }
    }
}

#[derive(Clone, Copy, Debug, PartialEq, Eq, Hash, Structural)]
pub enum Purpose {
    GridEntry,
    Exit,
}

impl Purpose {
    pub open spec fn name(self) -> Seq<char> {
        match self {
            Purpose::GridEntry => "grid"@,
            Purpose::Exit => "exit"@,
        }
    }

    pub fn as_str(self) -> (r: &'static str)
        ensures
            r@ == self.name(),
    {
        match self {
            Purpose::GridEntry => "grid",
            Purpose::Exit => "exit",
        }
    }
}

#[derive(Clone, Copy, Debug, PartialEq, Eq, Hash, Structural)]
pub struct SlotKey {
    pub purpose: Purpose,
    pub side: Side,
    pub index: u8,
}

impl SlotKey {
    /// `{purpose}-{side}-{index}`
    pub open spec fn name(self) -> Seq<char> {
        self.purpose.name() + "-"@ + self.side.name() + "-"@ + digits(self.index as nat)
    }

    pub fn grid(side: Side, index: u8) -> (r: Self)
        ensures
            r == (SlotKey { purpose: Purpose::GridEntry, side, index }),
    {
        SlotKey { purpose: Purpose::GridEntry, side, index }
    }

    pub fn exit(side: Side, index: u8) -> (r: Self)
        ensures
            r == (SlotKey { purpose: Purpose::Exit, side, index }),
    {
        SlotKey { purpose: Purpose::Exit, side, index }
    }

    /// `{purpose}-{side}-{index}`
    pub fn text(self) -> (r: String)
        ensures
            r@ == self.name(),
    {
        let head = cat3(self.purpose.as_str(), "-", self.side.as_str());
        cat3(&head, "-", &digits_text(self.index as u64))
    }
}

/// `{strategy}-{purpose}-{side}-{index}-{seq}`
pub open spec fn order_id_text(strategy: Seq<char>, key: SlotKey, seq: nat) -> Seq<char> {
    strategy + "-"@ + (key.name() + "-"@ + digits(seq))
}

/// `{strategy}-{purpose}-{side}-{index}-{seq}`
pub fn make_client_order_id(strategy: &StrategyId, key: SlotKey, seq: u64) -> (r: ClientOrderId)
    ensures
        r@ == order_id_text(strategy@, key, seq as nat),
{
    let tail = cat3(&key.text(), "-", &digits_text(seq));
    ClientOrderId(cat3(strategy.as_str(), "-", &tail))
}

/// The prefix of an order's id is the strategy that made it, for a strategy whose name holds
/// no hyphen.
pub proof fn law_prefix_is_strategy(strategy: Seq<char>, key: SlotKey, seq: nat)
    requires
        !strategy.contains('-'),
    ensures
        before_first(order_id_text(strategy, key, seq), '-') == strategy,
{
    reveal_strlit("-");
    let s = order_id_text(strategy, key, seq);
    let n = strategy.len() as int;
    assert(s[n] == '-');
    assert forall|j: int| 0 <= j < n implies s[j] != '-' by {
        assert(s[j] == strategy[j]);
        assert(strategy.contains(strategy[j]));
    }
    lemma_before_first(s, '-', n);
    assert(s.take(n) =~= strategy);
}

/// A text without a hyphen.
pub open spec fn no_hyphen(s: Seq<char>) -> bool {
    forall|i: int| 0 <= i < s.len() ==> #[trigger] s[i] != '-'
}

/// What stands behind the last hyphen of a text, and what before it, can be told from the text.
proof fn lemma_last_hyphen(a: Seq<char>, x: Seq<char>, b: Seq<char>, y: Seq<char>)
    requires
        no_hyphen(x),
        no_hyphen(y),
        a + "-"@ + x == b + "-"@ + y,
    ensures
        a == b,
        x == y,
{
    reveal_strlit("-");
    let s = a + "-"@ + x;
    let t = b + "-"@ + y;
    assert(s.len() == a.len() + 1 + x.len() && t.len() == b.len() + 1 + y.len());
    assert(s[a.len() as int] == '-');
    assert(t[b.len() as int] == '-');
    if a.len() < b.len() {
        assert(s[b.len() as int] == x[b.len() - a.len() - 1]);
    }
    if b.len() < a.len() {
        assert(t[a.len() as int] == y[a.len() - b.len() - 1]);
    }
    assert(a =~= s.take(a.len() as int));
    assert(b =~= t.take(b.len() as int));
    assert(x =~= s.skip(a.len() as int + 1));
    assert(y =~= t.skip(b.len() as int + 1));
}

proof fn lemma_names_without_hyphen(k: SlotKey, n: nat)
    ensures
        no_hyphen(k.purpose.name()),
        no_hyphen(k.side.name()),
        no_hyphen(digits(k.index as nat)),
        no_hyphen(digits(n)),
{
    reveal_strlit("grid");
    reveal_strlit("exit");
    reveal_strlit("buy");
    reveal_strlit("sell");
    lemma_digits_are_digits(k.index as nat);
    lemma_digits_are_digits(n);
}

/// Two orders have the same id only if one strategy made them, for the same slot and with the same
/// number, whatever the strategies are called.
pub proof fn law_order_ids_distinct(
    s1: Seq<char>,
    k1: SlotKey,
    n1: nat,
    s2: Seq<char>,
    k2: SlotKey,
    n2: nat,
)
    requires
        order_id_text(s1, k1, n1) == order_id_text(s2, k2, n2),
    ensures
        s1 == s2,
        k1 == k2,
        n1 == n2,
{
    lemma_names_without_hyphen(k1, n1);
    lemma_names_without_hyphen(k2, n2);
    let p1 = s1 + "-"@ + k1.purpose.name();
    let p2 = s2 + "-"@ + k2.purpose.name();
    let q1 = p1 + "-"@ + k1.side.name();
    let q2 = p2 + "-"@ + k2.side.name();
    let r1 = q1 + "-"@ + digits(k1.index as nat);
    let r2 = q2 + "-"@ + digits(k2.index as nat);
    lemma_id_from_behind(s1, k1, n1);
    lemma_id_from_behind(s2, k2, n2);
    lemma_last_hyphen(r1, digits(n1), r2, digits(n2));
    lemma_last_hyphen(q1, digits(k1.index as nat), q2, digits(k2.index as nat));
    lemma_last_hyphen(p1, k1.side.name(), p2, k2.side.name());
    lemma_last_hyphen(s1, k1.purpose.name(), s2, k2.purpose.name());
    lemma_digits_injective(n1, n2);
    lemma_digits_injective(k1.index as nat, k2.index as nat);
    lemma_names_differ(k1, k2);
}

/// An order's id with its parts put together from the front.
proof fn lemma_id_from_behind(s: Seq<char>, k: SlotKey, n: nat)
    ensures
        order_id_text(s, k, n) == s + "-"@ + k.purpose.name() + "-"@ + k.side.name() + "-"@ + digits(
            k.index as nat,
        ) + "-"@ + digits(n),
{
    let a = k.purpose.name();
    let b = k.side.name();
    let c = digits(k.index as nat);
    let d = digits(n);
    let h = "-"@;
    assert(s + h + (a + h + b + h + c + h + d) =~= s + h + a + h + b + h + c + h + d);
}

proof fn lemma_names_differ(k1: SlotKey, k2: SlotKey)
    requires
        k1.purpose.name() == k2.purpose.name(),
        k1.side.name() == k2.side.name(),
    ensures
        k1.purpose == k2.purpose,
        k1.side == k2.side,
{
    reveal_strlit("grid");
    reveal_strlit("exit");
    reveal_strlit("buy");
    reveal_strlit("sell");
    assert("grid"@[0] == 'g' && "exit"@[0] == 'e' && "buy"@[0] == 'b' && "sell"@[0] == 's');
}

#[derive(Clone, Copy, Debug, PartialEq, Eq, Hash, Structural)]
pub struct LotId(pub u64);

#[derive(Clone, Copy, Debug, PartialEq, Eq, Hash, Structural)]
pub struct TimerId(pub u64);

impl TimerId {
    pub fn reconcile() -> (r: Self)
        ensures
            r == TimerId(1),
    {
        TimerId(1)
    }

    pub fn exit_scan() -> (r: Self)
        ensures
            r == TimerId(2),
    {
        TimerId(2)
    }

    pub fn cooldown() -> (r: Self)
        ensures
            r == TimerId(3),
    {
        TimerId(3)
    }

    pub fn unknown_scan() -> (r: Self)
        ensures
            r == TimerId(4),
    {
        TimerId(4)
    }

    pub fn lot_fast(lot: LotId) -> (r: Self)
        requires
            lot.0 + 1000 <= u64::MAX,
        ensures
            r.0 == 1000 + lot.0,
    {
        TimerId(1000 + lot.0)
    }

    pub fn lot_force(lot: LotId) -> (r: Self)
        requires
            lot.0 + 2000 <= u64::MAX,
        ensures
            r.0 == 2000 + lot.0,
    {
        TimerId(2000 + lot.0)
    }
}

#[derive(Clone, Copy, Debug, PartialEq, Eq, Hash, Structural)]
pub enum LinkKind {
    MarketData,
    Private,
    Trading,
}

#[derive(Clone, Copy, Debug, PartialEq, Eq, Hash, Structural)]
pub enum RunMode {
    Observe,
    Live,
}

#[derive(Clone, Copy, Debug, PartialEq, Eq, Hash, Structural)]
pub enum StrategyMode {
    Init,
    Warmup,
    Running,
    Degraded,
    Flattening,
    Stopped,
}

} // verus!
