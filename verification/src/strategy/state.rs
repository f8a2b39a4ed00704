//! What a strategy knows: its books, its order slots and its inventory.
use crate::strategy::rolling::{RollingMedian, WindowV};
use crate::types::book::TopOfBook;
use crate::types::decimal::{dec_zero, Decimal};
use crate::types::ids::{ClientOrderId, LotId, SlotKey, StrategyMode};
use crate::types::num::{Px, Qty};
use crate::types::order::{DesiredOrder, LiveOrder, LiveV, SlotStateKind};
use crate::types::position::Lot;
use crate::types::snapshot::{LinkStatus, PermV, QuotePermission};
use crate::types::time::Ts;
use vstd::prelude::*;

verus! {

/// How long a slot is left alone after the venue refused a request for it.
pub const REJECT_BACKOFF_MS: i64 = 250;

/// One place for an order: what the venue has there and what should be there.
#[derive(Debug)]
pub struct Slot {
    pub state: SlotStateKind,
    pub live: Option<LiveOrder>,
    pub desired: Option<DesiredOrder>,
    pub pending_since: Option<Ts>,
    /// Price and size before an amendment that is under way.
    pub amend_from: Option<(Px, Qty)>,
    /// The slot is left alone until then.
    pub blocked_until: Option<Ts>,
}

/// What a slot holds.
#[verifier::ext_equal]
pub struct SlotV {
    pub state: SlotStateKind,
    pub live: Option<LiveV>,
    pub desired: Option<DesiredOrder>,
    pub pending_since: Option<Ts>,
    pub amend_from: Option<(Px, Qty)>,
    pub blocked_until: Option<Ts>,
}

/// What is known of an order that may be there.
pub open spec fn live_view(l: Option<LiveOrder>) -> Option<LiveV> {
    match l {
        Some(o) => Some(o@),
        None => None,
    }
}

impl View for Slot {
    type V = SlotV;

    open spec fn view(&self) -> SlotV {
        SlotV {
            state: self.state,
            live: live_view(self.live),
            desired: self.desired,
            pending_since: self.pending_since,
            amend_from: self.amend_from,
            blocked_until: self.blocked_until,
        }
    }
}

impl Clone for Slot {
    fn clone(&self) -> (r: Self)
        ensures
            r == *self,
    {
        Slot {
            state: self.state,
            live: self.live.clone(),
            desired: self.desired,
            pending_since: self.pending_since,
            amend_from: self.amend_from,
            blocked_until: self.blocked_until,
        }
    }
}

impl SlotV {
    pub open spec fn fresh() -> SlotV {
        SlotV {
            state: SlotStateKind::Empty,
            live: None,
            desired: None,
            pending_since: None,
            amend_from: None,
            blocked_until: None,
        }
    }

    /// The slot is left alone at that time.
    pub open spec fn blocked(self, now: Ts) -> bool {
        self.blocked_until matches Some(t) && now.0 < t.0
    }

    /// A request is under way.
    pub open spec fn pending(self) -> bool {
        ||| self.state == SlotStateKind::PendingNew
        ||| self.state == SlotStateKind::PendingAmend
        ||| self.state == SlotStateKind::PendingCancel
    }

    /// After the venue took a request.
    pub open spec fn accepted(self) -> SlotV {
        SlotV { blocked_until: None, ..self }
    }

    /// After the venue refused a request.
    pub open spec fn refused(self, now: Ts) -> SlotV {
        SlotV { blocked_until: Some(now.later(REJECT_BACKOFF_MS as int)), ..self }
    }

    /// With nothing at the venue any more.
    pub open spec fn emptied(self) -> SlotV {
        SlotV { state: SlotStateKind::Empty, live: None, pending_since: None, ..self }
    }

    /// With price and size as they were before the amendment that is under way.
    pub open spec fn rolled_back(self) -> SlotV {
        SlotV {
            live: match (self.amend_from, self.live) {
                (Some(from), Some(l)) => Some(LiveV { px: from.0, qty: from.1, ..l }),
                _ => self.live,
            },
            amend_from: None,
            ..self
        }
    }

    /// With the order working at the venue.
    pub open spec fn working(self) -> SlotV {
        SlotV { state: SlotStateKind::Live, pending_since: None, ..self }
    }

    /// With a cancellation under way for an order that should not be there.
    pub open spec fn withdrawn(self, now: Ts) -> SlotV {
        SlotV {
            state: SlotStateKind::PendingCancel,
            pending_since: Some(now),
            desired: None,
            ..self
        }
    }
}

impl Slot {
    pub fn empty() -> (r: Self)
        ensures
            r@ == SlotV::fresh(),
    {
        Slot {
            state: SlotStateKind::Empty,
            live: None,
            desired: None,
            pending_since: None,
            amend_from: None,
            blocked_until: None,
        }
    }

    /// Whether the slot is left alone at that time.
    pub fn is_blocked(&self, now: Ts) -> (r: bool)
        ensures
            r == self@.blocked(now),
    {
        match self.blocked_until {
            Some(t) => now.0 < t.0,
            None => false,
        }
    }

    /// The venue took a request: the slot is left alone no longer.
    pub fn note_accepted(&mut self)
        ensures
            final(self)@ == old(self)@.accepted(),
    {
        self.blocked_until = None;
    }

    /// The venue refused a request: the slot is left alone for a while.
    pub fn note_reject(&mut self, now: Ts)
        ensures
            final(self)@ == old(self)@.refused(now),
    {
        self.blocked_until = Some(now.saturating_add_millis(REJECT_BACKOFF_MS));
    }

    /// Nothing is at the venue any more.
    pub fn clear(&mut self)
        ensures
            final(self)@ == old(self)@.emptied(),
    {
        self.state = SlotStateKind::Empty;
        self.live = None;
        self.pending_since = None;
    }

    /// Price and size are what they were before the amendment that is under way.
    pub fn roll_back(&mut self)
        ensures
            final(self)@ == old(self)@.rolled_back(),
    {
        let from = self.amend_from;
        self.amend_from = None;
        match from {
            Some((px, qty)) => {
                match self.live.take() {
                    Some(mut l) => {
                        l.px = px;
                        l.qty = qty;
                        self.live = Some(l);
                    },
                    None => {},
                }
            },
            None => {},
        }
    }

    /// The order works at the venue.
    pub fn set_working(&mut self)
        ensures
            final(self)@ == old(self)@.working(),
    {
        self.state = SlotStateKind::Live;
        self.pending_since = None;
    }
}

#[derive(Debug)]
pub struct SlotEntry {
    pub key: SlotKey,
    pub slot: Slot,
}

impl Clone for SlotEntry {
    fn clone(&self) -> (r: Self)
        ensures
            r == *self,
    {
        SlotEntry { key: self.key, slot: self.slot.clone() }
    }
}

/// The slots of a strategy, each under its key, in the order in which they came to be.
#[derive(Clone, Debug)]
pub struct SlotMap {
    pub entries: Vec<SlotEntry>,
}

impl View for SlotMap {
    type V = Seq<(SlotKey, SlotV)>;

    open spec fn view(&self) -> Seq<(SlotKey, SlotV)> {
        self.entries@.map_values(|e: SlotEntry| (e.key, e.slot@))
    }
}

/// The place of a key among the slots from `i` on; the number of slots if it has none.
pub open spec fn key_place(s: Seq<(SlotKey, SlotV)>, k: SlotKey, i: int) -> int
    decreases s.len() - i,
{
    if 0 <= i < s.len() && s[i].0 != k {
        key_place(s, k, i + 1)
    } else {
        i
    }
}

/// The slot under a key; a fresh one if there is none.
pub open spec fn slot_at(s: Seq<(SlotKey, SlotV)>, k: SlotKey) -> SlotV {
    let p = key_place(s, k, 0);
    if p < s.len() {
        s[p].1
    } else {
        SlotV::fresh()
    }
}

/// The slots with another one under a key.
pub open spec fn with_slot(
    s: Seq<(SlotKey, SlotV)>,
    k: SlotKey,
    v: SlotV,
) -> Seq<(SlotKey, SlotV)> {
    let p = key_place(s, k, 0);
    if p < s.len() {
        s.update(p, (k, v))
    } else {
        s.push((k, v))
    }
}

/// No key stands for two slots.
pub open spec fn unique_keys(s: Seq<(SlotKey, SlotV)>) -> bool {
    forall|i: int, j: int| 0 <= i < j < s.len() ==> (#[trigger] s[i]).0 != (#[trigger] s[j]).0
}

pub proof fn lemma_key_place(s: Seq<(SlotKey, SlotV)>, k: SlotKey, i: int)
    requires
        0 <= i <= s.len(),
    ensures
        i <= key_place(s, k, i) <= s.len(),
        key_place(s, k, i) < s.len() ==> s[key_place(s, k, i)].0 == k,
        forall|j: int| i <= j < key_place(s, k, i) ==> (#[trigger] s[j]).0 != k,
    decreases s.len() - i,
{
    if i < s.len() && s[i].0 != k {
        lemma_key_place(s, k, i + 1);
    }
}

/// What is put under a key is what is found there, and every other slot stays as it was.
pub proof fn law_slot_put(s: Seq<(SlotKey, SlotV)>, k: SlotKey, v: SlotV, other: SlotKey)
    ensures
        slot_at(with_slot(s, k, v), k) == v,
        other != k ==> slot_at(with_slot(s, k, v), other) == slot_at(s, other),
        unique_keys(s) ==> unique_keys(with_slot(s, k, v)),
{
    let t = with_slot(s, k, v);
    lemma_key_place(s, k, 0);
    lemma_key_place(t, k, 0);
    lemma_key_place(s, other, 0);
    lemma_key_place(t, other, 0);
    let p = key_place(s, k, 0);
    let q = key_place(t, k, 0);
    assert(q == p) by {
        assert(t[p].0 == k);
        if q < p {
            assert(t[q] == s[q]);
        }
    }
    if other != k {
        let a = key_place(s, other, 0);
        let b = key_place(t, other, 0);
        if a < s.len() {
            assert(t[a] == s[a]);
            if b < a {
                assert(t[b] == s[b] || b == p);
            }
            assert(a == b);
        } else if b < t.len() {
            assert(t[b] == s[b] || b == p);
        }
    }
    if unique_keys(s) {
        assert forall|i: int, j: int| 0 <= i < j < t.len() implies (#[trigger] t[i]).0 != (
        #[trigger] t[j]).0 by {
            if i == p || j == p {
                if p < s.len() {
                    assert(s[i].0 == t[i].0 && s[j].0 == t[j].0);
                } else {
                    assert(t[i] == s[i]);
                }
            } else {
                assert(t[i] == s[i] && t[j] == s[j]);
            }
        }
    }
}

impl SlotMap {
    pub fn new() -> (r: Self)
        ensures
            r@ == Seq::<(SlotKey, SlotV)>::empty(),
            unique_keys(r@),
    {
        let r = SlotMap { entries: Vec::new() };
        assert(r@ =~= Seq::<(SlotKey, SlotV)>::empty());
        r
    }

    pub fn len(&self) -> (r: usize)
        ensures
            r == self@.len(),
    {
        self.entries.len()
    }

    /// The place of a key; the number of slots if it has none.
    pub fn place(&self, key: SlotKey) -> (r: usize)
        ensures
            r == key_place(self@, key, 0),
            r <= self.entries@.len(),
            r < self.entries@.len() ==> self.entries@[r as int].key == key,
    {
        let mut i: usize = 0;
        while i < self.entries.len()
            invariant
                i <= self.entries.len(),
                key_place(self@, key, 0) == key_place(self@, key, i as int),
            decreases self.entries.len() - i,
        {
            if self.entries[i].key == key {
                return i;
            }
            i = i + 1;
        }
        i
    }

    /// The slot under a key, if there is one.
    pub fn get(&self, key: SlotKey) -> (r: Option<&Slot>)
        ensures
            match r {
                Some(s) => key_place(self@, key, 0) < self@.len() && s@ == slot_at(self@, key),
                None => key_place(self@, key, 0) >= self@.len(),
            },
    {
        let i = self.place(key);
        if i < self.entries.len() {
            Some(&self.entries[i].slot)
        } else {
            None
        }
    }

    /// The slot under a key, which comes to be where there is none.
    pub fn slot(&mut self, key: SlotKey) -> (r: &mut Slot)
        ensures
            r@ == slot_at(old(self)@, key),
            final(self)@ == with_slot(old(self)@, key, final(r)@),
    {
        let ghost before = self@;
        let i = self.place(key);
        if i == self.entries.len() {
            self.entries.push(SlotEntry { key, slot: Slot::empty() });
        }
        proof {
            let grown = self.entries@;
            let f = |e: SlotEntry| (e.key, e.slot@);
            assert forall|s: Slot|
                #![trigger grown.update(i as int, SlotEntry { key, slot: s })]
                grown.update(i as int, SlotEntry { key, slot: s }).map_values(f) == with_slot(
                    before,
                    key,
                    s@,
                ) by {
                assert(grown.update(i as int, SlotEntry { key, slot: s }).map_values(f)
                    =~= with_slot(before, key, s@));
            }
        }
        &mut self.entries[i].slot
    }
}

/// The place of the first slot from `i` on whose order carries an id; the number of slots if
/// there is none.
pub open spec fn order_place(s: Seq<(SlotKey, SlotV)>, coid: Seq<char>, i: int) -> int
    decreases s.len() - i,
{
    if 0 <= i < s.len() && !carries(s[i].1, coid) {
        order_place(s, coid, i + 1)
    } else {
        i
    }
}

/// The order of a slot carries an id.
pub open spec fn carries(s: SlotV, coid: Seq<char>) -> bool {
    s.live matches Some(l) && l.coid == coid
}

/// The key of the slot whose order carries an id.
pub open spec fn slot_of_order(s: Seq<(SlotKey, SlotV)>, coid: Seq<char>) -> Option<SlotKey> {
    let p = order_place(s, coid, 0);
    if p < s.len() {
        Some(s[p].0)
    } else {
        None
    }
}

/// How many of the slots from `i` on are in a state.
pub open spec fn count_state(s: Seq<(SlotKey, SlotV)>, kind: SlotStateKind) -> nat {
    s.filter(|e: (SlotKey, SlotV)| e.1.state == kind).len()
}

/// How many slots wait for the venue.
pub open spec fn count_waiting(s: Seq<(SlotKey, SlotV)>) -> nat {
    s.filter(|e: (SlotKey, SlotV)| e.1.pending() || e.1.state == SlotStateKind::Unknown).len()
}

impl SlotMap {
    /// The key of the slot whose order carries an id.
    pub fn find_order(&self, coid: &ClientOrderId) -> (r: Option<SlotKey>)
        ensures
            r == slot_of_order(self@, coid@),
    {
        let mut i: usize = 0;
        while i < self.entries.len()
            invariant
                i <= self.entries.len(),
                order_place(self@, coid@, 0) == order_place(self@, coid@, i as int),
            decreases self.entries.len() - i,
        {
            let e = &self.entries[i];
            match &e.slot.live {
                Some(l) => {
                    if l.coid == *coid {
                        return Some(e.key);
                    }
                },
                None => {},
            }
            i = i + 1;
        }
        None
    }

    /// How many slots the venue's answer is not known for.
    pub fn unknown(&self) -> (r: usize)
        ensures
            r == count_state(self@, SlotStateKind::Unknown),
    {
        let ghost p = |e: (SlotKey, SlotV)| e.1.state == SlotStateKind::Unknown;
        let mut n: usize = 0;
        let mut i: usize = 0;
        assert(self@.take(0).filter(p).len() == 0) by {
            reveal(Seq::filter);
        }
        while i < self.entries.len()
            invariant
                n <= i <= self.entries.len(),
                p == (|e: (SlotKey, SlotV)| e.1.state == SlotStateKind::Unknown),
                n == self@.take(i as int).filter(p).len(),
            decreases self.entries.len() - i,
        {
            proof {
                reveal(Seq::filter);
                assert(self@.take(i + 1).drop_last() =~= self@.take(i as int));
                assert(self@.take(i + 1).last() == self@[i as int]);
            }
            if self.entries[i].slot.state == SlotStateKind::Unknown {
                n = n + 1;
            }
            i = i + 1;
        }
        assert(self@.take(i as int) =~= self@);
        n
    }

    /// How many slots wait for the venue.
    pub fn waiting(&self) -> (r: usize)
        ensures
            r == count_waiting(self@),
    {
        let ghost p = |e: (SlotKey, SlotV)| e.1.pending() || e.1.state == SlotStateKind::Unknown;
        let mut n: usize = 0;
        let mut i: usize = 0;
        assert(self@.take(0).filter(p).len() == 0) by {
            reveal(Seq::filter);
        }
        while i < self.entries.len()
            invariant
                n <= i <= self.entries.len(),
                p == (|e: (SlotKey, SlotV)|
                    e.1.pending() || e.1.state == SlotStateKind::Unknown),
                n == self@.take(i as int).filter(p).len(),
            decreases self.entries.len() - i,
        {
            proof {
                reveal(Seq::filter);
                assert(self@.take(i + 1).drop_last() =~= self@.take(i as int));
                assert(self@.take(i + 1).last() == self@[i as int]);
            }
            match self.entries[i].slot.state {
                SlotStateKind::PendingNew
                | SlotStateKind::PendingAmend
                | SlotStateKind::PendingCancel
                | SlotStateKind::Unknown => {
                    n = n + 1;
                },
                _ => {},
            }
            i = i + 1;
        }
        assert(self@.take(i as int) =~= self@);
        n
    }
}

/// Everything that a strategy knows. Spread figures are bits of IEEE 754 doubles.
#[derive(Debug)]
pub struct CoreState {
    pub lifecycle: StrategyMode,
    pub started: bool,
    pub ref_book: Option<TopOfBook>,
    pub maker_book: Option<TopOfBook>,
    pub fx: Decimal,
    pub window: RollingMedian,
    pub last_fair: Option<Px>,
    pub last_ref_mid: Option<Px>,
    pub last_spread: Option<u64>,
    pub last_natural: Option<u64>,
    pub last_vol: Option<u64>,
    pub cooldown_until: Option<Ts>,
    pub slots: SlotMap,
    pub lots: Vec<Lot>,
    pub next_lot: u64,
    pub next_seq: u64,
    pub net_qty: Qty,
    pub links: LinkStatus,
    pub permission: QuotePermission,
    pub flatten_requested: bool,
    pub last_unknown_count: usize,
}

/// What a strategy knows.
#[verifier::ext_equal]
pub struct StateV {
    pub lifecycle: StrategyMode,
    pub started: bool,
    pub ref_book: Option<TopOfBook>,
    pub maker_book: Option<TopOfBook>,
    pub fx: Decimal,
    pub window: WindowV,
    pub last_fair: Option<Px>,
    pub last_ref_mid: Option<Px>,
    pub last_spread: Option<u64>,
    pub last_natural: Option<u64>,
    pub last_vol: Option<u64>,
    pub cooldown_until: Option<Ts>,
    pub slots: Seq<(SlotKey, SlotV)>,
    pub lots: Seq<Lot>,
    pub next_lot: u64,
    pub next_seq: u64,
    pub net_qty: Qty,
    pub links: LinkStatus,
    pub permission: PermV,
    pub flatten_requested: bool,
    pub last_unknown_count: usize,
}

impl View for CoreState {
    type V = StateV;

    open spec fn view(&self) -> StateV {
        StateV {
            lifecycle: self.lifecycle,
            started: self.started,
            ref_book: self.ref_book,
            maker_book: self.maker_book,
            fx: self.fx,
            window: self.window@,
            last_fair: self.last_fair,
            last_ref_mid: self.last_ref_mid,
            last_spread: self.last_spread,
            last_natural: self.last_natural,
            last_vol: self.last_vol,
            cooldown_until: self.cooldown_until,
            slots: self.slots@,
            lots: self.lots@,
            next_lot: self.next_lot,
            next_seq: self.next_seq,
            net_qty: self.net_qty,
            links: self.links,
            permission: self.permission@,
            flatten_requested: self.flatten_requested,
            last_unknown_count: self.last_unknown_count,
        }
    }
}

impl StateV {
    /// Nothing is known yet.
    pub open spec fn fresh(window_ms: u64, bucket_ms: u64, fx: Decimal) -> StateV {
        StateV {
            lifecycle: StrategyMode::Init,
            started: false,
            ref_book: None,
            maker_book: None,
            fx,
            window: WindowV::fresh(window_ms, bucket_ms),
            last_fair: None,
            last_ref_mid: None,
            last_spread: None,
            last_natural: None,
            last_vol: None,
            cooldown_until: None,
            slots: Seq::empty(),
            lots: Seq::empty(),
            next_lot: 1,
            next_seq: 1,
            net_qty: Qty(dec_zero()),
            links: LinkStatus { ref_md: false, maker_md: false, private: false, trading: false },
            permission: PermV::only_reduce("init"@),
            flatten_requested: false,
            last_unknown_count: 0,
        }
    }

    /// The state with another slot under a key.
    pub open spec fn put(self, k: SlotKey, v: SlotV) -> StateV {
        StateV { slots: with_slot(self.slots, k, v), ..self }
    }

    /// What stays true of a state whatever happens: no key stands for two slots, and the
    /// ordered samples are the samples of the window.
    pub open spec fn wf(self) -> bool {
        unique_keys(self.slots) && self.window.wf()
    }
}

impl CoreState {
    pub fn new(window_ms: u64, bucket_ms: u64, fx: Decimal) -> (r: Self)
        ensures
            r@ == StateV::fresh(window_ms, bucket_ms, fx),
            r@.wf(),
    {
        CoreState {
            lifecycle: StrategyMode::Init,
            started: false,
            ref_book: None,
            maker_book: None,
            fx,
            window: RollingMedian::new(window_ms, bucket_ms),
            last_fair: None,
            last_ref_mid: None,
            last_spread: None,
            last_natural: None,
            last_vol: None,
            cooldown_until: None,
            slots: SlotMap::new(),
            lots: Vec::new(),
            next_lot: 1,
            next_seq: 1,
            net_qty: Qty::default(),
            links: LinkStatus::default(),
            permission: QuotePermission::reduce_only("init"),
            flatten_requested: false,
            last_unknown_count: 0,
        }
    }

    /// The next order number. `None` where 64 bits hold no more.
    pub fn alloc_seq(&mut self) -> (r: Option<u64>)
        ensures
            match r {
                Some(n) => {
                    &&& old(self).next_seq < u64::MAX
                    &&& n == old(self).next_seq
                    &&& final(self)@ == (StateV { next_seq: (n + 1) as u64, ..old(self)@ })
                },
                None => old(self).next_seq == u64::MAX && final(self)@ == old(self)@,
            },
    {
        let s = self.next_seq;
        if s == u64::MAX {
            return None;
        }
        self.next_seq = s + 1;
        Some(s)
    }

    /// The next lot number. `None` where 64 bits hold no more.
    pub fn alloc_lot_id(&mut self) -> (r: Option<LotId>)
        ensures
            match r {
                Some(id) => {
                    &&& old(self).next_lot < u64::MAX
                    &&& id.0 == old(self).next_lot
                    &&& final(self)@ == (StateV { next_lot: (id.0 + 1) as u64, ..old(self)@ })
                },
                None => old(self).next_lot == u64::MAX && final(self)@ == old(self)@,
            },
    {
        let n = self.next_lot;
        if n == u64::MAX {
            return None;
        }
        self.next_lot = n + 1;
        Some(LotId(n))
    }

    /// The slot under a key, which comes to be where there is none.
    pub fn slot(&mut self, key: SlotKey) -> (r: &mut Slot)
        ensures
            r@ == slot_at(old(self)@.slots, key),
            final(self)@ == old(self)@.put(key, final(r)@),
    {
        self.slots.slot(key)
    }

    /// The key of the slot whose order carries an id.
    pub fn find_slot_by_coid(&self, coid: &ClientOrderId) -> (r: Option<SlotKey>)
        ensures
            r == slot_of_order(self@.slots, coid@),
    {
        self.slots.find_order(coid)
    }

    pub fn unknown_slots(&self) -> (r: usize)
        ensures
            r == count_state(self@.slots, SlotStateKind::Unknown),
    {
        self.slots.unknown()
    }

    pub fn pending_slots(&self) -> (r: usize)
        ensures
            r == count_waiting(self@.slots),
    {
        self.slots.waiting()
    }
}

} // verus!
