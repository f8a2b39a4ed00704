//! A window of the latest samples, kept in order of time and in order of size.
//!
//! Samples are bits of IEEE 754 doubles. The window keeps what a median and a median deviation
//! are read from; the doubles themselves are averaged by whoever asks.
use crate::types::double::{double_finite, double_key, is_finite, key_of};
use crate::types::time::{as_signed, clamp_i64, cut_quotient, saturating_difference, to_signed, Ts};
use std::collections::VecDeque;
use vstd::prelude::*;
use vstd::seq_lib::{to_multiset_build, to_multiset_insert, to_multiset_remove};

verus! {

/// The length of a bucket in milliseconds, which is not zero.
#[derive(Clone, Copy, Debug)]
struct BucketLen {
    ms: i64,
}

impl BucketLen {
    #[verifier::type_invariant]
    spec fn has_length(self) -> bool {
        self.ms != 0
    }
}

/// A window of the last `window_ms` milliseconds that keeps one sample for each `bucket_ms`.
#[derive(Debug)]
pub struct RollingMedian {
    window_ms: i64,
    bucket: BucketLen,
    samples: VecDeque<(i64, u64)>,
    sorted: Ordered,
}

/// Samples, smallest first.
#[derive(Debug)]
struct Ordered {
    list: Vec<u64>,
}

impl Ordered {
    #[verifier::type_invariant]
    spec fn in_order(self) -> bool {
        is_ordered(self.list@)
    }
}

/// What a window holds.
#[verifier::ext_equal]
pub struct WindowV {
    pub window_ms: i64,
    pub bucket_ms: i64,
    /// Each sample with the start of its bucket, oldest first.
    pub samples: Seq<(i64, u64)>,
    /// The samples, smallest first.
    pub sorted: Seq<u64>,
}

impl View for RollingMedian {
    type V = WindowV;

    closed spec fn view(&self) -> WindowV {
        WindowV {
            window_ms: self.window_ms,
            bucket_ms: self.bucket.ms,
            samples: self.samples@,
            sorted: self.sorted.list@,
        }
    }
}

/// `x` stands before `v` among the ordered samples.
pub open spec fn stands_before(x: u64, v: u64) -> bool {
    double_key(x) < double_key(v) || (double_key(x) == double_key(v) && x < v)
}

/// The first place from `i` on whose sample does not stand before `v`.
pub open spec fn rank_from(s: Seq<u64>, v: u64, i: int) -> int
    decreases s.len() - i,
{
    if 0 <= i < s.len() && stands_before(s[i], v) {
        rank_from(s, v, i + 1)
    } else {
        i
    }
}

/// The first place from `i` on whose sample is the same number as `v`; the length if there is
/// none.
pub open spec fn spot_from(s: Seq<u64>, v: u64, i: int) -> int
    decreases s.len() - i,
{
    if 0 <= i < s.len() && double_key(s[i]) != double_key(v) {
        spot_from(s, v, i + 1)
    } else {
        i
    }
}

/// The ordered samples with one more.
pub open spec fn inserted(s: Seq<u64>, v: u64) -> Seq<u64> {
    s.insert(rank_from(s, v, 0), v)
}

/// The ordered samples without one that is the same number as `v`.
pub open spec fn removed(s: Seq<u64>, v: u64) -> Seq<u64> {
    let p = spot_from(s, v, 0);
    if p < s.len() {
        s.remove(p)
    } else {
        s
    }
}

/// The start of the bucket that a time in milliseconds falls in.
pub open spec fn bucket_of(ms: int, bucket_ms: int) -> int {
    let b = if bucket_ms < 0 {
        -bucket_ms
    } else {
        bucket_ms
    };
    if ms >= 0 {
        ms - ms % b
    } else {
        -((-ms) - (-ms) % b)
    }
}

impl WindowV {
    /// A window without samples.
    pub open spec fn fresh(window_ms: u64, bucket_ms: u64) -> WindowV {
        WindowV {
            window_ms: as_signed(window_ms) as i64,
            bucket_ms: as_signed(if bucket_ms == 0 {
                1
            } else {
                bucket_ms
            }) as i64,
            samples: Seq::empty(),
            sorted: Seq::empty(),
        }
    }

    /// The window without the samples before `cutoff`.
    pub open spec fn evicted(self, cutoff: int) -> WindowV
        decreases self.samples.len(),
    {
        if self.samples.len() > 0 && self.samples[0].0 < cutoff {
            (WindowV {
                samples: self.samples.drop_first(),
                sorted: removed(self.sorted, self.samples[0].1),
                ..self
            }).evicted(cutoff)
        } else {
            self
        }
    }

    /// The window with one more sample. A sample of the latest bucket takes the place of the
    /// one before it; one that is no finite number changes nothing.
    pub open spec fn pushed(self, now: Ts, v: u64) -> WindowV {
        let ms = cut_quotient(now.0 as int, 1_000_000);
        let bucket = bucket_of(ms, self.bucket_ms as int) as i64;
        if !double_finite(v) {
            self
        } else {
            let next = if self.samples.len() > 0 && self.samples.last().0 == bucket {
                WindowV {
                    samples: self.samples.drop_last().push((bucket, v)),
                    sorted: inserted(removed(self.sorted, self.samples.last().1), v),
                    ..self
                }
            } else {
                WindowV {
                    samples: self.samples.push((bucket, v)),
                    sorted: inserted(self.sorted, v),
                    ..self
                }
            };
            next.evicted(clamp_i64(ms - self.window_ms))
        }
    }

    /// The ordered samples are the samples of the window, in order.
    pub open spec fn wf(self) -> bool {
        &&& self.bucket_ms != 0
        &&& is_ordered(self.sorted)
        &&& keys(self.sorted).to_multiset() == keys(
            self.samples.map_values(|s: (i64, u64)| s.1),
        ).to_multiset()
    }
}

/// No sample stands before an earlier one.
pub open spec fn is_ordered(s: Seq<u64>) -> bool {
    forall|i: int, j: int| 0 <= i < j < s.len() ==> !stands_before(#[trigger] s[j], #[trigger] s[i])
}

/// The numbers that samples stand for.
pub open spec fn keys(s: Seq<u64>) -> Seq<int> {
    s.map_values(|x: u64| double_key(x))
}

impl Ordered {
    /// Puts a sample where it belongs, which is found by halving what is left to look at.
    fn insert(&mut self, v: u64)
        ensures
            final(self).list@ == inserted(old(self).list@, v),
    {
        proof {
            use_type_invariant(&*self);
        }
        let mut list: Vec<u64> = Vec::new();
        std::mem::swap(&mut list, &mut self.list);
        let kv: i128 = key_of(v);
        let mut lo: usize = 0;
        let mut hi: usize = list.len();
        while lo < hi
            invariant
                lo <= hi <= list@.len(),
                kv == double_key(v),
                is_ordered(list@),
                forall|j: int| 0 <= j < lo ==> stands_before(#[trigger] list@[j], v),
                forall|j: int| hi <= j < list@.len() ==> !stands_before(#[trigger] list@[j], v),
            decreases hi - lo,
        {
            let mid: usize = lo + (hi - lo) / 2;
            let x: u64 = list[mid];
            let kx: i128 = key_of(x);
            if kx < kv || (kx == kv && x < v) {
                assert forall|j: int| 0 <= j < mid + 1 implies stands_before(
                    #[trigger] list@[j],
                    v,
                ) by {
                    if j < mid {
                        assert(!stands_before(list@[mid as int], list@[j]));
                    }
                }
                lo = mid + 1;
            } else {
                assert forall|j: int| mid <= j < list@.len() implies !stands_before(
                    #[trigger] list@[j],
                    v,
                ) by {
                    if j > mid {
                        assert(!stands_before(list@[j], list@[mid as int]));
                    }
                }
                hi = mid;
            }
        }
        proof {
            lemma_rank(list@, v, 0);
            let r = rank_from(list@, v, 0);
            if r < lo {
                assert(stands_before(list@[r], v));
            }
            if lo < r {
                assert(stands_before(list@[lo as int], v));
            }
            lemma_inserted(list@, v);
        }
        list.insert(lo, v);
        self.list = list;
    }

    /// Takes a sample out that is the same number, which is found by halving what is left to look at.
    fn remove(&mut self, v: u64)
        ensures
            final(self).list@ == removed(old(self).list@, v),
    {
        proof {
            use_type_invariant(&*self);
        }
        let mut list: Vec<u64> = Vec::new();
        std::mem::swap(&mut list, &mut self.list);
        let kv: i128 = key_of(v);
        let mut lo: usize = 0;
        let mut hi: usize = list.len();
        while lo < hi
            invariant
                lo <= hi <= list@.len(),
                kv == double_key(v),
                is_ordered(list@),
                forall|j: int| 0 <= j < lo ==> double_key(#[trigger] list@[j]) < kv,
                forall|j: int| hi <= j < list@.len() ==> double_key(#[trigger] list@[j]) >= kv,
            decreases hi - lo,
        {
            let mid: usize = lo + (hi - lo) / 2;
            if key_of(list[mid]) < kv {
                assert forall|j: int| 0 <= j < mid + 1 implies double_key(#[trigger] list@[j])
                    < kv by {
                    if j < mid {
                        assert(!stands_before(list@[mid as int], list@[j]));
                    }
                }
                lo = mid + 1;
            } else {
                assert forall|j: int| mid <= j < list@.len() implies double_key(
                    #[trigger] list@[j],
                ) >= kv by {
                    if j > mid {
                        assert(!stands_before(list@[j], list@[mid as int]));
                    }
                }
                hi = mid;
            }
        }
        proof {
            lemma_removed_ordered(list@, v);
            lemma_spot_at(list@, v, 0, lo as int);
        }
        if lo < list.len() && key_of(list[lo]) == kv {
            let _ = list.remove(lo);
        } else {
            assert forall|j: int| 0 <= j < list@.len() implies double_key(#[trigger] list@[j])
                != kv by {
                if j > lo {
                    assert(!stands_before(list@[j], list@[lo as int]));
                }
            }
            proof {
                lemma_spot(list@, v, 0);
            }
        }
        self.list = list;
    }
}

impl Clone for RollingMedian {
    fn clone(&self) -> (r: Self)
        ensures
            r@ == self@,
    {
        let mut samples: VecDeque<(i64, u64)> = VecDeque::new();
        let mut i: usize = 0;
        while i < self.samples.len()
            invariant
                i <= self.samples@.len(),
                samples@ == self.samples@.take(i as int),
            decreases self.samples@.len() - i,
        {
            let s = self.samples[i];
            proof {
                assert(self.samples@.take(i + 1) =~= self.samples@.take(i as int).push(
                    self.samples@[i as int],
                ));
            }
            samples.push_back(s);
            i = i + 1;
        }
        assert(self.samples@.take(self.samples@.len() as int) =~= self.samples@);
        let list = self.sorted.list.clone();
        assert(list@ =~= self.sorted.list@);
        proof {
            use_type_invariant(&self.sorted);
        }
        let sorted = Ordered { list };
        RollingMedian { window_ms: self.window_ms, bucket: self.bucket, samples, sorted }
    }
}

impl RollingMedian {
    pub fn new(window_ms: u64, bucket_ms: u64) -> (r: Self)
        ensures
            r@ == WindowV::fresh(window_ms, bucket_ms),
            r@.wf(),
    {
        let b: u64 = if bucket_ms == 0 {
            1
        } else {
            bucket_ms
        };
        let r = RollingMedian {
            window_ms: to_signed(window_ms),
            bucket: BucketLen { ms: to_signed(b) },
            samples: VecDeque::new(),
            sorted: Ordered { list: Vec::new() },
        };
        proof {
            assert(keys(r@.sorted) =~= keys(r@.samples.map_values(|s: (i64, u64)| s.1)));
        }
        r
    }

    pub fn len(&self) -> (r: usize)
        ensures
            r == self@.samples.len(),
    {
        self.samples.len()
    }

    pub fn is_empty(&self) -> (r: bool)
        ensures
            r == (self@.samples.len() == 0),
    {
        self.samples.len() == 0
    }

    /// The samples, smallest first.
    pub fn ordered(&self) -> (r: &Vec<u64>)
        ensures
            r@ == self@.sorted,
    {
        &self.sorted.list
    }

    pub fn push(&mut self, now: Ts, value: u64)
        ensures
            final(self)@ == old(self)@.pushed(now, value),
    {
        if !is_finite(value) {
            return;
        }
        let ms: i64 = now.millis();
        let len = self.bucket;
        proof {
            use_type_invariant(&len);
            lemma_bucket(ms as int, len.ms as int);
        }
        let bucket: i64 = bucket_start(ms, len.ms);
        let n = self.samples.len();
        let ghost before = self@;
        if n > 0 && self.samples[n - 1].0 == bucket {
            let prev: u64 = self.samples[n - 1].1;
            self.remove_sorted(prev);
            let _ = self.samples.pop_back();
            self.samples.push_back((bucket, value));
            self.insert_sorted(value);
            assert(self.samples@ =~= before.samples.drop_last().push((bucket, value)));
        } else {
            self.samples.push_back((bucket, value));
            self.insert_sorted(value);
        }
        let cutoff: i64 = saturating_difference(ms, self.window_ms);
        self.evict(cutoff);
    }

    fn evict(&mut self, cutoff: i64)
        ensures
            final(self)@ == old(self)@.evicted(cutoff as int),
    {
        let ghost start = self@;
        while self.samples.len() > 0 && self.samples[0].0 < cutoff
            invariant
                start.evicted(cutoff as int) == self@.evicted(cutoff as int),
                decreases self.samples@.len(),
        {
            let v: u64 = self.samples[0].1;
            let ghost before = self@;
            let _ = self.samples.pop_front();
            self.remove_sorted(v);
            proof {
                assert(self.samples@ =~= before.samples.drop_first());
            }
        }
    }

    fn insert_sorted(&mut self, v: u64)
        ensures
            final(self)@ == (WindowV { sorted: inserted(old(self)@.sorted, v), ..old(self)@ }),
    {
        self.sorted.insert(v);
    }

    fn remove_sorted(&mut self, v: u64)
        ensures
            final(self)@ == (WindowV { sorted: removed(old(self)@.sorted, v), ..old(self)@ }),
    {
        self.sorted.remove(v);
    }

    /// The samples that a median is read from: the middle one twice for an odd count, the two in
    /// the middle for an even one.
    pub fn median_pair(&self) -> (r: Option<(u64, u64)>)
        ensures
            r == middle_pair(self@.sorted),
    {
        let n = self.sorted.list.len();
        if n == 0 {
            None
        } else if n % 2 == 1 {
            Some((self.sorted.list[n / 2], self.sorted.list[n / 2]))
        } else {
            Some((self.sorted.list[n / 2 - 1], self.sorted.list[n / 2]))
        }
    }
}

/// The two samples in the middle of an ordered list; one sample twice where the count is odd.
pub open spec fn middle_pair(s: Seq<u64>) -> Option<(u64, u64)> {
    let n = s.len() as int;
    if n == 0 {
        None
    } else if n % 2 == 1 {
        Some((s[n / 2], s[n / 2]))
    } else {
        Some((s[n / 2 - 1], s[n / 2]))
    }
}

/// Of an ordered list at most half stand before the first of the middle pair, and at most half
/// behind the second.
pub proof fn law_median_splits(s: Seq<u64>, i: int)
    requires
        is_ordered(s),
        0 <= i < s.len(),
    ensures
        i < (s.len() as int) / 2 ==> !stands_before((middle_pair(s)->0).1, s[i]),
        i >= (s.len() as int) / 2 ==> !stands_before(s[i], (middle_pair(s)->0).0),
{
}

fn bucket_start(ms: i64, bucket_ms: i64) -> (r: i64)
    requires
        bucket_ms != 0,
        i64::MIN < ms,
    ensures
        r == bucket_of(ms as int, bucket_ms as int),
{
    proof {
        lemma_bucket(ms as int, bucket_ms as int);
    }
    let b: i128 = if bucket_ms < 0 {
        -(bucket_ms as i128)
    } else {
        bucket_ms as i128
    };
    if ms >= 0 {
        let m = ms as i128;
        (m - m % b) as i64
    } else {
        let m = -(ms as i128);
        (-(m - m % b)) as i64
    }
}

proof fn lemma_bucket(ms: int, bucket_ms: int)
    requires
        bucket_ms != 0,
    ensures
        ms >= 0 ==> 0 <= bucket_of(ms, bucket_ms) <= ms,
        ms < 0 ==> ms <= bucket_of(ms, bucket_ms) <= 0,
{
    let b = if bucket_ms < 0 {
        -bucket_ms
    } else {
        bucket_ms
    };
    let m = if ms >= 0 {
        ms
    } else {
        -ms
    };
    assert(0 <= m % b <= m) by (nonlinear_arith)
        requires
            m >= 0,
            b > 0,
    ;
}

proof fn lemma_rank(s: Seq<u64>, v: u64, i: int)
    requires
        0 <= i <= s.len(),
    ensures
        i <= rank_from(s, v, i) <= s.len(),
        forall|j: int| i <= j < rank_from(s, v, i) ==> stands_before(#[trigger] s[j], v),
        rank_from(s, v, i) < s.len() ==> !stands_before(s[rank_from(s, v, i)], v),
    decreases s.len() - i,
{
    if i < s.len() && stands_before(s[i], v) {
        lemma_rank(s, v, i + 1);
    }
}

proof fn lemma_spot(s: Seq<u64>, v: u64, i: int)
    requires
        0 <= i <= s.len(),
    ensures
        i <= spot_from(s, v, i) <= s.len(),
        spot_from(s, v, i) < s.len() ==> double_key(s[spot_from(s, v, i)]) == double_key(v),
        spot_from(s, v, i) == s.len() ==> forall|j: int|
            i <= j < s.len() ==> double_key(#[trigger] s[j]) != double_key(v),
    decreases s.len() - i,
{
    if i < s.len() && double_key(s[i]) != double_key(v) {
        lemma_spot(s, v, i + 1);
    }
}

/// Where no earlier sample is the same number, the first one is found there.
proof fn lemma_spot_at(s: Seq<u64>, v: u64, i: int, p: int)
    requires
        0 <= i <= p <= s.len(),
        forall|j: int| i <= j < p ==> double_key(#[trigger] s[j]) != double_key(v),
    ensures
        p < s.len() && double_key(s[p]) == double_key(v) ==> spot_from(s, v, i) == p,
    decreases p - i,
{
    if i < p {
        assert(double_key(s[i]) != double_key(v));
        lemma_spot_at(s, v, i + 1, p);
    }
}

proof fn lemma_removed_ordered(s: Seq<u64>, v: u64)
    requires
        is_ordered(s),
    ensures
        is_ordered(removed(s, v)),
{
    let p = spot_from(s, v, 0);
    lemma_spot(s, v, 0);
    if p < s.len() {
        let t = s.remove(p);
        assert forall|i: int, j: int| 0 <= i < j < t.len() implies !stands_before(
            #[trigger] t[j],
            #[trigger] t[i],
        ) by {
            let a = if i < p {
                i
            } else {
                i + 1
            };
            let b = if j < p {
                j
            } else {
                j + 1
            };
            assert(t[i] == s[a] && t[j] == s[b]);
        }
    }
}

proof fn lemma_inserted(s: Seq<u64>, v: u64)
    requires
        is_ordered(s),
    ensures
        is_ordered(inserted(s, v)),
        keys(inserted(s, v)).to_multiset() == keys(s).to_multiset().insert(double_key(v)),
{
    let p = rank_from(s, v, 0);
    lemma_rank(s, v, 0);
    let t = s.insert(p, v);
    assert forall|i: int, j: int| 0 <= i < j < t.len() implies !stands_before(
        #[trigger] t[j],
        #[trigger] t[i],
    ) by {
        if i < p && j < p {
            assert(t[i] == s[i] && t[j] == s[j]);
        } else if i < p && j == p {
            assert(t[i] == s[i]);
        } else if i < p && j > p {
            assert(t[i] == s[i] && t[j] == s[j - 1]);
        } else if i == p {
            assert(t[j] == s[j - 1]);
            if j - 1 > p {
                assert(!stands_before(s[j - 1], s[p]));
            }
        } else {
            assert(t[i] == s[i - 1] && t[j] == s[j - 1]);
        }
    }
    assert(keys(t) =~= keys(s).insert(p, double_key(v)));
    to_multiset_insert(keys(s), p, double_key(v));
}

proof fn lemma_removed(s: Seq<u64>, v: u64)
    requires
        is_ordered(s),
        keys(s).to_multiset().count(double_key(v)) > 0,
    ensures
        is_ordered(removed(s, v)),
        keys(removed(s, v)).to_multiset() == keys(s).to_multiset().remove(double_key(v)),
{
    let p = spot_from(s, v, 0);
    lemma_spot(s, v, 0);
    vstd::seq_lib::to_multiset_contains(keys(s), double_key(v));
    let j = choose|j: int| 0 <= j < keys(s).len() && keys(s)[j] == double_key(v);
    assert(double_key(s[j]) == double_key(v));
    assert(p < s.len());
    let t = s.remove(p);
    lemma_removed_ordered(s, v);
    assert(keys(t) =~= keys(s).remove(p));
    to_multiset_remove(keys(s), p);
}

spec fn values(s: Seq<(i64, u64)>) -> Seq<u64> {
    s.map_values(|s: (i64, u64)| s.1)
}

proof fn lemma_append(w: WindowV, bucket: i64, v: u64)
    requires
        w.wf(),
    ensures
        (WindowV {
            samples: w.samples.push((bucket, v)),
            sorted: inserted(w.sorted, v),
            ..w
        }).wf(),
{
    lemma_inserted(w.sorted, v);
    assert(keys(values(w.samples.push((bucket, v)))) =~= keys(values(w.samples)).push(
        double_key(v),
    ));
    to_multiset_build(keys(values(w.samples)), double_key(v));
}

proof fn lemma_drop(w: WindowV)
    requires
        w.wf(),
        w.samples.len() > 0,
    ensures
        (WindowV {
            samples: w.samples.drop_first(),
            sorted: removed(w.sorted, w.samples[0].1),
            ..w
        }).wf(),
{
    let ks = keys(values(w.samples));
    assert(keys(values(w.samples.drop_first())) =~= ks.remove(0));
    to_multiset_remove(ks, 0);
    assert(ks[0] == double_key(w.samples[0].1));
    vstd::seq_lib::to_multiset_contains(ks, ks[0]);
    lemma_removed(w.sorted, w.samples[0].1);
}

proof fn lemma_replace(w: WindowV, bucket: i64, v: u64)
    requires
        w.wf(),
        w.samples.len() > 0,
    ensures
        (WindowV {
            samples: w.samples.drop_last().push((bucket, v)),
            sorted: inserted(removed(w.sorted, w.samples.last().1), v),
            ..w
        }).wf(),
{
    let ks = keys(values(w.samples));
    let n = w.samples.len() - 1;
    let old_v = w.samples.last().1;
    assert(keys(values(w.samples.drop_last())) =~= ks.remove(n));
    to_multiset_remove(ks, n);
    assert(ks[n] == double_key(old_v));
    vstd::seq_lib::to_multiset_contains(ks, ks[n]);
    lemma_removed(w.sorted, old_v);
    let mid = WindowV {
        samples: w.samples.drop_last(),
        sorted: removed(w.sorted, old_v),
        ..w
    };
    assert(mid.wf());
    lemma_append(mid, bucket, v);
}

proof fn lemma_evicted(w: WindowV, cutoff: int)
    requires
        w.wf(),
    ensures
        w.evicted(cutoff).wf(),
    decreases w.samples.len(),
{
    if w.samples.len() > 0 && w.samples[0].0 < cutoff {
        lemma_drop(w);
        lemma_evicted(
            WindowV {
                samples: w.samples.drop_first(),
                sorted: removed(w.sorted, w.samples[0].1),
                ..w
            },
            cutoff,
        );
    }
}

/// A window whose ordered samples are its samples stays one when a sample is pushed.
pub proof fn law_push_keeps_window_sound(w: WindowV, now: Ts, v: u64)
    requires
        w.wf(),
    ensures
        w.pushed(now, v).wf(),
{
    let ms = cut_quotient(now.0 as int, 1_000_000);
    let bucket = bucket_of(ms, w.bucket_ms as int) as i64;
    if double_finite(v) {
        if w.samples.len() > 0 && w.samples.last().0 == bucket {
            lemma_replace(w, bucket, v);
            lemma_evicted(
                WindowV {
                    samples: w.samples.drop_last().push((bucket, v)),
                    sorted: inserted(removed(w.sorted, w.samples.last().1), v),
                    ..w
                },
                clamp_i64(ms - w.window_ms),
            );
        } else {
            lemma_append(w, bucket, v);
            lemma_evicted(
                WindowV {
                    samples: w.samples.push((bucket, v)),
                    sorted: inserted(w.sorted, v),
                    ..w
                },
                clamp_i64(ms - w.window_ms),
            );
        }
    }
}

/// After a push no sample lies further back than the window reaches, as long as the samples
/// are in order of time.
pub proof fn law_window_is_recent(w: WindowV, cutoff: int)
    requires
        forall|i: int, j: int|
            0 <= i < j < w.samples.len() ==> (#[trigger] w.samples[i]).0 <= (
            #[trigger] w.samples[j]).0,
    ensures
        forall|i: int|
            0 <= i < w.evicted(cutoff).samples.len() ==> (#[trigger] w.evicted(
                cutoff,
            ).samples[i]).0 >= cutoff,
    decreases w.samples.len(),
{
    if w.samples.len() > 0 && w.samples[0].0 < cutoff {
        let next = WindowV {
            samples: w.samples.drop_first(),
            sorted: removed(w.sorted, w.samples[0].1),
            ..w
        };
        law_window_is_recent(next, cutoff);
        assert(w.evicted(cutoff) == next.evicted(cutoff));
    } else {
        assert(w.evicted(cutoff) == w);
        assert forall|i: int| 0 <= i < w.samples.len() implies (#[trigger] w.samples[i]).0
            >= cutoff by {
            if i > 0 {
                assert(w.samples[0].0 <= w.samples[i].0);
            }
        }
    }
}

/// A sample that is no finite number changes nothing.
pub proof fn law_only_numbers_are_sampled(w: WindowV, now: Ts, v: u64)
    requires
        !double_finite(v),
    ensures
        w.pushed(now, v) == w,
{
}

/// Samples pushed one after the other, each with its time.
pub open spec fn pushed_all(w: WindowV, p: Seq<(Ts, u64)>) -> WindowV
    decreases p.len(),
{
    if p.len() == 0 {
        w
    } else {
        pushed_all(w, p.drop_last()).pushed(p.last().0, p.last().1)
    }
}

/// The start of the bucket that a time falls in.
pub open spec fn bucket_at(t: Ts, bucket_ms: i64) -> i64 {
    bucket_of(cut_quotient(t.0 as int, 1_000_000), bucket_ms as int) as i64
}

/// The time before which a window of that length holds nothing, in milliseconds.
pub open spec fn cutoff_at(t: Ts, window_ms: i64) -> int {
    clamp_i64(cut_quotient(t.0 as int, 1_000_000) - window_ms)
}

/// The sample is the last one that was pushed in a bucket.
pub open spec fn last_in_bucket(p: Seq<(Ts, u64)>, bucket_ms: i64, b: i64, v: u64) -> bool {
    exists|i: int|
        0 <= i < p.len() && bucket_at((#[trigger] p[i]).0, bucket_ms) == b && p[i].1 == v
            && forall|j: int| i < j < p.len() ==> bucket_at((#[trigger] p[j]).0, bucket_ms) != b
}

/// The buckets in which samples were pushed and that the window still reaches.
pub open spec fn recent_buckets(p: Seq<(Ts, u64)>, window_ms: i64, bucket_ms: i64) -> Set<i64> {
    Set::new(
        |b: i64|
            b >= cutoff_at(p.last().0, window_ms) && exists|i: int|
                0 <= i < p.len() && bucket_at((#[trigger] p[i]).0, bucket_ms) == b,
    )
}

/// The buckets of samples come one after the other.
pub open spec fn buckets_rise(s: Seq<(i64, u64)>) -> bool {
    forall|i: int, j: int| 0 <= i < j < s.len() ==> (#[trigger] s[i]).0 < (#[trigger] s[j]).0
}

/// Numbers were sampled in the order of time.
pub open spec fn sampled_in_time(p: Seq<(Ts, u64)>) -> bool {
    &&& forall|i: int| 0 <= i < p.len() ==> double_finite((#[trigger] p[i]).1)
    &&& forall|i: int, j: int| 0 <= i <= j < p.len() ==> (#[trigger] p[i]).0.0 <= (#[trigger] p[j]).0.0
}

proof fn lemma_time_rises(a: Ts, b: Ts, window_ms: i64, bucket_ms: i64)
    requires
        a.0 <= b.0,
        bucket_ms != 0,
    ensures
        bucket_at(a, bucket_ms) <= bucket_at(b, bucket_ms),
        cutoff_at(a, window_ms) <= cutoff_at(b, window_ms),
        bucket_at(a, bucket_ms) == bucket_of(
            cut_quotient(a.0 as int, 1_000_000),
            bucket_ms as int,
        ),
{
    let x = cut_quotient(a.0 as int, 1_000_000);
    let y = cut_quotient(b.0 as int, 1_000_000);
    assert(x <= y);
    lemma_bucket(x, bucket_ms as int);
    lemma_bucket(y, bucket_ms as int);
    let l = if bucket_ms < 0 {
        -(bucket_ms as int)
    } else {
        bucket_ms as int
    };
    if x >= 0 {
        lemma_floor_rises(x, y, l);
    } else if y < 0 {
        lemma_floor_rises(-y, -x, l);
    } else {
        lemma_floor_rises(0, -x, l);
        lemma_floor_rises(0, y, l);
        assert(0int % l == 0) by (nonlinear_arith)
            requires
                l > 0,
        ;
    }
}

proof fn lemma_floor_rises(x: int, y: int, l: int)
    requires
        0 <= x <= y,
        l > 0,
    ensures
        x - x % l <= y - y % l,
{
    vstd::arithmetic::div_mod::lemma_fundamental_div_mod(x, l);
    vstd::arithmetic::div_mod::lemma_fundamental_div_mod(y, l);
    vstd::arithmetic::div_mod::lemma_div_is_ordered(x, y, l);
    vstd::arithmetic::mul::lemma_mul_inequality(x / l, y / l, l);
    vstd::arithmetic::mul::lemma_mul_is_commutative(x / l, l);
    vstd::arithmetic::mul::lemma_mul_is_commutative(y / l, l);
}

proof fn lemma_evicted_samples(w: WindowV, cutoff: int)
    requires
        buckets_rise(w.samples),
    ensures
        w.evicted(cutoff).window_ms == w.window_ms,
        w.evicted(cutoff).bucket_ms == w.bucket_ms,
        buckets_rise(w.evicted(cutoff).samples),
        forall|s: (i64, u64)| #[trigger]
            w.evicted(cutoff).samples.contains(s) <==> w.samples.contains(s) && s.0 >= cutoff,
    decreases w.samples.len(),
{
    if w.samples.len() > 0 && w.samples[0].0 < cutoff {
        let rest = w.samples.drop_first();
        let next = WindowV { samples: rest, sorted: removed(w.sorted, w.samples[0].1), ..w };
        assert(buckets_rise(rest)) by {
            assert forall|i: int, j: int| 0 <= i < j < rest.len() implies (#[trigger] rest[i]).0 < (
            #[trigger] rest[j]).0 by {
                assert(w.samples[i + 1].0 < w.samples[j + 1].0);
            }
        }
        lemma_evicted_samples(next, cutoff);
        assert forall|s: (i64, u64)| #[trigger]
            w.evicted(cutoff).samples.contains(s) <==> w.samples.contains(s) && s.0 >= cutoff by {
            assert(w.evicted(cutoff).samples.contains(s) == next.evicted(cutoff).samples.contains(
                s,
            ));
            if w.samples.contains(s) && s.0 >= cutoff {
                let i = choose|i: int| 0 <= i < w.samples.len() && w.samples[i] == s;
                assert(rest[i - 1] == s);
            }
            if rest.contains(s) {
                let i = choose|i: int| 0 <= i < rest.len() && rest[i] == s;
                assert(w.samples[i + 1] == s);
            }
        }
    } else {
        assert forall|s: (i64, u64)| w.samples.contains(s) implies s.0 >= cutoff by {
            let i = choose|i: int| 0 <= i < w.samples.len() && w.samples[i] == s;
            if i > 0 {
                assert(w.samples[0].0 < w.samples[i].0);
            }
        }
    }
}

/// After numbers were sampled in the order of time, a window that began empty holds one sample for
/// each bucket that it still reaches, in the order of time, and that is the last one pushed in it; so
/// it holds as many as there are such buckets.
pub proof fn law_window_keeps_last_of_each_bucket(
    window_ms: u64,
    bucket_ms: u64,
    p: Seq<(Ts, u64)>,
)
    requires
        p.len() > 0,
        sampled_in_time(p),
    ensures
        ({
            let start = WindowV::fresh(window_ms, bucket_ms);
            let w = pushed_all(start, p);
            &&& buckets_rise(w.samples)
            &&& forall|b: i64, v: u64| #[trigger]
                w.samples.contains((b, v)) <==> b >= cutoff_at(p.last().0, start.window_ms)
                    && last_in_bucket(p, start.bucket_ms, b, v)
            &&& w.samples.len() == recent_buckets(p, start.window_ms, start.bucket_ms).len()
        }),
{
    let start = WindowV::fresh(window_ms, bucket_ms);
    let w = pushed_all(start, p);
    lemma_run(start, p);
    let firsts = w.samples.map_values(|s: (i64, u64)| s.0);
    let recent = recent_buckets(p, start.window_ms, start.bucket_ms);
    assert(firsts.no_duplicates()) by {
        assert forall|i: int, j: int| 0 <= i < j < firsts.len() implies firsts[i] != firsts[j] by {
            assert(w.samples[i].0 < w.samples[j].0);
        }
    }
    firsts.unique_seq_to_set();
    assert(firsts.to_set() =~= recent) by {
        assert forall|b: i64| firsts.to_set().contains(b) == recent.contains(b) by {
            if firsts.contains(b) {
                let i = choose|i: int| 0 <= i < firsts.len() && firsts[i] == b;
                assert(w.samples.contains((b, w.samples[i].1)));
                assert(last_in_bucket(p, start.bucket_ms, b, w.samples[i].1));
            }
            if recent.contains(b) {
                let i = choose|i: int|
                    0 <= i < p.len() && bucket_at((#[trigger] p[i]).0, start.bucket_ms) == b;
                let k = lemma_some_last(p, start.bucket_ms, i);
                assert(last_in_bucket(p, start.bucket_ms, b, p[k].1));
                assert(w.samples.contains((b, p[k].1)));
                let m = choose|m: int| 0 <= m < w.samples.len() && w.samples[m] == (b, p[k].1);
                assert(firsts[m] == b);
            }
        }
    }
}

proof fn lemma_some_last(p: Seq<(Ts, u64)>, bucket_ms: i64, i: int) -> (k: int)
    requires
        0 <= i < p.len(),
    ensures
        i <= k < p.len(),
        bucket_at(p[k].0, bucket_ms) == bucket_at(p[i].0, bucket_ms),
        forall|j: int|
            k < j < p.len() ==> bucket_at((#[trigger] p[j]).0, bucket_ms) != bucket_at(
                p[i].0,
                bucket_ms,
            ),
    decreases p.len() - i,
{
    if exists|j: int|
        i < j < p.len() && bucket_at((#[trigger] p[j]).0, bucket_ms) == bucket_at(
            p[i].0,
            bucket_ms,
        ) {
        let j = choose|j: int|
            i < j < p.len() && bucket_at((#[trigger] p[j]).0, bucket_ms) == bucket_at(
                p[i].0,
                bucket_ms,
            );
        lemma_some_last(p, bucket_ms, j)
    } else {
        i
    }
}

proof fn lemma_run(start: WindowV, p: Seq<(Ts, u64)>)
    requires
        start.samples.len() == 0,
        start.bucket_ms != 0,
        sampled_in_time(p),
    ensures
        ({
            let w = pushed_all(start, p);
            &&& w.window_ms == start.window_ms && w.bucket_ms == start.bucket_ms
            &&& buckets_rise(w.samples)
            &&& p.len() == 0 ==> w == start
            &&& p.len() > 0 ==> forall|b: i64, v: u64| #[trigger]
                w.samples.contains((b, v)) <==> b >= cutoff_at(p.last().0, start.window_ms)
                    && last_in_bucket(p, start.bucket_ms, b, v)
        }),
    decreases p.len(),
{
    if p.len() > 0 {
        let q = p.drop_last();
        let (t, v) = p.last();
        assert(sampled_in_time(q)) by {
            assert forall|i: int, j: int| 0 <= i <= j < q.len() implies (#[trigger] q[i]).0.0 <= (
            #[trigger] q[j]).0.0 by {
                assert(p[i].0.0 <= p[j].0.0);
            }
            assert forall|i: int| 0 <= i < q.len() implies double_finite((#[trigger] q[i]).1) by {
                assert(double_finite(p[i].1));
            }
        }
        lemma_run(start, q);
        let w = pushed_all(start, q);
        let l = start.bucket_ms;
        let b = bucket_at(t, l);
        let n = p.len() - 1;
        assert(double_finite(p[n].1));
        assert forall|i: int| 0 <= i < w.samples.len() implies (#[trigger] w.samples[i]).0 <= b by {
            let s = w.samples[i];
            assert(w.samples.contains((s.0, s.1)));
            assert(last_in_bucket(q, l, s.0, s.1));
            let k = choose|k: int|
                0 <= k < q.len() && bucket_at((#[trigger] q[k]).0, l) == s.0 && q[k].1 == s.1
                    && forall|j: int| k < j < q.len() ==> bucket_at((#[trigger] q[j]).0, l) != s.0;
            assert(p[k].0.0 <= p[n].0.0);
            lemma_time_rises(p[k].0, t, start.window_ms, l);
        }
        lemma_time_rises(t, t, start.window_ms, l);
        let same = w.samples.len() > 0 && w.samples.last().0 == b;
        let next = if same {
            WindowV {
                samples: w.samples.drop_last().push((b, v)),
                sorted: inserted(removed(w.sorted, w.samples.last().1), v),
                ..w
            }
        } else {
            WindowV {
                samples: w.samples.push((b, v)),
                sorted: inserted(w.sorted, v),
                ..w
            }
        };
        let kept = if same {
            w.samples.drop_last()
        } else {
            w.samples
        };
        assert(next.samples == kept.push((b, v)));
        assert forall|i: int| 0 <= i < kept.len() implies (#[trigger] kept[i]).0 < b by {
            assert(kept[i] == w.samples[i]);
            let last = w.samples.len() - 1;
            if i < last {
                assert(w.samples[i].0 < w.samples[last].0);
                assert(w.samples[last].0 <= b);
            } else {
                assert(w.samples[last].0 <= b);
            }
        }
        assert(buckets_rise(next.samples)) by {
            assert forall|i: int, j: int| 0 <= i < j < next.samples.len() implies (
            #[trigger] next.samples[i]).0 < (#[trigger] next.samples[j]).0 by {
                assert(next.samples[i] == kept[i]);
                if j < kept.len() {
                    assert(next.samples[j] == kept[j]);
                    assert(w.samples[i].0 < w.samples[j].0);
                }
            }
        }
        let cutoff = cutoff_at(t, start.window_ms);
        lemma_evicted_samples(next, cutoff);
        assert(pushed_all(start, p) == next.evicted(cutoff));
        assert forall|c: i64, u: u64| #[trigger]
            pushed_all(start, p).samples.contains((c, u)) <==> c >= cutoff && last_in_bucket(
                p,
                l,
                c,
                u,
            ) by {
            lemma_contains_next(w.samples, kept, next.samples, b, v, c, u, same);
            lemma_last_next(p, l, c, u);
            if q.len() > 0 {
                assert(q.last() == p[n - 1]);
                assert(p[n - 1].0.0 <= p[n].0.0);
                lemma_time_rises(q.last().0, t, start.window_ms, l);
                assert(w.samples.contains((c, u)) <==> c >= cutoff_at(
                    q.last().0,
                    start.window_ms,
                ) && last_in_bucket(q, l, c, u));
            } else {
                assert(!w.samples.contains((c, u)));
            }
        }
    }
}

proof fn lemma_contains_next(
    all: Seq<(i64, u64)>,
    kept: Seq<(i64, u64)>,
    next: Seq<(i64, u64)>,
    b: i64,
    v: u64,
    c: i64,
    u: u64,
    same: bool,
)
    requires
        same ==> all.len() > 0 && all.last().0 == b,
        kept == (if same {
            all.drop_last()
        } else {
            all
        }),
        next == kept.push((b, v)),
        forall|i: int| 0 <= i < kept.len() ==> (#[trigger] kept[i]).0 < b,
    ensures
        next.contains((c, u)) <==> (c == b && u == v) || (c != b && all.contains((c, u))),
{
    if next.contains((c, u)) {
        let i = choose|i: int| 0 <= i < next.len() && next[i] == (c, u);
        if i < kept.len() {
            assert(kept[i].0 < b);
            assert(all[i] == (c, u));
        }
    }
    if c == b && u == v {
        assert(next[kept.len() as int] == (c, u));
    }
    if c != b && all.contains((c, u)) {
        let i = choose|i: int| 0 <= i < all.len() && all[i] == (c, u);
        assert(next[i] == (c, u));
    }
}

proof fn lemma_last_next(p: Seq<(Ts, u64)>, l: i64, c: i64, u: u64)
    requires
        p.len() > 0,
    ensures
        ({
            let b = bucket_at(p.last().0, l);
            last_in_bucket(p, l, c, u) <==> (c == b && u == p.last().1) || (c != b
                && last_in_bucket(p.drop_last(), l, c, u))
        }),
{
    let q = p.drop_last();
    let n = p.len() - 1;
    let b = bucket_at(p.last().0, l);
    assert(p[n] == p.last());
    if last_in_bucket(p, l, c, u) {
        let i = choose|i: int|
            0 <= i < p.len() && bucket_at((#[trigger] p[i]).0, l) == c && p[i].1 == u && forall|
                j: int,
            |
                i < j < p.len() ==> bucket_at((#[trigger] p[j]).0, l) != c;
        if i < n {
            assert(bucket_at(p[n].0, l) != c);
            assert(q[i] == p[i]);
            assert forall|j: int| i < j < q.len() implies bucket_at((#[trigger] q[j]).0, l) != c by {
                assert(q[j] == p[j]);
            }
        }
    }
    if c == b && u == p.last().1 {
        assert(bucket_at(p[n].0, l) == c && p[n].1 == u);
    }
    if c != b && last_in_bucket(q, l, c, u) {
        let i = choose|i: int|
            0 <= i < q.len() && bucket_at((#[trigger] q[i]).0, l) == c && q[i].1 == u && forall|
                j: int,
            |
                i < j < q.len() ==> bucket_at((#[trigger] q[j]).0, l) != c;
        assert(p[i] == q[i]);
        assert forall|j: int| i < j < p.len() implies bucket_at((#[trigger] p[j]).0, l) != c by {
            if j < n {
                assert(q[j] == p[j]);
            }
        }
    }
}

/// The middle pair of an ordered list are the two samples that have as many before as behind them, or twice the one
/// that has; there is one wherever there is a sample.
pub proof fn law_median_is_in_the_middle(s: Seq<u64>)
    ensures
        middle_pair(s) is Some <==> s.len() > 0,
        middle_pair(s) matches Some(m) ==> exists|p: int, q: int|
            #![trigger s[p], s[q]]
            0 <= p <= q < s.len() && q - p <= 1 && p + q == s.len() - 1 && m == (s[p], s[q]),
{
    let n = s.len() as int;
    if n > 0 {
        let p = if n % 2 == 1 {
            n / 2
        } else {
            n / 2 - 1
        };
        let q = n / 2;
        assert(p + q == n - 1);
        assert(middle_pair(s)->0 == (s[p], s[q]));
    }
}

/// A time falls in the bucket that starts at the last multiple of the bucket's length that is not later, counted
/// towards nothing.
pub proof fn law_bucket_holds_its_time(ms: int, bucket_ms: int)
    requires
        bucket_ms > 0,
        ms >= 0,
    ensures
        bucket_of(ms, bucket_ms) <= ms < bucket_of(ms, bucket_ms) + bucket_ms,
        bucket_of(ms, bucket_ms) % bucket_ms == 0,
{
    vstd::arithmetic::div_mod::lemma_fundamental_div_mod(ms, bucket_ms);
    vstd::arithmetic::div_mod::lemma_mod_bound(ms, bucket_ms);
    let q = ms / bucket_ms;
    assert(bucket_ms * q == q * bucket_ms) by (nonlinear_arith);
    vstd::arithmetic::div_mod::lemma_fundamental_div_mod_converse(
        bucket_of(ms, bucket_ms),
        bucket_ms,
        q,
        0,
    );
}

} // verus!
