//! Values kept under texts.
use crate::text::same_text;
use vstd::prelude::*;

verus! {

/// Values, each under a text of its own, in the order in which the texts came.
pub struct TextMap<V> {
    pub entries: Vec<(String, V)>,
}

/// The index of a key among pairs, or how many there are.
pub open spec fn key_place<V>(v: Seq<(String, V)>, key: Seq<char>, i: int) -> int
    decreases v.len() - i,
{
    if i >= v.len() {
        v.len() as int
    } else if v[i].0@ == key {
        i
    } else {
        key_place(v, key, i + 1)
    }
}

/// No two pairs have the same key.
pub open spec fn keys_differ<V>(v: Seq<(String, V)>) -> bool {
    forall|i: int, j: int|
        0 <= i < j < v.len() ==> (#[trigger] v[i]).0@ != (#[trigger] v[j]).0@
}

/// The keys of pairs, with their values.
pub open spec fn table_of<V>(v: Seq<(String, V)>) -> Map<Seq<char>, V> {
    Map::new(
        |k: Seq<char>| 0 <= key_place(v, k, 0) < v.len(),
        |k: Seq<char>| v[key_place(v, k, 0)].1,
    )
}

proof fn lemma_place<V>(v: Seq<(String, V)>, key: Seq<char>, i: int)
    requires
        0 <= i <= v.len(),
    ensures
        ({
            let p = key_place(v, key, i);
            &&& i <= p <= v.len()
            &&& p < v.len() ==> v[p].0@ == key
            &&& forall|j: int| i <= j < p ==> (#[trigger] v[j]).0@ != key
        }),
    decreases v.len() - i,
{
    if i < v.len() && v[i].0@ != key {
        lemma_place(v, key, i + 1);
    }
}

/// With keys that differ, a pair's key stands where the pair does.
proof fn lemma_place_of<V>(v: Seq<(String, V)>, i: int)
    requires
        keys_differ(v),
        0 <= i < v.len(),
    ensures
        key_place(v, v[i].0@, 0) == i,
{
    lemma_place(v, v[i].0@, 0);
    let p = key_place(v, v[i].0@, 0);
    if p < i {
        assert(v[p].0@ != v[i].0@);
    }
    if i < p {
        assert(v[i].0@ != v[i].0@);
    }
}

/// A key is held exactly if a pair has it.
proof fn lemma_held<V>(v: Seq<(String, V)>, k: Seq<char>)
    requires
        keys_differ(v),
    ensures
        table_of(v).contains_key(k) <==> exists|i: int| 0 <= i < v.len() && (#[trigger] v[i]).0@ == k,
        forall|i: int|
            0 <= i < v.len() && (#[trigger] v[i]).0@ == k ==> table_of(v)[k] == v[i].1,
{
    lemma_place(v, k, 0);
    assert forall|i: int| 0 <= i < v.len() && (#[trigger] v[i]).0@ == k implies table_of(v)[k]
        == v[i].1 by {
        lemma_place_of(v, i);
    }
}

/// One pair more is one key more.
pub proof fn lemma_take_next<V>(v: Seq<(String, V)>, i: int)
    requires
        keys_differ(v),
        0 <= i < v.len(),
    ensures
        table_of(v.take(i + 1)) == table_of(v.take(i)).insert(v[i].0@, v[i].1),
        !table_of(v.take(i)).contains_key(v[i].0@),
{
    let a = v.take(i);
    let b = v.take(i + 1);
    let goal = table_of(a).insert(v[i].0@, v[i].1);
    assert(keys_differ(a) && keys_differ(b));
    lemma_held(a, v[i].0@);
    assert forall|k: Seq<char>| #[trigger] table_of(b).dom().contains(k) == goal.dom().contains(k) && (
    goal.dom().contains(k) ==> table_of(b)[k] == goal[k]) by {
        lemma_held(a, k);
        lemma_held(b, k);
        assert forall|j: int| 0 <= j < a.len() implies #[trigger] a[j] == b[j] by {}
        assert(b[i] == v[i]);
        assert forall|j: int| 0 <= j < b.len() && j != i implies #[trigger] b[j] == a[j] by {}
    }
    assert(table_of(b) =~= goal);
}

impl<V> View for TextMap<V> {
    type V = Map<Seq<char>, V>;

    open spec fn view(&self) -> Map<Seq<char>, V> {
        table_of(self.entries@)
    }
}

impl<V: Copy> TextMap<V> {
    /// No text stands twice.
    pub open spec fn wf(self) -> bool {
        keys_differ(self.entries@)
    }

    pub fn new() -> (r: Self)
        ensures
            r.wf(),
            r@ == Map::<Seq<char>, V>::empty(),
            r.entries@.len() == 0,
    {
        let r = TextMap { entries: Vec::new() };
        assert(r@ =~= Map::<Seq<char>, V>::empty());
        r
    }

    fn find(&self, key: &str) -> (r: Option<usize>)
        ensures
            match r {
                Some(i) => i < self.entries@.len() && self.entries@[i as int].0@ == key@
                    && i == key_place(self.entries@, key@, 0),
                None => key_place(self.entries@, key@, 0) == self.entries@.len(),
            },
    {
        let mut i: usize = 0;
        while i < self.entries.len()
            invariant
                i <= self.entries@.len(),
                key_place(self.entries@, key@, 0) == key_place(self.entries@, key@, i as int),
            decreases self.entries@.len() - i,
        {
            if same_text(self.entries[i].0.as_str(), key) {
                return Some(i);
            }
            i = i + 1;
        }
        None
    }

    /// What is kept under a text.
    pub fn get(&self, key: &str) -> (r: Option<V>)
        ensures
            r == (if self@.contains_key(key@) {
                Some(self@[key@])
            } else {
                None
            }),
    {
        match self.find(key) {
            Some(i) => Some(self.entries[i].1),
            None => None,
        }
    }

    /// Keeps a value under a text, in place of what was there.
    pub fn put(&mut self, key: &str, value: V)
        requires
            old(self).wf(),
        ensures
            final(self).wf(),
            final(self)@ == old(self)@.insert(key@, value),
    {
        let ghost before = self.entries@;
        let at = self.find(key);
        proof {
            lemma_place(before, key@, 0);
        }
        match at {
            Some(i) => {
                self.entries.set(i, (key.to_owned(), value));
            },
            None => {
                self.entries.push((key.to_owned(), value));
            },
        }
        proof {
            let after = self.entries@;
            let p = key_place(before, key@, 0);
            assert(keys_differ(after));
            let goal = table_of(before).insert(key@, value);
            assert forall|k: Seq<char>| #[trigger] table_of(after).dom().contains(k)
                == goal.dom().contains(k) && (goal.dom().contains(k) ==> table_of(after)[k] == goal[k]) by {
                lemma_held(before, k);
                lemma_held(after, k);
                if k == key@ {
                    assert(after[p].0@ == key@);
                } else {
                    assert forall|i: int| 0 <= i < before.len() && (#[trigger] before[i]).0@
                        == k implies after[i] == before[i] by {}
                    assert forall|i: int| 0 <= i < after.len() && (#[trigger] after[i]).0@ == k implies i
                        < before.len() && before[i] == after[i] by {}
                }
            }
            assert(self@ =~= old(self)@.insert(key@, value));
        }
    }

    /// Forgets what is kept under a text.
    pub fn remove(&mut self, key: &str) -> (r: Option<V>)
        requires
            old(self).wf(),
        ensures
            final(self).wf(),
            final(self)@ == old(self)@.remove(key@),
            r == (if old(self)@.contains_key(key@) {
                Some(old(self)@[key@])
            } else {
                None
            }),
    {
        let ghost before = self.entries@;
        proof {
            lemma_place(before, key@, 0);
        }
        match self.find(key) {
            Some(i) => {
                let e = self.entries.remove(i);
                proof {
                    let after = self.entries@;
                    assert(after == before.remove(i as int));
                    assert forall|a: int, b: int| 0 <= a < b < after.len() implies (#[trigger] after[a]).0@
                        != (#[trigger] after[b]).0@ by {
                        let x = if a < i { a } else { a + 1 };
                        let y = if b < i { b } else { b + 1 };
                        assert(after[a] == before[x] && after[b] == before[y]);
                    }
                    let goal = table_of(before).remove(key@);
                    assert forall|k: Seq<char>| #[trigger] table_of(after).dom().contains(k)
                        == goal.dom().contains(k) && (goal.dom().contains(k) ==> table_of(after)[k]
                        == goal[k]) by {
                        lemma_held(before, k);
                        lemma_held(after, k);
                        assert forall|j: int| 0 <= j < before.len() && j != i implies #[trigger] before[j]
                            == after[if j < i { j } else { j - 1 }] by {}
                        assert forall|j: int| 0 <= j < after.len() implies #[trigger] after[j] == before[if j
                            < i { j } else { j + 1 }] by {}
                    }
                    assert(self@ =~= old(self)@.remove(key@));
                }
                Some(e.1)
            },
            None => {
                assert(self@ =~= old(self)@.remove(key@));
                None
            },
        }
    }
}

} // verus!
