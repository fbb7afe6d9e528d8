//! A small insertion-ordered table: entries in a vector, no key twice.

use vstd::prelude::*;
use crate::keys::KeyEq;

verus! {

/// No two entries of `s` have the same key.
pub open spec fn distinct_keys<K: View, V>(s: Seq<(K, V)>) -> bool {
    forall|i: int, j: int| 0 <= i < j < s.len() ==> s[i].0@ != s[j].0@
}

/// Whether `s` has an entry under `k`.
pub open spec fn has_key<K: View, V>(s: Seq<(K, V)>, k: K::V) -> bool {
    exists|i: int| 0 <= i < s.len() && #[trigger] s[i].0@ == k
}

/// The position of the entry under `k`, if there is one.
pub open spec fn key_index<K: View, V>(s: Seq<(K, V)>, k: K::V) -> int {
    choose|i: int| 0 <= i < s.len() && #[trigger] s[i].0@ == k
}

/// The entries of `s` as a map from key to value.
pub open spec fn as_map<K: View, V>(s: Seq<(K, V)>) -> Map<K::V, V> {
    Map::new(|k: K::V| has_key(s, k), |k: K::V| s[key_index(s, k)].1)
}

/// The entries of `s` with `v` put under `k`: in place where the key is
/// there, at the end where it is new.
pub open spec fn inserted<K: View, V>(s: Seq<(K, V)>, k: K, v: V) -> Seq<(K, V)> {
    if has_key(s, k@) {
        s.update(key_index(s, k@), (k, v))
    } else {
        s.push((k, v))
    }
}

/// With distinct keys an entry is found at its own position.
pub proof fn lemma_key_index<K: View, V>(s: Seq<(K, V)>, i: int)
    requires
        distinct_keys(s),
        0 <= i < s.len(),
    ensures
        has_key(s, s[i].0@),
        key_index(s, s[i].0@) == i,
        as_map(s).contains_key(s[i].0@),
        as_map(s)[s[i].0@] == s[i].1,
{
    let k = s[i].0@;
    assert(s[i].0@ == k);
    let j = key_index(s, k);
    assert(0 <= j < s.len() && s[j].0@ == k);
    if j < i {
        assert(s[j].0@ != s[i].0@);
    } else if i < j {
        assert(s[i].0@ != s[j].0@);
    }
}

/// Appending an entry under a new key adds it to the map.
pub proof fn lemma_push_new<K: View, V>(s: Seq<(K, V)>, k: K, v: V)
    requires
        distinct_keys(s),
        !has_key(s, k@),
    ensures
        distinct_keys(s.push((k, v))),
        as_map(s.push((k, v))) == as_map(s).insert(k@, v),
{
    let t = s.push((k, v));
    assert forall|i: int, j: int| 0 <= i < j < t.len() implies t[i].0@ != t[j].0@ by {
        if j == s.len() {
            assert(s[i].0@ == t[i].0@);
        } else {
            assert(s[i].0@ != s[j].0@);
        }
    }
    assert forall|q: K::V| has_key(t, q) <==> (has_key(s, q) || q == k@) by {
        if has_key(s, q) {
            let i = key_index(s, q);
            assert(t[i].0@ == q);
        }
        if q == k@ {
            assert(t[s.len() as int].0@ == q);
        }
        if has_key(t, q) {
            let i = key_index(t, q);
            if i < s.len() {
                assert(s[i].0@ == q);
            }
        }
    }
    assert forall|q: K::V| has_key(t, q) implies #[trigger] as_map(t)[q] == as_map(s).insert(
        k@,
        v,
    )[q] by {
        let i = key_index(t, q);
        lemma_key_index(t, i);
        if i < s.len() {
            assert(s[i].0@ == q);
            lemma_key_index(s, i);
        }
    }
    assert(as_map(t) =~= as_map(s).insert(k@, v));
}

/// Replacing the value of the entry at `i` replaces it in the map.
pub proof fn lemma_update_value<K: View, V>(s: Seq<(K, V)>, i: int, k: K, v: V)
    requires
        distinct_keys(s),
        0 <= i < s.len(),
        k@ == s[i].0@,
    ensures
        distinct_keys(s.update(i, (k, v))),
        as_map(s.update(i, (k, v))) == as_map(s).insert(k@, v),
{
    let t = s.update(i, (k, v));
    assert forall|a: int, b: int| 0 <= a < b < t.len() implies t[a].0@ != t[b].0@ by {
        assert(s[a].0@ != s[b].0@);
    }
    assert forall|q: K::V| has_key(t, q) <==> has_key(s, q) by {
        if has_key(s, q) {
            let j = key_index(s, q);
            assert(t[j].0@ == q);
        }
        if has_key(t, q) {
            let j = key_index(t, q);
            assert(s[j].0@ == q);
        }
    }
    lemma_key_index(s, i);
    assert forall|q: K::V| has_key(t, q) implies #[trigger] as_map(t)[q] == as_map(s).insert(
        k@,
        v,
    )[q] by {
        let j = key_index(t, q);
        lemma_key_index(t, j);
        if j != i {
            assert(s[j].0@ == q);
            lemma_key_index(s, j);
        }
    }
    assert(as_map(t) =~= as_map(s).insert(k@, v));
}

/// Taking out the entry at `i` takes its key out of the map.
pub proof fn lemma_remove_at<K: View, V>(s: Seq<(K, V)>, i: int)
    requires
        distinct_keys(s),
        0 <= i < s.len(),
    ensures
        distinct_keys(s.remove(i)),
        !has_key(s.remove(i), s[i].0@),
        as_map(s.remove(i)) == as_map(s).remove(s[i].0@),
{
    let t = s.remove(i);
    let k = s[i].0@;
    assert forall|a: int, b: int| 0 <= a < b < t.len() implies t[a].0@ != t[b].0@ by {
        let a2 = if a < i { a } else { a + 1 };
        let b2 = if b < i { b } else { b + 1 };
        assert(s[a2].0@ != s[b2].0@);
    }
    assert forall|q: K::V| has_key(t, q) <==> (has_key(s, q) && q != k) by {
        if has_key(s, q) && q != k {
            let j = key_index(s, q);
            let j2 = if j < i { j } else { j - 1 };
            assert(t[j2].0@ == q);
        }
        if has_key(t, q) {
            let j = key_index(t, q);
            let j2 = if j < i { j } else { j + 1 };
            assert(s[j2].0@ == q);
            if j2 < i {
                assert(s[j2].0@ != s[i].0@);
            } else {
                assert(s[i].0@ != s[j2].0@);
            }
        }
    }
    assert forall|q: K::V| has_key(t, q) implies #[trigger] as_map(t)[q] == as_map(s).remove(k)[q] by {
        let j = key_index(t, q);
        lemma_key_index(t, j);
        let j2 = if j < i { j } else { j + 1 };
        assert(s[j2].0@ == q);
        lemma_key_index(s, j2);
    }
    assert(as_map(t) =~= as_map(s).remove(k));
}

/// The empty table is the empty map.
pub proof fn lemma_empty_map<K: View, V>()
    ensures
        distinct_keys(Seq::<(K, V)>::empty()),
        as_map(Seq::<(K, V)>::empty()) == Map::<K::V, V>::empty(),
{
    assert(as_map(Seq::<(K, V)>::empty()) =~= Map::<K::V, V>::empty());
}

/// A table from keys to values that keeps its entries in the order they
/// came in.
#[derive(Debug)]
pub struct VecMap<K, V> {
    pub entries: Vec<(K, V)>,
}

impl<K: KeyEq, V> View for VecMap<K, V> {
    type V = Map<K::V, V>;

    open spec fn view(&self) -> Map<K::V, V> {
        as_map(self.entries@)
    }
}

impl<K: KeyEq, V> VecMap<K, V> {
    /// No key is listed twice.
    pub open spec fn wf(&self) -> bool {
        distinct_keys(self.entries@)
    }

    pub fn new() -> (m: VecMap<K, V>)
        ensures
            m.wf(),
            m.entries@.len() == 0,
            m@ == Map::<K::V, V>::empty(),
    {
        proof {
            lemma_empty_map::<K, V>();
        }
        VecMap { entries: Vec::new() }
    }

    pub fn len(&self) -> (n: usize)
        ensures
            n == self.entries@.len(),
    {
        self.entries.len()
    }

    pub fn is_empty(&self) -> (b: bool)
        ensures
            b == (self.entries@.len() == 0),
    {
        self.entries.len() == 0
    }

    /// The position of the entry under `k`.
    pub fn find(&self, k: &K) -> (r: Option<usize>)
        ensures
            match r {
                Some(i) => i < self.entries@.len() && self.entries@[i as int].0@ == k@
                    && has_key(self.entries@, k@) && forall|j: int|
                    0 <= j < i ==> (#[trigger] self.entries@[j]).0@ != k@,
                None => !has_key(self.entries@, k@),
            },
            self.wf() && r.is_some() ==> key_index(self.entries@, k@) == r.unwrap(),
    {
        let mut i: usize = 0;
        while i < self.entries.len()
            invariant
                i <= self.entries@.len(),
                forall|j: int| 0 <= j < i ==> self.entries@[j].0@ != k@,
            decreases self.entries@.len() - i,
        {
            if self.entries[i].0.key_eq(k) {
                proof {
                    if self.wf() {
                        lemma_key_index(self.entries@, i as int);
                    }
                }
                return Some(i);
            }
            i += 1;
        }
        None
    }

    /// Whether there is an entry under `k`.
    pub fn contains_key(&self, k: &K) -> (b: bool)
        ensures
            b == self@.contains_key(k@),
    {
        self.find(k).is_some()
    }

    /// The value under `k`.
    pub fn get(&self, k: &K) -> (r: Option<&V>)
        requires
            self.wf(),
        ensures
            match r {
                Some(v) => self@.contains_key(k@) && *v == self@[k@],
                None => !self@.contains_key(k@),
            },
    {
        match self.find(k) {
            Some(i) => {
                proof {
                    lemma_key_index(self.entries@, i as int);
                }
                Some(&self.entries[i].1)
            },
            None => None,
        }
    }

    /// Puts `v` under `k`: in place where the key is there already, at the
    /// end where it is new. Returns the value that was there.
    pub fn insert(&mut self, k: K, v: V) -> (r: Option<V>)
        requires
            old(self).wf(),
        ensures
            final(self).wf(),
            final(self)@ == old(self)@.insert(k@, v),
            final(self).entries@ == inserted(old(self).entries@, k, v),
            match r {
                Some(prev) => has_key(old(self).entries@, k@) && prev == old(self)@[k@]
                    && final(self).entries@ == old(self).entries@.update(
                    key_index(old(self).entries@, k@),
                    (k, v),
                ),
                None => !has_key(old(self).entries@, k@) && final(self).entries@ == old(
                    self,
                ).entries@.push((k, v)),
            },
    {
        match self.find(&k) {
            Some(i) => {
                proof {
                    lemma_key_index(self.entries@, i as int);
                    lemma_update_value(self.entries@, i as int, k, v);
                }
                self.entries.push((k, v));
                let prev = self.entries.swap_remove(i);
                assert(self.entries@ =~= old(self).entries@.update(i as int, (k, v)));
                Some(prev.1)
            },
            None => {
                proof {
                    lemma_push_new(self.entries@, k, v);
                }
                self.entries.push((k, v));
                None
            },
        }
    }

    /// Takes out the entry under `k`, keeping the others in order.
    pub fn remove(&mut self, k: &K) -> (r: Option<V>)
        requires
            old(self).wf(),
        ensures
            final(self).wf(),
            final(self)@ == old(self)@.remove(k@),
            match r {
                Some(prev) => has_key(old(self).entries@, k@) && prev == old(self)@[k@]
                    && final(self).entries@ == old(self).entries@.remove(
                    key_index(old(self).entries@, k@),
                ),
                None => !has_key(old(self).entries@, k@) && final(self).entries@ == old(
                    self,
                ).entries@,
            },
    {
        match self.find(k) {
            Some(i) => {
                proof {
                    lemma_key_index(self.entries@, i as int);
                    lemma_remove_at(self.entries@, i as int);
                }
                let prev = self.entries.remove(i);
                Some(prev.1)
            },
            None => {
                assert(self@ =~= old(self)@.remove(k@));
                None
            },
        }
    }
}

} // verus!
