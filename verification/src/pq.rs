//! A priority queue kept as a vector in serving order.

use vstd::prelude::*;
use crate::reliability::Rank;

verus! {

/// How the key `a` ranks against `b`: by the first component, then the
/// second, then the third; the greater ranks higher.
pub open spec fn key_rank(a: (int, int, int), b: (int, int, int)) -> Rank {
    if a.0 != b.0 {
        if a.0 < b.0 {
            Rank::Lower
        } else {
            Rank::Higher
        }
    } else if a.1 != b.1 {
        if a.1 < b.1 {
            Rank::Lower
        } else {
            Rank::Higher
        }
    } else if a.2 != b.2 {
        if a.2 < b.2 {
            Rank::Lower
        } else {
            Rank::Higher
        }
    } else {
        Rank::Same
    }
}

/// `a` is served no later than `b`.
pub open spec fn key_ge(a: (int, int, int), b: (int, int, int)) -> bool {
    key_rank(a, b) != Rank::Lower
}

/// A value with a place in a priority order.
pub trait Prioritized: Sized {
    /// What `compare` needs of a value.
    spec fn comparable(&self) -> bool;

    /// The key the value is ordered by.
    spec fn priority_key(&self) -> (int, int, int);

    fn compare(&self, other: &Self) -> (r: Rank)
        requires
            self.comparable(),
            other.comparable(),
        ensures
            r == key_rank(self.priority_key(), other.priority_key()),
    ;
}

/// Every item is served no later than those behind it.
pub open spec fn in_serving_order<T: Prioritized>(s: Seq<T>) -> bool {
    forall|i: int, j: int|
        0 <= i < j < s.len() ==> key_ge(#[trigger] s[i].priority_key(), #[trigger] s[j].priority_key())
}

/// Where an item with key `k` goes: behind every item that is served no
/// later than it, ahead of the rest.
pub open spec fn is_place_for<T: Prioritized>(s: Seq<T>, k: (int, int, int), p: int) -> bool {
    &&& 0 <= p <= s.len()
    &&& forall|i: int| 0 <= i < p ==> key_ge(#[trigger] s[i].priority_key(), k)
    &&& forall|i: int| p <= i < s.len() ==> !key_ge(#[trigger] s[i].priority_key(), k)
}

/// The place of an item with key `k` in `s`.
pub open spec fn place_of<T: Prioritized>(s: Seq<T>, k: (int, int, int)) -> int {
    choose|p: int| is_place_for(s, k, p)
}

/// The queue `s` with `x` put in its place.
pub open spec fn pushed<T: Prioritized>(s: Seq<T>, x: T) -> Seq<T> {
    s.insert(place_of(s, x.priority_key()), x)
}

/// The queue that holds the items of `items`, pushed one after the other.
pub open spec fn pushed_all<T: Prioritized>(items: Seq<T>) -> Seq<T>
    decreases items.len(),
{
    if items.len() == 0 {
        Seq::empty()
    } else {
        pushed(pushed_all(items.drop_last()), items.last())
    }
}

/// The queue `base` with the items of `items` pushed one after the other.
pub open spec fn pushed_onto<T: Prioritized>(base: Seq<T>, items: Seq<T>) -> Seq<T>
    decreases items.len(),
{
    if items.len() == 0 {
        base
    } else {
        pushed(pushed_onto(base, items.drop_last()), items.last())
    }
}

/// An item has one place only.
pub proof fn lemma_place_unique<T: Prioritized>(s: Seq<T>, k: (int, int, int), p: int, q: int)
    requires
        is_place_for(s, k, p),
        is_place_for(s, k, q),
    ensures
        p == q,
{
    if p < q {
        assert(key_ge(s[p].priority_key(), k));
    } else if q < p {
        assert(key_ge(s[q].priority_key(), k));
    }
}

/// Putting an item in its place keeps the serving order.
pub proof fn lemma_pushed<T: Prioritized>(s: Seq<T>, x: T)
    requires
        in_serving_order(s),
    ensures
        is_place_for(s, x.priority_key(), place_of(s, x.priority_key())),
        in_serving_order(pushed(s, x)),
        pushed(s, x).len() == s.len() + 1,
{
    let k = x.priority_key();
    lemma_place_exists(s, k, 0);
    let p = place_of(s, k);
    let t = pushed(s, x);
    assert forall|i: int, j: int| 0 <= i < j < t.len() implies key_ge(
        #[trigger] t[i].priority_key(),
        #[trigger] t[j].priority_key(),
    ) by {
        if i == p {
            assert(!key_ge(s[j - 1].priority_key(), k));
        } else if j == p {
            assert(key_ge(s[i].priority_key(), k));
        } else {
            let i0 = if i < p { i } else { i - 1 };
            let j0 = if j < p { j } else { j - 1 };
            assert(key_ge(s[i0].priority_key(), s[j0].priority_key()));
        }
    }
}

/// Pushing items one after the other gives a queue in serving order that
/// holds those items and no others.
pub proof fn lemma_pushed_all<T: Prioritized>(items: Seq<T>)
    ensures
        in_serving_order(pushed_all(items)),
        pushed_all(items).len() == items.len(),
        forall|r: T| #[trigger] pushed_all(items).contains(r) ==> items.contains(r),
    decreases items.len(),
{
    if items.len() > 0 {
        lemma_pushed_all(items.drop_last());
        let s = pushed_all(items.drop_last());
        let x = items.last();
        lemma_pushed(s, x);
        let p = place_of(s, x.priority_key());
        let t = pushed_all(items);
        assert(t == pushed(s, x));
        assert(t == s.insert(p, x));
        assert(0 <= p <= s.len());
        assert forall|r: T| t.contains(r) implies items.contains(r) by {
            let i = choose|i: int| 0 <= i < t.len() && t[i] == r;
            if i == p {
                assert(items[items.len() - 1] == r);
            } else {
                let i0 = if i < p { i } else { i - 1 };
                assert(s[i0] == r);
                assert(pushed_all(items.drop_last()).contains(r));
                assert(items.drop_last().contains(r));
                let a = choose|a: int| 0 <= a < items.drop_last().len() && items.drop_last()[a] == r;
                assert(items[a] == r);
            }
        }
    }
}

/// Every queue has a place for every key.
pub proof fn lemma_place_exists<T: Prioritized>(s: Seq<T>, k: (int, int, int), from: int)
    requires
        0 <= from <= s.len(),
        forall|i: int| 0 <= i < from ==> key_ge(#[trigger] s[i].priority_key(), k),
    ensures
        in_serving_order(s) ==> exists|p: int| is_place_for(s, k, p),
    decreases s.len() - from,
{
    if in_serving_order(s) {
        if from == s.len() {
            assert(is_place_for(s, k, from));
        } else if key_ge(s[from].priority_key(), k) {
            lemma_place_exists(s, k, from + 1);
        } else {
            assert forall|i: int| from <= i < s.len() implies !key_ge(
                #[trigger] s[i].priority_key(),
                k,
            ) by {
                if i > from {
                    assert(key_ge(s[from].priority_key(), s[i].priority_key()));
                }
            }
            assert(is_place_for(s, k, from));
        }
    }
}

/// A queue whose items stand in the order they are served in.
#[derive(Debug)]
pub struct PriorityQueue<T> {
    pub items: Vec<T>,
}

impl<T: Prioritized> PriorityQueue<T> {
    /// The items are in serving order and can be compared.
    pub open spec fn wf(&self) -> bool {
        &&& in_serving_order(self.items@)
        &&& forall|i: int| 0 <= i < self.items@.len() ==> (#[trigger] self.items@[i]).comparable()
    }

    pub fn new() -> (q: PriorityQueue<T>)
        ensures
            q.wf(),
            q.items@.len() == 0,
    {
        PriorityQueue { items: Vec::new() }
    }

    pub fn len(&self) -> (n: usize)
        ensures
            n == self.items@.len(),
    {
        self.items.len()
    }

    pub fn is_empty(&self) -> (b: bool)
        ensures
            b == (self.items@.len() == 0),
    {
        self.items.len() == 0
    }

    /// The item served next.
    pub fn peek(&self) -> (r: Option<&T>)
        ensures
            match r {
                Some(x) => self.items@.len() > 0 && *x == self.items@[0],
                None => self.items@.len() == 0,
            },
    {
        if self.items.len() == 0 {
            None
        } else {
            Some(&self.items[0])
        }
    }

    /// Puts `x` in its place: behind the items served no later than it.
    pub fn push(&mut self, x: T)
        requires
            old(self).wf(),
            x.comparable(),
        ensures
            final(self).wf(),
            final(self).items@ == pushed(old(self).items@, x),
            final(self).items@.len() == old(self).items@.len() + 1,
            forall|i: int|
                0 <= i < final(self).items@.len() ==> (#[trigger] final(self).items@[i]) == x || old(
                    self,
                ).items@.contains(final(self).items@[i]),
    {
        let mut p: usize = 0;
        while p < self.items.len() && self.items[p].compare(&x) != Rank::Lower
            invariant
                p <= self.items@.len(),
                self.items@ == old(self).items@,
                self.wf(),
                x.comparable(),
                forall|i: int|
                    0 <= i < p ==> key_ge(
                        #[trigger] self.items@[i].priority_key(),
                        x.priority_key(),
                    ),
            decreases self.items@.len() - p,
        {
            p += 1;
        }
        let ghost k = x.priority_key();
        assert forall|i: int| p <= i < self.items@.len() implies !key_ge(
            #[trigger] self.items@[i].priority_key(),
            k,
        ) by {
            if i > p {
                assert(key_ge(self.items@[p as int].priority_key(), self.items@[i].priority_key()));
            }
        }
        assert(is_place_for(old(self).items@, k, p as int));
        proof {
            lemma_place_unique(old(self).items@, k, p as int, place_of(old(self).items@, k));
        }
        self.items.insert(p, x);
        assert forall|i: int| 0 <= i < self.items@.len() implies (#[trigger] self.items@[i]) == x || old(
            self,
        ).items@.contains(self.items@[i]) by {
            if i != p {
                let i0 = if i < p { i } else { i - 1 };
                assert(old(self).items@[i0] == self.items@[i]);
            }
        }
        assert forall|i: int, j: int| 0 <= i < j < self.items@.len() implies key_ge(
            #[trigger] self.items@[i].priority_key(),
            #[trigger] self.items@[j].priority_key(),
        ) by {
            let s = old(self).items@;
            if i == p {
                assert(!key_ge(s[j - 1].priority_key(), k));
            } else if j == p {
                assert(key_ge(s[i].priority_key(), k));
            } else {
                let i0 = if i < p { i } else { i - 1 };
                let j0 = if j < p { j } else { j - 1 };
                assert(key_ge(s[i0].priority_key(), s[j0].priority_key()));
            }
        }
    }

    /// Takes out the item served next: none of the others goes before it.
    pub fn pop(&mut self) -> (r: Option<T>)
        requires
            old(self).wf(),
        ensures
            final(self).wf(),
            match r {
                Some(x) => {
                    &&& old(self).items@.len() > 0
                    &&& x == old(self).items@[0]
                    &&& x.comparable()
                    &&& final(self).items@ == old(self).items@.subrange(
                        1,
                        old(self).items@.len() as int,
                    )
                    &&& forall|i: int|
                        0 <= i < old(self).items@.len() ==> key_ge(
                            x.priority_key(),
                            #[trigger] old(self).items@[i].priority_key(),
                        )
                },
                None => old(self).items@.len() == 0 && final(self).items@.len() == 0,
            },
    {
        if self.items.len() == 0 {
            return None;
        }
        let x = self.items.remove(0);
        assert(self.items@ =~= old(self).items@.subrange(1, old(self).items@.len() as int));
        assert forall|i: int| 0 <= i < old(self).items@.len() implies key_ge(
            x.priority_key(),
            #[trigger] old(self).items@[i].priority_key(),
        ) by {
            if i > 0 {
                assert(key_ge(old(self).items@[0].priority_key(), old(self).items@[i].priority_key()));
            }
        }
        assert forall|i: int, j: int| 0 <= i < j < self.items@.len() implies key_ge(
            #[trigger] self.items@[i].priority_key(),
            #[trigger] self.items@[j].priority_key(),
        ) by {
            assert(key_ge(
                old(self).items@[i + 1].priority_key(),
                old(self).items@[j + 1].priority_key(),
            ));
        }
        assert forall|i: int| 0 <= i < self.items@.len() implies (#[trigger] self.items@[i]).comparable() by {
            assert(old(self).items@[i + 1].comparable());
        }
        Some(x)
    }
}

} // verus!
