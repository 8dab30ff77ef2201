//! Stable ordering of guards and middleware by priority.
//!
//! Guards run from the highest priority down, middleware runs from the
//! highest priority down before a navigation and from the lowest up after
//! it. Items of equal priority keep the order in which they were collected.

use vstd::prelude::*;
use vstd::multiset::Multiset;
use crate::route::{GuardHandle, MiddlewareHandle};

verus! {

/// Something that carries an execution priority.
pub trait Prioritized: Copy {
    /// The priority as a mathematical integer.
    spec fn priority_of(&self) -> int;

    /// The priority.
    fn priority(&self) -> (r: i32)
        ensures
            r as int == self.priority_of(),
    ;
}

impl Prioritized for GuardHandle {
    open spec fn priority_of(&self) -> int {
        self.priority as int
    }

    fn priority(&self) -> (r: i32) {
        self.priority
    }
}

impl Prioritized for MiddlewareHandle {
    open spec fn priority_of(&self) -> int {
        self.priority as int
    }

    fn priority(&self) -> (r: i32) {
        self.priority
    }
}

/// The sort key: the priority, negated when sorting from high to low.
pub open spec fn sort_key<T: Prioritized>(x: T, descending: bool) -> int {
    if descending {
        -x.priority_of()
    } else {
        x.priority_of()
    }
}

/// Number of leading items of `s` whose key is at most `k`.
pub open spec fn place<T: Prioritized>(s: Seq<T>, k: int, descending: bool) -> nat
    decreases s.len(),
{
    if s.len() > 0 && sort_key(s[0], descending) <= k {
        1 + place(s.drop_first(), k, descending)
    } else {
        0
    }
}

/// `s` with `x` inserted after the leading items whose key is at most its
/// own.
pub open spec fn insert_sorted<T: Prioritized>(s: Seq<T>, x: T, descending: bool) -> Seq<T> {
    let k = place(s, sort_key(x, descending), descending) as int;
    s.take(k).push(x) + s.skip(k)
}

/// The stable sort of `s` by key: insertion of each item, in order.
pub open spec fn stable_sort<T: Prioritized>(s: Seq<T>, descending: bool) -> Seq<T>
    decreases s.len(),
{
    if s.len() == 0 {
        Seq::empty()
    } else {
        insert_sorted(stable_sort(s.drop_last(), descending), s.last(), descending)
    }
}

/// The keys of `s` never decrease.
pub open spec fn key_sorted<T: Prioritized>(s: Seq<T>, descending: bool) -> bool {
    forall|i: int, j: int|
        0 <= i <= j < s.len() ==> sort_key(#[trigger] s[i], descending) <= sort_key(
            #[trigger] s[j],
            descending,
        )
}

proof fn lemma_place_bounds<T: Prioritized>(s: Seq<T>, k: int, descending: bool)
    ensures
        place(s, k, descending) <= s.len(),
        forall|i: int| 0 <= i < place(s, k, descending) ==> sort_key(#[trigger] s[i], descending) <= k,
        place(s, k, descending) < s.len() ==> sort_key(s[place(s, k, descending) as int], descending) > k,
    decreases s.len(),
{
    if s.len() > 0 && sort_key(s[0], descending) <= k {
        lemma_place_bounds(s.drop_first(), k, descending);
        assert forall|i: int| 0 <= i < place(s, k, descending) implies sort_key(
            #[trigger] s[i],
            descending,
        ) <= k by {
            if i > 0 {
                assert(s[i] == s.drop_first()[i - 1]);
            }
        }
    }
}

proof fn lemma_insert_sorted<T: Prioritized>(s: Seq<T>, x: T, descending: bool)
    requires
        key_sorted(s, descending),
    ensures
        key_sorted(insert_sorted(s, x, descending), descending),
        insert_sorted(s, x, descending).to_multiset() == s.to_multiset().insert(x),
        insert_sorted(s, x, descending).len() == s.len() + 1,
{
    let kx = sort_key(x, descending);
    let k = place(s, kx, descending) as int;
    lemma_place_bounds(s, kx, descending);
    let t = insert_sorted(s, x, descending);
    assert(t.len() == s.len() + 1);
    assert forall|i: int| 0 <= i < t.len() implies #[trigger] t[i] == (if i < k {
        s[i]
    } else if i == k {
        x
    } else {
        s[i - 1]
    }) by {}
    assert forall|i: int, j: int| 0 <= i <= j < t.len() implies sort_key(
        #[trigger] t[i],
        descending,
    ) <= sort_key(#[trigger] t[j], descending) by {
        if i < k && j == k {
        } else if i == k && j > k {
            assert(sort_key(s[k], descending) > kx);
            assert(sort_key(s[k], descending) <= sort_key(s[j - 1], descending));
        } else if i < k && j > k {
            assert(sort_key(s[i], descending) <= sort_key(s[j - 1], descending));
        } else if i > k {
            assert(sort_key(s[i - 1], descending) <= sort_key(s[j - 1], descending));
        } else if j < k {
            assert(sort_key(s[i], descending) <= sort_key(s[j], descending));
        }
    }
    vstd::seq_lib::lemma_multiset_commutative(s.take(k).push(x), s.skip(k));
    vstd::seq_lib::lemma_multiset_commutative(s.take(k), s.skip(k));
    assert(s.take(k) + s.skip(k) == s);
    assert(s.take(k).push(x).to_multiset() == s.take(k).to_multiset().insert(x)) by {
        s.take(k).to_multiset_ensures();
    }
}

/// The stable sort orders the items by key.
pub proof fn lemma_stable_sort_sorted<T: Prioritized>(s: Seq<T>, descending: bool)
    ensures
        key_sorted(stable_sort(s, descending), descending),
        stable_sort(s, descending).to_multiset() == s.to_multiset(),
        stable_sort(s, descending).len() == s.len(),
    decreases s.len(),
{
    if s.len() == 0 {
        assert(s.to_multiset() =~= Multiset::empty()) by {
            s.to_multiset_ensures();
        }
        assert(stable_sort(s, descending).to_multiset() =~= Multiset::empty()) by {
            stable_sort(s, descending).to_multiset_ensures();
        }
    } else {
        lemma_stable_sort_sorted(s.drop_last(), descending);
        lemma_insert_sorted(stable_sort(s.drop_last(), descending), s.last(), descending);
        assert(s.drop_last().push(s.last()) == s);
        s.drop_last().to_multiset_ensures();
    }
}

/// The items of `s` with priority `p`, in order.
pub open spec fn with_priority<T: Prioritized>(s: Seq<T>, p: int) -> Seq<T> {
    s.filter(|x: T| x.priority_of() == p)
}

proof fn lemma_filter_none<T: Prioritized>(s: Seq<T>, p: int)
    requires
        forall|j: int| 0 <= j < s.len() ==> (#[trigger] s[j]).priority_of() != p,
    ensures
        with_priority(s, p) == Seq::<T>::empty(),
    decreases s.len(),
{
    reveal(Seq::filter);
    if s.len() > 0 {
        assert forall|j: int| 0 <= j < s.drop_last().len() implies (#[trigger] s.drop_last()[j]).priority_of() != p by {
            assert(s.drop_last()[j] == s[j]);
        }
        lemma_filter_none(s.drop_last(), p);
        assert(s.last() == s[s.len() - 1]);
    }
}

proof fn lemma_filter_push<T: Prioritized>(s: Seq<T>, x: T, p: int)
    ensures
        with_priority(s.push(x), p) == if x.priority_of() == p {
            with_priority(s, p).push(x)
        } else {
            with_priority(s, p)
        },
{
    reveal(Seq::filter);
    assert(s.push(x).drop_last() == s);
    assert(s.push(x).last() == x);
}

proof fn lemma_insert_filter<T: Prioritized>(t: Seq<T>, x: T, descending: bool, p: int)
    requires
        key_sorted(t, descending),
    ensures
        with_priority(insert_sorted(t, x, descending), p) == if x.priority_of() == p {
            with_priority(t, p).push(x)
        } else {
            with_priority(t, p)
        },
{
    let kx = sort_key(x, descending);
    let k = place(t, kx, descending) as int;
    lemma_place_bounds(t, kx, descending);
    let a = t.take(k);
    let b = t.skip(k);
    let f = |y: T| y.priority_of() == p;
    assert(t == a + b);
    Seq::filter_distributes_over_add(a, b, f);
    Seq::filter_distributes_over_add(a.push(x), b, f);
    lemma_filter_push(a, x, p);
    if x.priority_of() == p {
        assert forall|j: int| 0 <= j < b.len() implies (#[trigger] b[j]).priority_of() != p by {
            assert(b[j] == t[k + j]);
            if k + j > k {
                assert(sort_key(t[k], descending) <= sort_key(t[k + j], descending));
            }
            assert(sort_key(t[k + j], descending) > kx);
        }
        lemma_filter_none(b, p);
        assert(with_priority(a, p).push(x) + Seq::<T>::empty() == with_priority(a, p).push(x));
        assert(with_priority(a, p) + Seq::<T>::empty() == with_priority(a, p));
    }
}

/// The stable sort keeps items of equal priority in the order in which
/// they came: for every priority, the items with that priority appear in
/// the same order before and after sorting.
pub proof fn lemma_stable_sort_stable<T: Prioritized>(s: Seq<T>, descending: bool, p: int)
    ensures
        with_priority(stable_sort(s, descending), p) == with_priority(s, p),
    decreases s.len(),
{
    if s.len() == 0 {
        reveal(Seq::filter);
    } else {
        let init = s.drop_last();
        lemma_stable_sort_stable(init, descending, p);
        lemma_stable_sort_sorted(init, descending);
        lemma_insert_filter(stable_sort(init, descending), s.last(), descending, p);
        assert(init.push(s.last()) == s);
        lemma_filter_push(init, s.last(), p);
    }
}

/// Number of leading items of `v` whose key is at most `k`.
fn place_in<T: Prioritized>(v: &Vec<T>, k: i32, descending: bool) -> (r: usize)
    ensures
        r == place(v@, sort_key_i32(k, descending), descending),
{
    let mut i: usize = 0;
    while i < v.len() && key_le(&v[i], k, descending)
        invariant
            i <= v@.len(),
            forall|j: int| 0 <= j < i ==> sort_key(#[trigger] v@[j], descending) <= sort_key_i32(k, descending),
        decreases v.len() - i,
    {
        i = i + 1;
    }
    proof {
        lemma_place_is(v@, sort_key_i32(k, descending), descending, i as int);
    }
    i
}

/// The key that priority `k` sorts by.
pub open spec fn sort_key_i32(k: i32, descending: bool) -> int {
    if descending {
        -(k as int)
    } else {
        k as int
    }
}

/// Whether the key of `x` is at most the key of priority `k`.
fn key_le<T: Prioritized>(x: &T, k: i32, descending: bool) -> (r: bool)
    ensures
        r == (sort_key(*x, descending) <= sort_key_i32(k, descending)),
{
    let p = x.priority();
    if descending {
        p >= k
    } else {
        p <= k
    }
}

proof fn lemma_place_is<T: Prioritized>(s: Seq<T>, k: int, descending: bool, i: int)
    requires
        0 <= i <= s.len(),
        forall|j: int| 0 <= j < i ==> sort_key(#[trigger] s[j], descending) <= k,
        i == s.len() || sort_key(s[i], descending) > k,
    ensures
        place(s, k, descending) == i,
    decreases i,
{
    if i > 0 {
        assert forall|j: int| 0 <= j < i - 1 implies sort_key(#[trigger] s.drop_first()[j], descending) <= k by {
            assert(s.drop_first()[j] == s[j + 1]);
        }
        lemma_place_is(s.drop_first(), k, descending, i - 1);
    }
}

/// The items of `v` in stable order of priority: from high to low when
/// `descending`, else from low to high.
pub fn sort_by_priority<T: Prioritized>(v: &Vec<T>, descending: bool) -> (r: Vec<T>)
    ensures
        r@ == stable_sort(v@, descending),
{
    let mut out: Vec<T> = Vec::new();
    let mut i: usize = 0;
    while i < v.len()
        invariant
            i <= v@.len(),
            out@ == stable_sort(v@.take(i as int), descending),
        decreases v.len() - i,
    {
        assert(v@.take(i + 1).drop_last() == v@.take(i as int));
        let x = v[i];
        let p = x.priority();
        let k = place_in(&out, p, descending);
        assert(sort_key_i32(p, descending) == sort_key(x, descending));
        proof {
            lemma_place_bounds(out@, sort_key(x, descending), descending);
        }
        let ghost before = out@;
        out.insert(k, x);
        assert(out@ =~= before.take(k as int).push(x) + before.skip(k as int));
        i = i + 1;
    }
    assert(v@.take(v@.len() as int) == v@);
    out
}

} // verus!
