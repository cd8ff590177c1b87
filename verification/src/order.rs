//! Stable insertion sorting as the library's lists are sorted, and what it
//! guarantees: the result holds the same elements, in order, elements that
//! compare equal keeping their order.
use vstd::prelude::*;

verus! {

/// `x` placed into `s` after the last element that it does not go before.
pub open spec fn insert_ordered<T>(s: Seq<T>, x: T, before: spec_fn(T, T) -> bool) -> Seq<T>
    decreases s.len(),
{
    if s.len() == 0 {
        seq![x]
    } else if before(x, s.last()) {
        insert_ordered(s.drop_last(), x, before).push(s.last())
    } else {
        s.push(x)
    }
}

/// `s` sorted by inserting its elements one after the other.
pub open spec fn sort_ordered<T>(s: Seq<T>, before: spec_fn(T, T) -> bool) -> Seq<T>
    decreases s.len(),
{
    if s.len() == 0 {
        s
    } else {
        insert_ordered(sort_ordered(s.drop_last(), before), s.last(), before)
    }
}

/// `before` is a strict weak order: irreflexive, transitive, and when `a`
/// goes before `c`, any `b` goes after `a` or before `c`.
pub open spec fn strict_weak_order<T>(before: spec_fn(T, T) -> bool) -> bool {
    &&& forall|a: T| !#[trigger] before(a, a)
    &&& forall|a: T, b: T, c: T| #[trigger] before(a, b) && #[trigger] before(b, c) ==> before(a, c)
    &&& forall|a: T, b: T, c: T|
        #![trigger before(a, b), before(b, c)]
        before(a, c) ==> before(a, b) || before(b, c)
}

/// No element of `s` goes before an element ahead of it.
pub open spec fn sorted_by<T>(s: Seq<T>, before: spec_fn(T, T) -> bool) -> bool {
    forall|i: int, j: int| 0 <= i < j < s.len() ==> !before(#[trigger] s[j], #[trigger] s[i])
}

/// `x` goes in at some place `p`: every element after it is one that `x`
/// goes before, the one ahead of it is not.
pub proof fn lemma_insert_ordered_shape<T>(s: Seq<T>, x: T, before: spec_fn(T, T) -> bool) -> (p: int)
    ensures
        0 <= p <= s.len(),
        insert_ordered(s, x, before) == s.insert(p, x),
        forall|k: int| p <= k < s.len() ==> before(x, #[trigger] s[k]),
        p > 0 ==> !before(x, s[p - 1]),
    decreases s.len(),
{
    if s.len() == 0 {
        assert(s.insert(0, x) =~= seq![x]);
        0
    } else if before(x, s.last()) {
        let d = s.drop_last();
        let q = lemma_insert_ordered_shape(d, x, before);
        assert(d.insert(q, x).push(s.last()) =~= s.insert(q, x));
        assert forall|k: int| q <= k < s.len() implies before(x, #[trigger] s[k]) by {
            if k < d.len() {
                assert(d[k] == s[k]);
            }
        }
        if q > 0 {
            assert(d[q - 1] == s[q - 1]);
        }
        q
    } else {
        assert(s.insert(s.len() as int, x) =~= s.push(x));
        s.len() as int
    }
}

/// The sorted list holds the same elements as the list (as a multiset),
/// and, for a strict weak order, is sorted.
pub proof fn lemma_sort_ordered<T>(s: Seq<T>, before: spec_fn(T, T) -> bool)
    ensures
        sort_ordered(s, before).to_multiset() == s.to_multiset(),
        sort_ordered(s, before).len() == s.len(),
        strict_weak_order(before) ==> sorted_by(sort_ordered(s, before), before),
    decreases s.len(),
{
    broadcast use vstd::seq_lib::group_to_multiset_ensures;

    if s.len() == 0 {
    } else {
        let d = s.drop_last();
        let x = s.last();
        lemma_sort_ordered(d, before);
        let t = sort_ordered(d, before);
        let p = lemma_insert_ordered_shape(t, x, before);
        let r = t.insert(p, x);
        assert(r == sort_ordered(s, before));
        assert(s =~= d.push(x));
        assert(r.to_multiset() == t.to_multiset().insert(x));
        if strict_weak_order(before) {
            assert forall|a: int, b: int| 0 <= a < b < r.len() implies !before(#[trigger] r[b], #[trigger] r[a]) by {
                if a != p && b != p {
                    let a0 = if a < p { a } else { a - 1 };
                    let b0 = if b < p { b } else { b - 1 };
                    assert(r[a] == t[a0] && r[b] == t[b0]);
                    assert(!before(t[b0], t[a0]));
                } else if a == p {
                    assert(r[b] == t[b - 1]);
                    assert(before(x, t[b - 1]));
                    if before(t[b - 1], x) {
                        assert(before(x, x));
                    }
                } else {
                    assert(r[a] == t[a]);
                    assert(r[b] == x);
                    if a < p - 1 {
                        assert(!before(t[p - 1], t[a]));
                        assert(!before(x, t[p - 1]));
                        if before(x, t[a]) {
                            assert(before(x, t[p - 1]) || before(t[p - 1], t[a]));
                        }
                    }
                }
            }
        }
    }
}

/// Inserting at a place `p` after which every element is one that `x` goes
/// before, and ahead of which the element is not, is what `insert_ordered`
/// does.
pub proof fn lemma_insert_ordered_at<T>(s: Seq<T>, x: T, before: spec_fn(T, T) -> bool, p: int)
    requires
        0 <= p <= s.len(),
        forall|k: int| p <= k < s.len() ==> before(x, #[trigger] s[k]),
        p > 0 ==> !before(x, s[p - 1]),
    ensures
        insert_ordered(s, x, before) == s.insert(p, x),
    decreases s.len() - p,
{
    if p == s.len() {
        if s.len() == 0 {
            assert(s.insert(p, x) =~= seq![x]);
        } else {
            assert(s.insert(p, x) =~= s.push(x));
        }
    } else {
        let d = s.drop_last();
        assert forall|k: int| p <= k < d.len() implies before(x, #[trigger] d[k]) by {
            assert(d[k] == s[k]);
        }
        if p > 0 {
            assert(d[p - 1] == s[p - 1]);
        }
        assert(before(x, s[s.len() - 1]));
        lemma_insert_ordered_at(d, x, before, p);
        assert(d.insert(p, x).push(s.last()) =~= s.insert(p, x));
    }
}

} // verus!
