//! Stable ordering of lists by a "comes before" relation.
//!
//! Listings are sorted the way a stable sort orders them: an element is
//! placed after every element it does not come strictly before, and
//! elements that tie keep the order they arrived in.  `stable_sorted_by`
//! states that order as repeated insertion; the laws below show that the
//! result is ordered, holds the same elements, and keeps ties in order.

use vstd::prelude::*;
use crate::text::text_lt;

verus! {

broadcast use vstd::seq_lib::group_to_multiset_ensures;

/// `s` with `x` inserted after the last element that `x` does not come
/// strictly before.
pub open spec fn insert_by<T>(s: Seq<T>, x: T, before: spec_fn(T, T) -> bool) -> Seq<T>
    decreases s.len(),
{
    if s.len() > 0 && before(x, s.last()) {
        insert_by(s.drop_last(), x, before).push(s.last())
    } else {
        s.push(x)
    }
}

/// The elements of `s` in stable sorted order: each element is inserted,
/// first to last, into the order of those before it.
pub open spec fn stable_sorted_by<T>(s: Seq<T>, before: spec_fn(T, T) -> bool) -> Seq<T>
    decreases s.len(),
{
    if s.len() == 0 {
        s
    } else {
        insert_by(stable_sorted_by(s.drop_last(), before), s.last(), before)
    }
}

/// A strict weak order: irreflexive, transitive, and such that "not
/// before" is transitive too (ties are an equivalence).
pub open spec fn strict_weak_order<T>(before: spec_fn(T, T) -> bool) -> bool {
    &&& forall|a: T| !#[trigger] before(a, a)
    &&& forall|a: T, b: T, c: T| #[trigger] before(a, b) && #[trigger] before(b, c) ==> before(a, c)
    &&& forall|a: T, b: T, c: T|
        !#[trigger] before(a, b) && !#[trigger] before(b, c) ==> !before(a, c)
}

/// No element comes strictly before an element listed ahead of it.
pub open spec fn ordered_by<T>(s: Seq<T>, before: spec_fn(T, T) -> bool) -> bool {
    forall|i: int, j: int| 0 <= i < j < s.len() ==> !before(#[trigger] s[j], #[trigger] s[i])
}

/// Inserting at the position found by scanning back from the end over
/// the elements that `x` comes before.
pub proof fn lemma_insert_by_at<T>(s: Seq<T>, x: T, before: spec_fn(T, T) -> bool, p: int)
    requires
        0 <= p <= s.len(),
        forall|j: int| p <= j < s.len() ==> before(x, #[trigger] s[j]),
        p == 0 || !before(x, s[p - 1]),
    ensures
        insert_by(s, x, before) == s.insert(p, x),
    decreases s.len(),
{
    if p == s.len() {
        assert(s.insert(p, x) =~= s.push(x));
    } else {
        assert(before(x, s[s.len() - 1]));
        lemma_insert_by_at(s.drop_last(), x, before, p);
        assert(s.insert(p, x) =~= s.drop_last().insert(p, x).push(s.last()));
    }
}

/// Insertion adds exactly one copy of `x`.
pub proof fn lemma_insert_by_multiset<T>(s: Seq<T>, x: T, before: spec_fn(T, T) -> bool)
    ensures
        insert_by(s, x, before).to_multiset() == s.to_multiset().insert(x),
        insert_by(s, x, before).len() == s.len() + 1,
    decreases s.len(),
{
    if s.len() > 0 && before(x, s.last()) {
        lemma_insert_by_multiset(s.drop_last(), x, before);
        assert(s =~= s.drop_last().push(s.last()));
        assert(s.to_multiset() == s.drop_last().to_multiset().insert(s.last()));
        assert(insert_by(s, x, before).to_multiset() =~= s.to_multiset().insert(x));
    }
}

proof fn lemma_insert_by_elements<T>(s: Seq<T>, x: T, before: spec_fn(T, T) -> bool)
    ensures
        forall|k: int| 0 <= k < insert_by(s, x, before).len() ==> #[trigger] insert_by(s, x, before)[k] == x
            || s.contains(insert_by(s, x, before)[k]),
    decreases s.len(),
{
    lemma_insert_by_multiset(s, x, before);
    if s.len() > 0 && before(x, s.last()) {
        lemma_insert_by_elements(s.drop_last(), x, before);
        let r = insert_by(s, x, before);
        let q = insert_by(s.drop_last(), x, before);
        assert forall|k: int| 0 <= k < r.len() implies #[trigger] r[k] == x || s.contains(r[k]) by {
            if k < q.len() {
                assert(q[k] == x || s.drop_last().contains(q[k]));
                if q[k] != x {
                    let w = choose|w: int| 0 <= w < s.drop_last().len() && s.drop_last()[w] == q[k];
                    assert(s[w] == r[k]);
                }
            } else {
                assert(r[k] == s[s.len() - 1]);
            }
        }
    } else {
        let r = insert_by(s, x, before);
        assert forall|k: int| 0 <= k < r.len() implies #[trigger] r[k] == x || s.contains(r[k]) by {
            if k < s.len() {
                assert(r[k] == s[k]);
            }
        }
    }
}

proof fn lemma_insert_by_ordered<T>(s: Seq<T>, x: T, before: spec_fn(T, T) -> bool)
    requires
        strict_weak_order(before),
        ordered_by(s, before),
    ensures
        ordered_by(insert_by(s, x, before), before),
    decreases s.len(),
{
    let r = insert_by(s, x, before);
    lemma_insert_by_multiset(s, x, before);
    if s.len() > 0 && before(x, s.last()) {
        let t = s.drop_last();
        let last = s.last();
        assert(ordered_by(t, before)) by {
            assert forall|i: int, j: int| 0 <= i < j < t.len() implies !before(#[trigger] t[j], #[trigger] t[i]) by {
                assert(t[i] == s[i] && t[j] == s[j]);
            }
        }
        lemma_insert_by_ordered(t, x, before);
        lemma_insert_by_elements(t, x, before);
        let q = insert_by(t, x, before);
        assert forall|i: int, j: int| 0 <= i < j < r.len() implies !before(#[trigger] r[j], #[trigger] r[i]) by {
            if j < q.len() {
                assert(r[i] == q[i] && r[j] == q[j]);
            } else {
                assert(r[j] == last);
                assert(r[i] == q[i]);
                assert(q[i] == x || t.contains(q[i]));
                if q[i] == x {
                    if before(last, x) {
                        assert(before(x, x));
                    }
                } else {
                    let w = choose|w: int| 0 <= w < t.len() && t[w] == q[i];
                    assert(s[w] == q[i] && s[s.len() - 1] == last);
                }
            }
        }
    } else {
        assert forall|i: int, j: int| 0 <= i < j < r.len() implies !before(#[trigger] r[j], #[trigger] r[i]) by {
            if j < s.len() {
                assert(r[i] == s[i] && r[j] == s[j]);
            } else {
                assert(r[j] == x && r[i] == s[i]);
                if i < s.len() - 1 {
                    assert(!before(s[s.len() - 1], s[i]));
                    assert(!before(x, s[s.len() - 1]));
                }
            }
        }
    }
}

/// Law: the stable order is ordered, whatever order the elements came in.
pub proof fn stable_sort_is_ordered<T>(s: Seq<T>, before: spec_fn(T, T) -> bool)
    requires
        strict_weak_order(before),
    ensures
        ordered_by(stable_sorted_by(s, before), before),
    decreases s.len(),
{
    if s.len() > 0 {
        stable_sort_is_ordered(s.drop_last(), before);
        lemma_insert_by_ordered(stable_sorted_by(s.drop_last(), before), s.last(), before);
    }
}

/// Law: the stable order holds exactly the elements it was given, each
/// as often as it was given.
pub proof fn stable_sort_is_permutation<T>(s: Seq<T>, before: spec_fn(T, T) -> bool)
    ensures
        stable_sorted_by(s, before).to_multiset() == s.to_multiset(),
        stable_sorted_by(s, before).len() == s.len(),
    decreases s.len(),
{
    if s.len() > 0 {
        stable_sort_is_permutation(s.drop_last(), before);
        lemma_insert_by_multiset(stable_sorted_by(s.drop_last(), before), s.last(), before);
        assert(s =~= s.drop_last().push(s.last()));
    }
}

/// The elements that tie with `c`: neither comes strictly before the
/// other.
pub open spec fn tied_with<T>(c: T, before: spec_fn(T, T) -> bool) -> spec_fn(T) -> bool {
    |y: T| !before(c, y) && !before(y, c)
}

proof fn lemma_insert_by_filter<T>(t: Seq<T>, x: T, before: spec_fn(T, T) -> bool, p: spec_fn(T) -> bool)
    requires
        forall|y: T| p(x) && #[trigger] before(x, y) ==> !p(y),
    ensures
        insert_by(t, x, before).filter(p) == (if p(x) {
            t.filter(p).push(x)
        } else {
            t.filter(p)
        }),
    decreases t.len(),
{
    reveal(Seq::filter);
    if t.len() > 0 && before(x, t.last()) {
        let last = t.last();
        lemma_insert_by_filter(t.drop_last(), x, before, p);
        let q = insert_by(t.drop_last(), x, before);
        let r = q.push(last);
        assert(r.drop_last() =~= q);
    } else {
        let r = t.push(x);
        assert(r.drop_last() =~= t);
    }
}

/// Law: the stable order keeps tied elements in the order they were
/// given: among the elements that tie with any `c`, the sorted list and
/// the given list agree.
pub proof fn stable_sort_keeps_ties_in_order<T>(s: Seq<T>, before: spec_fn(T, T) -> bool, c: T)
    requires
        strict_weak_order(before),
    ensures
        stable_sorted_by(s, before).filter(tied_with(c, before)) == s.filter(tied_with(c, before)),
    decreases s.len(),
{
    reveal(Seq::filter);
    if s.len() > 0 {
        let p = tied_with(c, before);
        stable_sort_keeps_ties_in_order(s.drop_last(), before, c);
        let x = s.last();
        assert forall|y: T| p(x) && #[trigger] before(x, y) implies !p(y) by {
            if p(y) {
                assert(!before(x, c) && !before(c, y));
            }
        }
        lemma_insert_by_filter(stable_sorted_by(s.drop_last(), before), x, before, p);
    }
}

/// The prefix form of the definition: sorting one more element inserts it
/// into the order of the ones before it.
pub proof fn lemma_stable_sorted_step<T>(s: Seq<T>, k: int, before: spec_fn(T, T) -> bool)
    requires
        0 <= k < s.len(),
    ensures
        stable_sorted_by(s.subrange(0, k + 1), before) == insert_by(
            stable_sorted_by(s.subrange(0, k), before),
            s[k],
            before,
        ),
{
    assert(s.subrange(0, k + 1).drop_last() =~= s.subrange(0, k));
}

/// `text_lt` never holds of a text and itself.
pub proof fn lemma_text_lt_irreflexive(a: Seq<char>)
    ensures
        !text_lt(a, a),
    decreases a.len(),
{
    if a.len() > 0 {
        lemma_text_lt_irreflexive(a.drop_first());
    }
}

/// `text_lt` is transitive.
pub proof fn lemma_text_lt_transitive(a: Seq<char>, b: Seq<char>, c: Seq<char>)
    requires
        text_lt(a, b),
        text_lt(b, c),
    ensures
        text_lt(a, c),
    decreases a.len(),
{
    if a.len() > 0 && b.len() > 0 && c.len() > 0 && a[0] == b[0] && b[0] == c[0] {
        lemma_text_lt_transitive(a.drop_first(), b.drop_first(), c.drop_first());
    }
}

/// Two texts are equal or one comes strictly before the other.
pub proof fn lemma_text_lt_connex(a: Seq<char>, b: Seq<char>)
    ensures
        a == b || text_lt(a, b) || text_lt(b, a),
    decreases a.len(),
{
    if a.len() > 0 && b.len() > 0 && a[0] == b[0] {
        lemma_text_lt_connex(a.drop_first(), b.drop_first());
        if a.drop_first() == b.drop_first() {
            assert(a =~= seq![a[0]] + a.drop_first());
            assert(b =~= seq![b[0]] + b.drop_first());
        }
    } else if a.len() == 0 && b.len() == 0 {
        assert(a =~= b);
    }
}

/// "Not strictly before" is transitive for text order.
pub proof fn lemma_text_not_lt_transitive(a: Seq<char>, b: Seq<char>, c: Seq<char>)
    requires
        !text_lt(b, a),
        !text_lt(c, b),
    ensures
        !text_lt(c, a),
{
    lemma_text_lt_connex(a, b);
    if text_lt(c, a) && text_lt(a, b) {
        lemma_text_lt_transitive(c, a, b);
    }
}

} // verus!
