//! Stable sorting by insertion.
use vstd::multiset::Multiset;
use vstd::prelude::*;

verus! {

/// `x` put behind all elements at the end of which it may stand.
pub open spec fn insert_by<T>(s: Seq<T>, x: T, le: spec_fn(T, T) -> bool) -> Seq<T>
    decreases s.len(),
{
    if s.len() == 0 || le(s.last(), x) {
        s.push(x)
    } else {
        insert_by(s.drop_last(), x, le).push(s.last())
    }
}

/// The elements of `s` in the order of `le`, equal ones in the order in which they stand in `s`.
pub open spec fn sort_by<T>(s: Seq<T>, le: spec_fn(T, T) -> bool) -> Seq<T>
    decreases s.len(),
{
    if s.len() == 0 {
        Seq::empty()
    } else {
        insert_by(sort_by(s.drop_last(), le), s.last(), le)
    }
}

/// No element stands before one that it should follow.
pub open spec fn sorted<T>(s: Seq<T>, le: spec_fn(T, T) -> bool) -> bool {
    forall|i: int, j: int| 0 <= i < j < s.len() ==> le(#[trigger] s[i], #[trigger] s[j])
}

/// Any two elements can be ordered, and the order carries over.
pub open spec fn is_order<T>(le: spec_fn(T, T) -> bool) -> bool {
    &&& forall|a: T, b: T| #[trigger] le(a, b) || le(b, a)
    &&& forall|a: T, b: T, c: T| #[trigger] le(a, b) && #[trigger] le(b, c) ==> le(a, c)
}

pub proof fn lemma_insert_at<T>(s: Seq<T>, x: T, le: spec_fn(T, T) -> bool, p: int)
    requires
        0 <= p <= s.len(),
        p > 0 ==> le(s[p - 1], x),
        forall|k: int| p <= k < s.len() ==> !le(s[k], x),
    ensures
        insert_by(s, x, le) == s.insert(p, x),
    decreases s.len(),
{
    if p == s.len() {
        assert(s.insert(p, x) =~= s.push(x));
    } else {
        lemma_insert_at(s.drop_last(), x, le, p);
        assert(s.insert(p, x) =~= s.drop_last().insert(p, x).push(s.last()));
    }
}

/// The place at which `insert_by` puts an element.
pub proof fn insert_point<T>(s: Seq<T>, x: T, le: spec_fn(T, T) -> bool) -> (p: int)
    ensures
        0 <= p <= s.len(),
        insert_by(s, x, le) == s.insert(p, x),
        p > 0 ==> le(s[p - 1], x),
        forall|k: int| p <= k < s.len() ==> !le(s[k], x),
    decreases s.len(),
{
    if s.len() == 0 || le(s.last(), x) {
        assert(s.insert(s.len() as int, x) =~= s.push(x));
        s.len() as int
    } else {
        let p = insert_point(s.drop_last(), x, le);
        assert(s.insert(p, x) =~= s.drop_last().insert(p, x).push(s.last()));
        assert forall|k: int| p <= k < s.len() implies !le(s[k], x) by {
            if k < s.len() - 1 {
                assert(s.drop_last()[k] == s[k]);
            }
        }
        p
    }
}

proof fn lemma_insert_multiset<T>(s: Seq<T>, x: T, le: spec_fn(T, T) -> bool)
    ensures
        insert_by(s, x, le).to_multiset() == s.to_multiset().insert(x),
    decreases s.len(),
{
    broadcast use vstd::seq_lib::group_to_multiset_ensures;

    if s.len() > 0 && !le(s.last(), x) {
        let t = s.drop_last();
        lemma_insert_multiset(t, x, le);
        assert(s =~= t.push(s.last()));
        assert(insert_by(s, x, le).to_multiset() =~= s.to_multiset().insert(x));
    }
}

proof fn lemma_insert_sorted<T>(s: Seq<T>, x: T, le: spec_fn(T, T) -> bool)
    requires
        is_order(le),
        sorted(s, le),
    ensures
        sorted(insert_by(s, x, le), le),
{
    let p = insert_point(s, x, le);
    let r = s.insert(p, x);
    assert forall|i: int, j: int| 0 <= i < j < r.len() implies le(#[trigger] r[i], #[trigger] r[j]) by {
        if j < p {
            assert(le(s[i], s[j]));
        } else if j == p {
            assert(r[i] == s[i]);
            if i < p - 1 {
                assert(le(s[i], s[p - 1]));
                assert(le(s[p - 1], x));
            }
        } else {
            assert(r[j] == s[j - 1]);
            if i < p {
                assert(le(s[i], s[j - 1]));
            } else if i == p {
                assert(!le(s[j - 1], x));
                assert(le(s[j - 1], x) || le(x, s[j - 1]));
            } else {
                assert(le(s[i - 1], s[j - 1]));
            }
        }
    }
}

/// Sorting keeps every element, as often as it stands there.
pub proof fn sort_keeps_elements<T>(s: Seq<T>, le: spec_fn(T, T) -> bool)
    ensures
        sort_by(s, le).to_multiset() == s.to_multiset(),
        sort_by(s, le).len() == s.len(),
    decreases s.len(),
{
    broadcast use vstd::seq_lib::group_to_multiset_ensures;

    if s.len() == 0 {
        assert(sort_by(s, le) =~= s);
    } else {
        let t = s.drop_last();
        sort_keeps_elements(t, le);
        lemma_insert_multiset(sort_by(t, le), s.last(), le);
        let p = insert_point(sort_by(t, le), s.last(), le);
        assert(s =~= t.push(s.last()));
        assert(sort_by(s, le).to_multiset() =~= s.to_multiset());
    }
}

/// Sorting by an order puts the elements in that order.
pub proof fn sort_is_sorted<T>(s: Seq<T>, le: spec_fn(T, T) -> bool)
    requires
        is_order(le),
    ensures
        sorted(sort_by(s, le), le),
    decreases s.len(),
{
    if s.len() > 0 {
        sort_is_sorted(s.drop_last(), le);
        lemma_insert_sorted(sort_by(s.drop_last(), le), s.last(), le);
    }
}

/// A list that is in order stays as it is.
pub proof fn sort_of_sorted<T>(s: Seq<T>, le: spec_fn(T, T) -> bool)
    requires
        sorted(s, le),
    ensures
        sort_by(s, le) == s,
    decreases s.len(),
{
    if s.len() == 0 {
        assert(sort_by(s, le) =~= s);
    } else {
        let t = s.drop_last();
        assert(sorted(t, le)) by {
            assert forall|i: int, j: int| 0 <= i < j < t.len() implies le(#[trigger] t[i], #[trigger] t[j]) by {
                assert(le(s[i], s[j]));
            }
        }
        sort_of_sorted(t, le);
        if t.len() > 0 {
            assert(le(s[t.len() - 1], s[s.len() - 1]));
        }
        assert(s =~= t.push(s.last()));
    }
}

} // verus!
