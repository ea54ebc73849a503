//! Stable insertion order: the one sort every listing of this library
//! uses (by title, by category and slug, directories first).

use vstd::prelude::*;

use crate::text::chars_of;

verus! {

/// `x` placed in `sorted` after every item that comes no later than it.
pub open spec fn insert_by<T>(sorted: Seq<T>, x: T, le: spec_fn(T, T) -> bool) -> Seq<T>
    decreases sorted.len(),
{
    if sorted.len() == 0 {
        seq![x]
    } else if le(sorted.last(), x) {
        sorted.push(x)
    } else {
        insert_by(sorted.drop_last(), x, le).push(sorted.last())
    }
}

/// `s` stably sorted by `le`.
pub open spec fn sort_by<T>(s: Seq<T>, le: spec_fn(T, T) -> bool) -> Seq<T>
    decreases s.len(),
{
    if s.len() == 0 {
        Seq::empty()
    } else {
        insert_by(sort_by(s.drop_last(), le), s.last(), le)
    }
}

pub open spec fn is_sorted_by<T>(s: Seq<T>, le: spec_fn(T, T) -> bool) -> bool {
    forall|i: int, j: int| 0 <= i < j < s.len() ==> le(#[trigger] s[i], #[trigger] s[j])
}

/// `le` orders everything, consistently.
pub open spec fn is_total_preorder<T>(le: spec_fn(T, T) -> bool) -> bool {
    &&& forall|a: T, b: T| #[trigger] le(a, b) || le(b, a)
    &&& forall|a: T, b: T, c: T| #[trigger] le(a, b) && #[trigger] le(b, c) ==> le(a, c)
}

proof fn lemma_insert_sorted<T>(sorted: Seq<T>, x: T, le: spec_fn(T, T) -> bool)
    requires
        is_total_preorder(le),
        is_sorted_by(sorted, le),
    ensures
        is_sorted_by(insert_by(sorted, x, le), le),
        insert_by(sorted, x, le).to_multiset() == sorted.to_multiset().insert(x),
    decreases sorted.len(),
{
    broadcast use vstd::seq_lib::group_to_multiset_ensures;

    if sorted.len() == 0 {
        assert(seq![x] =~= Seq::<T>::empty().push(x));
        assert(sorted =~= Seq::<T>::empty());
    } else if le(sorted.last(), x) {
        let r = sorted.push(x);
        assert forall|i: int, j: int| 0 <= i < j < r.len() implies le(#[trigger] r[i], #[trigger] r[j]) by {
            if j == sorted.len() {
                if i < sorted.len() - 1 {
                    assert(le(sorted[i], sorted[sorted.len() - 1]));
                }
            }
        }
    } else {
        let init = sorted.drop_last();
        let last = sorted.last();
        assert forall|i: int, j: int| 0 <= i < j < init.len() implies le(#[trigger] init[i], #[trigger] init[j]) by {
            assert(init[i] == sorted[i] && init[j] == sorted[j]);
        }
        lemma_insert_sorted(init, x, le);
        let m = insert_by(init, x, le);
        assert(le(x, last));
        assert forall|k: int| 0 <= k < m.len() implies le(#[trigger] m[k], last) by {
            assert(m.to_multiset().count(m[k]) > 0);
            if m[k] != x {
                assert(init.to_multiset().count(m[k]) > 0);
                let t = choose|t: int| 0 <= t < init.len() && init[t] == m[k];
                assert(le(sorted[t], sorted[sorted.len() - 1]));
            }
        }
        let r = m.push(last);
        assert forall|i: int, j: int| 0 <= i < j < r.len() implies le(#[trigger] r[i], #[trigger] r[j]) by {
            if j == m.len() {
                assert(le(m[i], last));
            } else {
                assert(r[i] == m[i] && r[j] == m[j]);
            }
        }
        assert(init.push(last) =~= sorted);
        assert(r.to_multiset() =~= sorted.to_multiset().insert(x));
    }
}

/// Sorting puts the items in order and keeps each of them, as often as
/// it occurs.
pub proof fn lemma_sort_sorted<T>(s: Seq<T>, le: spec_fn(T, T) -> bool)
    requires
        is_total_preorder(le),
    ensures
        is_sorted_by(sort_by(s, le), le),
        sort_by(s, le).to_multiset() == s.to_multiset(),
    decreases s.len(),
{
    broadcast use vstd::seq_lib::group_to_multiset_ensures;

    if s.len() == 0 {
        assert(s.to_multiset() =~= vstd::multiset::Multiset::<T>::empty());
        assert(sort_by(s, le).to_multiset() =~= vstd::multiset::Multiset::<T>::empty());
    } else {
        lemma_sort_sorted(s.drop_last(), le);
        lemma_insert_sorted(sort_by(s.drop_last(), le), s.last(), le);
        assert(s.drop_last().push(s.last()) =~= s);
    }
}

/// Whether `a` sorts no later than `b`: lexicographic by character.
pub open spec fn lex_le(a: Seq<char>, b: Seq<char>) -> bool
    decreases a.len(),
{
    if a.len() == 0 {
        true
    } else if b.len() == 0 {
        false
    } else if a[0] != b[0] {
        a[0] < b[0]
    } else {
        lex_le(a.drop_first(), b.drop_first())
    }
}

/// Whether `a` sorts no later than `b`.
pub fn lex_le_str(a: &str, b: &str) -> (res: bool)
    ensures
        res == lex_le(a@, b@),
{
    let x = chars_of(a);
    let y = chars_of(b);
    let mut i: usize = 0;
    proof {
        assert(x@.skip(0) =~= x@);
        assert(y@.skip(0) =~= y@);
    }
    while i < x.len() && i < y.len() && x[i] == y[i]
        invariant
            i <= x@.len(),
            i <= y@.len(),
            lex_le(a@, b@) == lex_le(x@.skip(i as int), y@.skip(i as int)),
            x@ == a@,
            y@ == b@,
        decreases x@.len() - i,
    {
        proof {
            assert(x@.skip(i as int).drop_first() =~= x@.skip(i + 1));
            assert(y@.skip(i as int).drop_first() =~= y@.skip(i + 1));
        }
        i = i + 1;
    }
    if i == x.len() {
        true
    } else if i == y.len() {
        false
    } else {
        x[i] < y[i]
    }
}

proof fn lemma_lex_total(a: Seq<char>, b: Seq<char>)
    ensures
        lex_le(a, b) || lex_le(b, a),
    decreases a.len(),
{
    if a.len() > 0 && b.len() > 0 && a[0] == b[0] {
        lemma_lex_total(a.drop_first(), b.drop_first());
    }
}

proof fn lemma_lex_trans(a: Seq<char>, b: Seq<char>, c: Seq<char>)
    requires
        lex_le(a, b),
        lex_le(b, c),
    ensures
        lex_le(a, c),
    decreases a.len(),
{
    if a.len() > 0 && b.len() > 0 && c.len() > 0 && a[0] == b[0] && b[0] == c[0] {
        lemma_lex_trans(a.drop_first(), b.drop_first(), c.drop_first());
    }
}

/// Character-by-character order is total and consistent.
pub proof fn lemma_lex_total_preorder()
    ensures
        forall|a: Seq<char>, b: Seq<char>| #[trigger] lex_le(a, b) || lex_le(b, a),
        forall|a: Seq<char>, b: Seq<char>, c: Seq<char>|
            #[trigger] lex_le(a, b) && #[trigger] lex_le(b, c) ==> lex_le(a, c),
{
    assert forall|a: Seq<char>, b: Seq<char>| #[trigger] lex_le(a, b) || lex_le(b, a) by {
        lemma_lex_total(a, b);
    }
    assert forall|a: Seq<char>, b: Seq<char>, c: Seq<char>|
        #[trigger] lex_le(a, b) && #[trigger] lex_le(b, c) implies lex_le(a, c) by {
        lemma_lex_trans(a, b, c);
    }
}

} // verus!
