//! Stable insertion sorting by a key order.

use vstd::prelude::*;

verus! {

/// A type ordered by a total preorder on its view.
pub trait SortKey: View + Sized {
    /// `a` may come before `b`.
    spec fn key_le(a: Self::V, b: Self::V) -> bool;

    /// Any two are ordered one way or the other.
    proof fn lemma_key_total(a: Self::V, b: Self::V)
        ensures
            Self::key_le(a, b) || Self::key_le(b, a),
    ;

    /// The order is transitive.
    proof fn lemma_key_transitive(a: Self::V, b: Self::V, c: Self::V)
        requires
            Self::key_le(a, b),
            Self::key_le(b, c),
        ensures
            Self::key_le(a, c),
    ;

    /// `key_le` of the two views.
    fn key_le_exec(&self, other: &Self) -> (r: bool)
        ensures
            r == Self::key_le(self@, other@),
    ;
}

/// The views of a sequence.
pub open spec fn seq_views<T: View>(s: Seq<T>) -> Seq<T::V> {
    s.map_values(|x: T| x@)
}

/// `x` put after the last element of `t` that may come before it.
pub open spec fn insert_by<T: SortKey>(t: Seq<T::V>, x: T::V) -> Seq<T::V>
    decreases t.len(),
{
    if t.len() == 0 {
        seq![x]
    } else if T::key_le(t.last(), x) {
        t.push(x)
    } else {
        insert_by::<T>(t.drop_last(), x).push(t.last())
    }
}

/// The stable sort of `s`: each element inserted in turn.
pub open spec fn sort_by<T: SortKey>(s: Seq<T::V>) -> Seq<T::V>
    decreases s.len(),
{
    if s.len() == 0 {
        seq![]
    } else {
        insert_by::<T>(sort_by::<T>(s.drop_last()), s.last())
    }
}

/// Where `insert_by` puts `x`.
pub open spec fn insert_index<T: SortKey>(t: Seq<T::V>, x: T::V) -> int
    decreases t.len(),
{
    if t.len() == 0 {
        0
    } else if T::key_le(t.last(), x) {
        t.len() as int
    } else {
        insert_index::<T>(t.drop_last(), x)
    }
}

proof fn lemma_insert_index<T: SortKey>(t: Seq<T::V>, x: T::V)
    ensures
        0 <= insert_index::<T>(t, x) <= t.len(),
        insert_by::<T>(t, x) == t.insert(insert_index::<T>(t, x), x),
    decreases t.len(),
{
    if t.len() == 0 {
        assert(t.insert(0, x) =~= seq![x]);
    } else if T::key_le(t.last(), x) {
        assert(t.insert(t.len() as int, x) =~= t.push(x));
    } else {
        let d = t.drop_last();
        lemma_insert_index::<T>(d, x);
        let p = insert_index::<T>(d, x);
        assert(d.insert(p, x).push(t.last()) =~= t.insert(p, x));
    }
}

/// Sorts `v` stably by the key order (`sort_by`).
pub fn stable_sort<T: SortKey>(v: Vec<T>) -> (r: Vec<T>)
    ensures
        seq_views(r@) == sort_by::<T>(seq_views(v@)),
{
    let ghost orig = seq_views(v@);
    let mut rest = v;
    let mut out: Vec<T> = Vec::new();
    let ghost mut i: int = 0;
    assert(orig.take(0) =~= Seq::<T::V>::empty());
    assert(seq_views(out@) =~= sort_by::<T>(orig.take(0)));
    assert(seq_views(rest@) =~= orig.skip(0));
    while rest.len() > 0
        invariant
            0 <= i <= orig.len(),
            seq_views(out@) == sort_by::<T>(orig.take(i)),
            seq_views(rest@) == orig.skip(i),
            orig.len() == i + rest@.len(),
        decreases rest@.len(),
    {
        let ghost old_rest = rest@;
        assert(seq_views(old_rest)[0] == old_rest[0]@);
        let x = rest.remove(0);
        assert(x@ == orig[i]);
        assert(seq_views(rest@) =~= seq_views(old_rest).drop_first());
        let ghost t = seq_views(out@);
        proof {
            lemma_insert_index::<T>(t, x@);
        }
        let mut pos = out.len();
        assert(t.take(pos as int) =~= t);
        while pos > 0 && !out[pos - 1].key_le_exec(&x)
            invariant
                pos <= out@.len(),
                t == seq_views(out@),
                insert_index::<T>(t.take(pos as int), x@) == insert_index::<T>(t, x@),
            decreases pos,
        {
            assert(t.take(pos as int).drop_last() =~= t.take(pos - 1));
            pos = pos - 1;
        }
        assert(insert_index::<T>(t.take(pos as int), x@) == pos) by {
            if pos > 0 {
                assert(t.take(pos as int).last() == out@[pos - 1]@);
            }
        }
        out.insert(pos, x);
        assert(seq_views(out@) =~= t.insert(pos as int, x@));
        assert(orig.take(i + 1).drop_last() =~= orig.take(i));
        assert(orig.take(i + 1).last() == x@);
        assert(orig.skip(i).drop_first() =~= orig.skip(i + 1));
        proof {
            i = i + 1;
        }
    }
    assert(orig.take(i) =~= orig);
    out
}

/// Every element may come before every later one.
pub open spec fn sorted_by<T: SortKey>(s: Seq<T::V>) -> bool {
    forall|i: int, j: int| 0 <= i < j < s.len() ==> T::key_le(#[trigger] s[i], #[trigger] s[j])
}

proof fn lemma_insert_index_props<T: SortKey>(t: Seq<T::V>, x: T::V)
    ensures
        insert_index::<T>(t, x) > 0 ==> T::key_le(t[insert_index::<T>(t, x) - 1], x),
        forall|i: int| insert_index::<T>(t, x) <= i < t.len() ==> !T::key_le(#[trigger] t[i], x),
    decreases t.len(),
{
    if t.len() > 0 && !T::key_le(t.last(), x) {
        lemma_insert_index_props::<T>(t.drop_last(), x);
        lemma_insert_index::<T>(t.drop_last(), x);
        assert forall|i: int| insert_index::<T>(t, x) <= i < t.len() implies !T::key_le(#[trigger] t[i], x) by {
            if i < t.len() - 1 {
                assert(t[i] == t.drop_last()[i]);
            }
        }
    }
}

proof fn lemma_insert_sorted<T: SortKey>(t: Seq<T::V>, x: T::V)
    requires
        sorted_by::<T>(t),
    ensures
        sorted_by::<T>(insert_by::<T>(t, x)),
{
    lemma_insert_index::<T>(t, x);
    lemma_insert_index_props::<T>(t, x);
    let p = insert_index::<T>(t, x);
    let r = t.insert(p, x);
    assert forall|i: int, j: int| 0 <= i < j < r.len() implies T::key_le(#[trigger] r[i], #[trigger] r[j]) by {
        if j < p {
            assert(r[i] == t[i] && r[j] == t[j]);
        } else if j == p {
            assert(r[j] == x && r[i] == t[i]);
            if i < p - 1 {
                assert(T::key_le(t[i], t[p - 1]));
                T::lemma_key_transitive(t[i], t[p - 1], x);
            }
        } else if i == p {
            assert(r[i] == x && r[j] == t[j - 1]);
            T::lemma_key_total(t[j - 1], x);
        } else if i < p {
            assert(r[i] == t[i] && r[j] == t[j - 1]);
        } else {
            assert(r[i] == t[i - 1] && r[j] == t[j - 1]);
        }
    }
}

/// A sort orders its elements: each may come before every later one.
pub proof fn lemma_sort_by_sorted<T: SortKey>(s: Seq<T::V>)
    ensures
        sorted_by::<T>(sort_by::<T>(s)),
    decreases s.len(),
{
    if s.len() > 0 {
        lemma_sort_by_sorted::<T>(s.drop_last());
        lemma_insert_sorted::<T>(sort_by::<T>(s.drop_last()), s.last());
    }
}

/// A sort keeps the elements: the same ones, each as often.
pub proof fn lemma_sort_by_permutes<T: SortKey>(s: Seq<T::V>)
    ensures
        sort_by::<T>(s).to_multiset() == s.to_multiset(),
    decreases s.len(),
{
    broadcast use vstd::seq_lib::group_to_multiset_ensures;

    if s.len() > 0 {
        lemma_sort_by_permutes::<T>(s.drop_last());
        let t = sort_by::<T>(s.drop_last());
        lemma_insert_index::<T>(t, s.last());
        assert(s =~= s.drop_last().push(s.last()));
    }
}

} // verus!
