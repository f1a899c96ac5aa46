//! A stable sort, stated over the views of the sorted values.
use vstd::prelude::*;

verus! {

/// Values that a stable sort can arrange: `spec_after(a, b)` holds when `a` must
/// stand strictly after `b`; values for which neither holds keep their order.
pub trait SortKey: View + Sized {
    spec fn spec_after(a: Self::V, b: Self::V) -> bool;

    fn after(&self, other: &Self) -> (res: bool)
        ensures
            res == Self::spec_after(self@, other@),
    ;

    /// No two values must each stand after the other.
    proof fn lemma_after_asymmetric(a: Self::V, b: Self::V)
        requires
            Self::spec_after(a, b),
        ensures
            !Self::spec_after(b, a),
    ;
}

/// The views of the values of `v`, in order.
pub open spec fn views<T: View>(v: Seq<T>) -> Seq<T::V> {
    v.map_values(|x: T| x@)
}

pub proof fn lemma_views_push<T: View>(s: Seq<T>, x: T)
    ensures
        views(s.push(x)) == views(s).push(x@),
        views(s).len() == s.len(),
{
    assert(views(s.push(x)) =~= views(s).push(x@));
}

pub proof fn lemma_views_len<T: View>(s: Seq<T>)
    ensures
        views(s).len() == s.len(),
{
}

pub proof fn lemma_views_index<T: View>(s: Seq<T>, i: int)
    requires
        0 <= i < s.len(),
    ensures
        views(s)[i] == s[i]@,
        views(s).len() == s.len(),
{
}

/// `s` with `x` placed after every element that `x` does not have to precede,
/// scanning from the right: the step of a stable insertion sort.
pub open spec fn insert_sorted<T: SortKey>(x: T::V, s: Seq<T::V>) -> Seq<T::V>
    decreases s.len(),
{
    if s.len() == 0 {
        seq![x]
    } else if T::spec_after(s.last(), x) {
        insert_sorted::<T>(x, s.drop_last()).push(s.last())
    } else {
        s.push(x)
    }
}

/// The stable sort of `s`: elements arranged by `spec_after`, equivalent elements in
/// their original order.
pub open spec fn stable_sort<T: SortKey>(s: Seq<T::V>) -> Seq<T::V>
    decreases s.len(),
{
    if s.len() == 0 {
        s
    } else {
        insert_sorted::<T>(s.last(), stable_sort::<T>(s.drop_last()))
    }
}

/// No element of `s` has to stand after its right neighbour.
pub open spec fn in_sorted_order<T: SortKey>(s: Seq<T::V>) -> bool {
    forall|i: int| 0 <= i < s.len() - 1 ==> !T::spec_after(#[trigger] s[i], s[i + 1])
}

/// A sequence already in order is left as it is by the stable sort.
pub proof fn lemma_sorted_is_fixed<T: SortKey>(s: Seq<T::V>)
    requires
        in_sorted_order::<T>(s),
    ensures
        stable_sort::<T>(s) == s,
    decreases s.len(),
{
    if s.len() > 0 {
        let p = s.drop_last();
        assert(in_sorted_order::<T>(p)) by {
            assert forall|i: int| 0 <= i < p.len() - 1 implies !T::spec_after(#[trigger] p[i], p[i + 1]) by {
                assert(p[i] == s[i]);
                assert(p[i + 1] == s[i + 1]);
            }
        }
        lemma_sorted_is_fixed::<T>(p);
        if p.len() > 0 {
            assert(p.last() == s[s.len() - 2]);
            assert(!T::spec_after(s[s.len() - 2], s[s.len() - 1]));
        }
        assert(p.push(s.last()) =~= s);
    }
}

pub proof fn lemma_insert_sorted_len<T: SortKey>(x: T::V, s: Seq<T::V>)
    ensures
        insert_sorted::<T>(x, s).len() == s.len() + 1,
    decreases s.len(),
{
    if s.len() > 0 {
        lemma_insert_sorted_len::<T>(x, s.drop_last());
    }
}

pub proof fn lemma_stable_sort_len<T: SortKey>(s: Seq<T::V>)
    ensures
        stable_sort::<T>(s).len() == s.len(),
    decreases s.len(),
{
    if s.len() > 0 {
        lemma_stable_sort_len::<T>(s.drop_last());
        lemma_insert_sorted_len::<T>(s.last(), stable_sort::<T>(s.drop_last()));
    }
}

/// Sorts `v` stably by `SortKey::after`.
pub fn sort_stable<T: SortKey>(v: Vec<T>) -> (res: Vec<T>)
    ensures
        views(res@) == stable_sort::<T>(views(v@)),
{
    let ghost s = views(v@);
    let mut rest = v;
    let mut out: Vec<T> = Vec::new();
    let ghost mut i: int = 0;
    assert(s.take(0) =~= Seq::<T::V>::empty());
    assert(views(out@) =~= Seq::<T::V>::empty());
    assert(views(rest@) =~= s.skip(0));
    while rest.len() > 0
        invariant
            0 <= i <= s.len(),
            views(out@) == stable_sort::<T>(s.take(i)),
            views(rest@) == s.skip(i),
        decreases rest.len(),
    {
        let ghost old_out = views(out@);
        let ghost old_rest = rest@;
        assert(views(old_rest).len() == old_rest.len());
        assert(views(old_rest)[0] == old_rest[0]@);
        assert(i < s.len());
        let x = rest.remove(0);
        assert(x@ == s[i]);
        let mut pos: usize = out.len();
        assert(old_out.take(pos as int) =~= old_out);
        assert(old_out.skip(pos as int) =~= Seq::<T::V>::empty());
        while pos > 0 && out[pos - 1].after(&x)
            invariant
                pos <= out.len(),
                views(out@) == old_out,
                insert_sorted::<T>(x@, old_out) == insert_sorted::<T>(
                    x@,
                    old_out.take(pos as int),
                ) + old_out.skip(pos as int),
                pos < out.len() ==> T::spec_after(old_out[pos as int], x@),
            decreases pos,
        {
            let ghost t = old_out.take(pos as int);
            assert(t.drop_last() =~= old_out.take(pos - 1));
            assert(t.last() == old_out[pos - 1]);
            assert(old_out.skip(pos - 1) =~= seq![old_out[pos - 1]] + old_out.skip(pos as int));
            assert(insert_sorted::<T>(x@, t) == insert_sorted::<T>(x@, old_out.take(pos - 1)).push(
                old_out[pos - 1],
            ));
            assert(insert_sorted::<T>(x@, old_out.take(pos - 1)).push(old_out[pos - 1])
                + old_out.skip(pos as int) =~= insert_sorted::<T>(x@, old_out.take(pos - 1))
                + old_out.skip(pos - 1));
            pos = pos - 1;
        }
        let ghost t = old_out.take(pos as int);
        assert(insert_sorted::<T>(x@, t) =~= t.push(x@)) by {
            if t.len() > 0 {
                assert(t.last() == old_out[pos - 1]);
            }
        }
        out.insert(pos, x);
        assert(views(out@) =~= t.push(x@) + old_out.skip(pos as int));
        assert(s.take(i + 1).drop_last() =~= s.take(i));
        assert(s.take(i + 1).last() == s[i]);
        assert(views(rest@) =~= views(old_rest).drop_first());
        assert(views(rest@) =~= s.skip(i + 1));
        proof {
            i = i + 1;
        }
    }
    assert(s.take(i) =~= s);
    out
}

/// The last element of an insertion is the inserted value or the old last element.
pub proof fn lemma_insert_sorted_shape<T: SortKey>(x: T::V, s: Seq<T::V>)
    ensures
        insert_sorted::<T>(x, s).len() == s.len() + 1,
        insert_sorted::<T>(x, s).last() == x || (s.len() > 0 && insert_sorted::<T>(x, s).last()
            == s.last()),
        in_sorted_order::<T>(s) ==> in_sorted_order::<T>(insert_sorted::<T>(x, s)),
        insert_sorted::<T>(x, s).to_multiset() == s.to_multiset().insert(x),
    decreases s.len(),
{
    broadcast use vstd::seq_lib::group_to_multiset_ensures;

    let r = insert_sorted::<T>(x, s);
    if s.len() == 0 {
        assert(r =~= seq![x]);
        assert(seq![x] =~= Seq::<T::V>::empty().push(x));
    } else if T::spec_after(s.last(), x) {
        let p = s.drop_last();
        let q = insert_sorted::<T>(x, p);
        lemma_insert_sorted_shape::<T>(x, p);
        assert(s =~= p.push(s.last()));
        if in_sorted_order::<T>(s) {
            assert(in_sorted_order::<T>(p)) by {
                assert forall|i: int| 0 <= i < p.len() - 1 implies !T::spec_after(
                    #[trigger] p[i],
                    p[i + 1],
                ) by {
                    assert(p[i] == s[i]);
                    assert(p[i + 1] == s[i + 1]);
                }
            }
            assert(!T::spec_after(q.last(), s.last())) by {
                if q.last() == x {
                    T::lemma_after_asymmetric(s.last(), x);
                } else {
                    assert(q.last() == p.last());
                    assert(p.last() == s[s.len() - 2]);
                }
            }
            assert forall|i: int| 0 <= i < r.len() - 1 implies !T::spec_after(
                #[trigger] r[i],
                r[i + 1],
            ) by {
                if i < q.len() - 1 {
                    assert(r[i] == q[i]);
                    assert(r[i + 1] == q[i + 1]);
                } else {
                    assert(r[i] == q.last());
                    assert(r[i + 1] == s.last());
                }
            }
        }
        assert(r.to_multiset() =~= q.to_multiset().insert(s.last()));
        assert(s.to_multiset() =~= p.to_multiset().insert(s.last()));
    } else {
        assert(r == s.push(x));
        if in_sorted_order::<T>(s) {
            assert forall|i: int| 0 <= i < r.len() - 1 implies !T::spec_after(
                #[trigger] r[i],
                r[i + 1],
            ) by {
                if i < s.len() - 1 {
                    assert(r[i] == s[i]);
                    assert(r[i + 1] == s[i + 1]);
                } else {
                    assert(r[i] == s.last());
                }
            }
        }
    }
}

/// The stable sort arranges its input in order, and it only rearranges it.
pub proof fn lemma_stable_sort_sorted<T: SortKey>(s: Seq<T::V>)
    ensures
        in_sorted_order::<T>(stable_sort::<T>(s)),
        stable_sort::<T>(s).to_multiset() == s.to_multiset(),
        stable_sort::<T>(s).len() == s.len(),
    decreases s.len(),
{
    broadcast use vstd::seq_lib::group_to_multiset_ensures;

    if s.len() > 0 {
        let p = s.drop_last();
        lemma_stable_sort_sorted::<T>(p);
        lemma_insert_sorted_shape::<T>(s.last(), stable_sort::<T>(p));
        assert(s =~= p.push(s.last()));
    } else {
        assert(in_sorted_order::<T>(s));
    }
}

/// Every element of the stable sort is an element of its input.
pub proof fn lemma_stable_sort_contains<T: SortKey>(s: Seq<T::V>, i: int)
    requires
        0 <= i < stable_sort::<T>(s).len(),
    ensures
        s.contains(stable_sort::<T>(s)[i]),
{
    broadcast use vstd::seq_lib::group_to_multiset_ensures;

    lemma_stable_sort_sorted::<T>(s);
    let r = stable_sort::<T>(s);
    assert(r.contains(r[i]));
    assert(r.to_multiset().count(r[i]) > 0);
}

} // verus!
