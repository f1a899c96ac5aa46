//! The action of operator strings on Slater determinants, as a model to state that
//! normal ordering keeps what an operator string does.
use vstd::prelude::*;

use crate::ast::{FermionOpKind, SpecIndex, SpecOp};
use crate::constraints::SpecDelta;
use crate::rewrite::SpecTerm;

verus! {

broadcast use {vstd::set::group_set_axioms, vstd::set_lib::group_set_lib_default};

/// The number of occupied orbitals below `o`.
pub open spec fn occupied_below(d: Set<int>, o: int) -> nat {
    d.filter(|x: int| x < o).len()
}

/// A signed determinant, `true` for a minus sign; `None` for zero.
pub type SignedDet = Option<(bool, Set<int>)>;

/// One operator on orbital `o` applied to determinant `d`: a creator fills an empty
/// orbital, an annihilator empties a filled one, each with the sign of the number of
/// occupied orbitals below `o`; otherwise the result is zero.
pub open spec fn apply_op(kind: FermionOpKind, o: int, d: Set<int>) -> SignedDet {
    match kind {
        FermionOpKind::Create => if d.contains(o) {
            None
        } else {
            Some((occupied_below(d, o) % 2 == 1, d.insert(o)))
        },
        FermionOpKind::Annihilate => if d.contains(o) {
            Some((occupied_below(d, o) % 2 == 1, d.remove(o)))
        } else {
            None
        },
    }
}

/// One operator applied to a signed determinant.
pub open spec fn then_apply(kind: FermionOpKind, o: int, r: SignedDet) -> SignedDet {
    match r {
        None => None,
        Some((odd, d1)) => match apply_op(kind, o, d1) {
            None => None,
            Some((odd2, d2)) => Some((odd != odd2, d2)),
        },
    }
}

/// A string applied to a signed determinant, its last operator first, each index mapped
/// to an orbital by `orb`.
pub open spec fn apply_from(ops: Seq<SpecOp>, orb: spec_fn(SpecIndex) -> int, r: SignedDet) -> SignedDet
    decreases ops.len(),
{
    if ops.len() == 0 {
        r
    } else {
        then_apply(ops[0].kind, orb(ops[0].index), apply_from(ops.drop_first(), orb, r))
    }
}

/// The coefficient of determinant `e` in a signed determinant.
pub open spec fn amplitude_of(r: SignedDet, e: Set<int>) -> int {
    match r {
        Some((odd, d)) => if d == e {
            if odd {
                -1
            } else {
                1
            }
        } else {
            0
        },
        None => 0,
    }
}

/// The coefficient of determinant `e` in the string applied to determinant `d`.
pub open spec fn amplitude(ops: Seq<SpecOp>, orb: spec_fn(SpecIndex) -> int, d: Set<int>, e: Set<int>) -> int {
    amplitude_of(apply_from(ops, orb, Some((false, d))), e)
}

/// Every delta of the list holds: its two indices name the same orbital.
pub open spec fn deltas_hold(deltas: Seq<SpecDelta>, orb: spec_fn(SpecIndex) -> int) -> bool {
    forall|i: int| 0 <= i < deltas.len() ==> orb(#[trigger] deltas[i].left) == orb(deltas[i].right)
}

/// The coefficient of determinant `e` in one term applied to determinant `d`: its
/// coefficient times that of its string where its deltas hold, else zero.
pub open spec fn term_amplitude(t: SpecTerm, orb: spec_fn(SpecIndex) -> int, d: Set<int>, e: Set<int>) -> int {
    if deltas_hold(t.deltas, orb) {
        t.coefficient * amplitude(t.product, orb, d, e)
    } else {
        0
    }
}

/// The coefficient of determinant `e` in a sum of terms applied to determinant `d`.
pub open spec fn expression_amplitude(
    terms: Seq<SpecTerm>,
    orb: spec_fn(SpecIndex) -> int,
    d: Set<int>,
    e: Set<int>,
) -> int
    decreases terms.len(),
{
    if terms.len() == 0 {
        0
    } else {
        expression_amplitude(terms.drop_last(), orb, d, e) + term_amplitude(terms.last(), orb, d, e)
    }
}

/// The signed determinant with its sign reversed.
pub open spec fn negate(r: SignedDet) -> SignedDet {
    match r {
        None => None,
        Some((odd, d)) => Some((!odd, d)),
    }
}

/// The signed determinant with its sign reversed when `flip` holds.
pub open spec fn flip_if(flip: bool, r: SignedDet) -> SignedDet {
    match r {
        None => None,
        Some((odd, d)) => Some((odd != flip, d)),
    }
}

pub(crate) proof fn lemma_apply_concat(u: Seq<SpecOp>, v: Seq<SpecOp>, orb: spec_fn(SpecIndex) -> int, r: SignedDet)
    ensures
        apply_from(u + v, orb, r) == apply_from(u, orb, apply_from(v, orb, r)),
    decreases u.len(),
{
    if u.len() == 0 {
        assert(u + v =~= v);
    } else {
        assert((u + v).drop_first() =~= u.drop_first() + v);
        assert((u + v)[0] == u[0]);
        lemma_apply_concat(u.drop_first(), v, orb, r);
    }
}

pub(crate) proof fn lemma_apply_flip(ops: Seq<SpecOp>, orb: spec_fn(SpecIndex) -> int, flip: bool, r: SignedDet)
    ensures
        apply_from(ops, orb, flip_if(flip, r)) == flip_if(flip, apply_from(ops, orb, r)),
    decreases ops.len(),
{
    if ops.len() > 0 {
        lemma_apply_flip(ops.drop_first(), orb, flip, r);
    }
}

pub(crate) proof fn lemma_below_insert(d: Set<int>, q: int, o: int)
    requires
        d.finite(),
        !d.contains(q),
    ensures
        occupied_below(d.insert(q), o) == occupied_below(d, o) + (if q < o {
            1nat
        } else {
            0nat
        }),
{
    let f = |x: int| x < o;
    d.lemma_len_filter(f);
    if q < o {
        assert(d.insert(q).filter(f) =~= d.filter(f).insert(q));
    } else {
        assert(d.insert(q).filter(f) =~= d.filter(f));
    }
}

pub(crate) proof fn lemma_below_remove(d: Set<int>, q: int, o: int)
    requires
        d.finite(),
        d.contains(q),
    ensures
        occupied_below(d.remove(q), o) + (if q < o {
            1nat
        } else {
            0nat
        }) == occupied_below(d, o),
{
    let dr = d.remove(q);
    lemma_below_insert(dr, q, o);
    assert(dr.insert(q) =~= d);
}

/// Two operators of one kind anticommute on any determinant.
proof fn lemma_same_kind_pair(kind: FermionOpKind, p: int, q: int, d: Set<int>)
    requires
        d.finite(),
    ensures
        then_apply(kind, p, apply_op(kind, q, d)) == negate(then_apply(kind, q, apply_op(kind, p, d))),
{
    if p != q {
        match kind {
            FermionOpKind::Create => {
                if !d.contains(p) && !d.contains(q) {
                    lemma_below_insert(d, q, p);
                    lemma_below_insert(d, p, q);
                    assert(d.insert(q).insert(p) =~= d.insert(p).insert(q));
                }
            },
            FermionOpKind::Annihilate => {
                if d.contains(p) && d.contains(q) {
                    lemma_below_remove(d, q, p);
                    lemma_below_remove(d, p, q);
                    assert(d.remove(q).remove(p) =~= d.remove(p).remove(q));
                }
            },
        }
    }
}

/// An annihilator and a creator on different orbitals anticommute; on the same orbital
/// exactly one of the two orders gives the determinant back unchanged and the other
/// gives zero.
proof fn lemma_mixed_pair(p: int, q: int, d: Set<int>)
    requires
        d.finite(),
    ensures
        p != q ==> then_apply(FermionOpKind::Annihilate, p, apply_op(FermionOpKind::Create, q, d))
            == negate(then_apply(FermionOpKind::Create, q, apply_op(FermionOpKind::Annihilate, p, d))),
        p == q ==> {
            ||| then_apply(FermionOpKind::Annihilate, p, apply_op(FermionOpKind::Create, q, d))
                == Some((false, d)) && then_apply(
                FermionOpKind::Create,
                q,
                apply_op(FermionOpKind::Annihilate, p, d),
            ) is None
            ||| then_apply(FermionOpKind::Annihilate, p, apply_op(FermionOpKind::Create, q, d))
                is None && then_apply(
                FermionOpKind::Create,
                q,
                apply_op(FermionOpKind::Annihilate, p, d),
            ) == Some((false, d))
        },
{
    if p != q {
        if d.contains(p) && !d.contains(q) {
            lemma_below_insert(d, q, p);
            lemma_below_remove(d, p, q);
            assert(d.insert(q).remove(p) =~= d.remove(p).insert(q));
        }
    } else {
        if d.contains(p) {
            lemma_below_remove(d, p, p);
            assert(d.remove(p).insert(p) =~= d);
        } else {
            lemma_below_insert(d, p, p);
            assert(d.insert(p).remove(p) =~= d);
        }
    }
}

/// A signed determinant whose determinant, if any, is finite.
pub open spec fn finite_det(r: SignedDet) -> bool {
    match r {
        None => true,
        Some((_, d)) => d.finite(),
    }
}

pub(crate) proof fn lemma_apply_finite(ops: Seq<SpecOp>, orb: spec_fn(SpecIndex) -> int, r: SignedDet)
    requires
        finite_det(r),
    ensures
        finite_det(apply_from(ops, orb, r)),
    decreases ops.len(),
{
    if ops.len() > 0 {
        lemma_apply_finite(ops.drop_first(), orb, r);
    }
}

pub(crate) proof fn lemma_apply_none(ops: Seq<SpecOp>, orb: spec_fn(SpecIndex) -> int)
    ensures
        apply_from(ops, orb, None) is None,
    decreases ops.len(),
{
    if ops.len() > 0 {
        lemma_apply_none(ops.drop_first(), orb);
    }
}

/// The coefficient of `e` after applying `a` to a signed determinant.
pub open spec fn amp_after(a: Seq<SpecOp>, orb: spec_fn(SpecIndex) -> int, r: SignedDet, e: Set<int>) -> int {
    amplitude_of(apply_from(a, orb, r), e)
}

proof fn lemma_amp_after_flip(a: Seq<SpecOp>, orb: spec_fn(SpecIndex) -> int, flip: bool, r: SignedDet, e: Set<int>)
    ensures
        amp_after(a, orb, flip_if(flip, r), e) == (if flip {
            -amp_after(a, orb, r, e)
        } else {
            amp_after(a, orb, r, e)
        }),
{
    lemma_apply_flip(a, orb, flip, r);
}

/// The string `a`, a middle part `m`, then `b`: applying it is applying `b`, then `m` to
/// the resulting determinant with a plus sign, then `a`, and carrying `b`'s sign.
proof fn lemma_split_amplitude(
    a: Seq<SpecOp>,
    m: Seq<SpecOp>,
    b: Seq<SpecOp>,
    orb: spec_fn(SpecIndex) -> int,
    d: Set<int>,
    e: Set<int>,
)
    ensures
        amplitude(a + m + b, orb, d, e) == match apply_from(b, orb, Some((false, d))) {
            None => 0,
            Some((odd, d1)) => if odd {
                -amp_after(a, orb, apply_from(m, orb, Some((false, d1))), e)
            } else {
                amp_after(a, orb, apply_from(m, orb, Some((false, d1))), e)
            },
        },
{
    lemma_apply_concat(a + m, b, orb, Some((false, d)));
    let r = apply_from(b, orb, Some((false, d)));
    lemma_apply_concat(a, m, orb, r);
    match r {
        None => {
            lemma_apply_none(m, orb);
            lemma_apply_none(a, orb);
        },
        Some((odd, d1)) => {
            assert(flip_if(odd, Some((false, d1))) == r);
            lemma_apply_flip(m, orb, odd, Some((false, d1)));
            lemma_amp_after_flip(a, orb, odd, apply_from(m, orb, Some((false, d1))), e);
        },
    }
}

pub(crate) proof fn lemma_pair_apply(x: SpecOp, y: SpecOp, orb: spec_fn(SpecIndex) -> int, d1: Set<int>)
    ensures
        apply_from(seq![x, y], orb, Some((false, d1))) == then_apply(
            x.kind,
            orb(x.index),
            apply_op(y.kind, orb(y.index), d1),
        ),
{
    let s = seq![x, y];
    let r = Some((false, d1));
    assert(s.drop_first() =~= seq![y]);
    assert(seq![y].drop_first() =~= Seq::<SpecOp>::empty());
    assert(apply_from(Seq::<SpecOp>::empty(), orb, r) == r);
    assert(apply_from(seq![y], orb, r) == then_apply(y.kind, orb(y.index), r));
    assert(apply_from(s, orb, r) == then_apply(x.kind, orb(x.index), apply_from(seq![y], orb, r)));
    match apply_op(y.kind, orb(y.index), d1) {
        None => {},
        Some((o2, d2)) => {
            assert(then_apply(y.kind, orb(y.index), Some((false, d1))) == Some((o2, d2)));
        },
    }
}

/// Exchanging two adjacent operators of one kind negates every coefficient.
pub proof fn lemma_same_kind_swap_amplitude(
    ops: Seq<SpecOp>,
    p: int,
    orb: spec_fn(SpecIndex) -> int,
    d: Set<int>,
    e: Set<int>,
)
    requires
        0 <= p < ops.len() - 1,
        ops[p].kind == ops[p + 1].kind,
        d.finite(),
    ensures
        amplitude(crate::rewrite::swap_at(ops, p), orb, d, e) == -amplitude(ops, orb, d, e),
{
    let a = ops.take(p);
    let b = ops.skip(p + 2);
    let x = ops[p];
    let y = ops[p + 1];
    assert(ops =~= a + seq![x, y] + b);
    assert(crate::rewrite::swap_at(ops, p) =~= a + seq![y, x] + b);
    lemma_split_amplitude(a, seq![x, y], b, orb, d, e);
    lemma_split_amplitude(a, seq![y, x], b, orb, d, e);
    lemma_apply_finite(b, orb, Some((false, d)));
    match apply_from(b, orb, Some((false, d))) {
        None => {},
        Some((odd, d1)) => {
            lemma_pair_apply(x, y, orb, d1);
            lemma_pair_apply(y, x, orb, d1);
            lemma_same_kind_pair(x.kind, orb(x.index), orb(y.index), d1);
            let xy = apply_from(seq![x, y], orb, Some((false, d1)));
            let yx = apply_from(seq![y, x], orb, Some((false, d1)));
            assert(xy == flip_if(true, yx));
            lemma_amp_after_flip(a, orb, true, yx, e);
        },
    }
}

/// Two equal adjacent operators give zero.
pub proof fn lemma_repeated_amplitude(
    ops: Seq<SpecOp>,
    p: int,
    orb: spec_fn(SpecIndex) -> int,
    d: Set<int>,
    e: Set<int>,
)
    requires
        0 <= p < ops.len() - 1,
        ops[p].kind == ops[p + 1].kind,
        ops[p].index == ops[p + 1].index,
        d.finite(),
    ensures
        amplitude(ops, orb, d, e) == 0,
{
    let a = ops.take(p);
    let b = ops.skip(p + 2);
    let x = ops[p];
    let y = ops[p + 1];
    assert(ops =~= a + seq![x, y] + b);
    lemma_split_amplitude(a, seq![x, y], b, orb, d, e);
    match apply_from(b, orb, Some((false, d))) {
        None => {},
        Some((odd, d1)) => {
            lemma_pair_apply(x, y, orb, d1);
            lemma_apply_none(a, orb);
        },
    }
}

/// An annihilator before a creator equals the delta of their orbitals times the string
/// without the pair, minus the string with the pair exchanged.
pub proof fn lemma_mixed_swap_amplitude(
    ops: Seq<SpecOp>,
    p: int,
    orb: spec_fn(SpecIndex) -> int,
    d: Set<int>,
    e: Set<int>,
)
    requires
        0 <= p < ops.len() - 1,
        ops[p].kind == FermionOpKind::Annihilate,
        ops[p + 1].kind == FermionOpKind::Create,
        d.finite(),
    ensures
        amplitude(ops, orb, d, e) == -amplitude(crate::rewrite::swap_at(ops, p), orb, d, e) + (if orb(
            ops[p].index,
        ) == orb(ops[p + 1].index) {
            amplitude(crate::rewrite::remove_pair(ops, p), orb, d, e)
        } else {
            0
        }),
{
    let a = ops.take(p);
    let b = ops.skip(p + 2);
    let x = ops[p];
    let y = ops[p + 1];
    let empty = Seq::<SpecOp>::empty();
    assert(ops =~= a + seq![x, y] + b);
    assert(crate::rewrite::swap_at(ops, p) =~= a + seq![y, x] + b);
    assert(crate::rewrite::remove_pair(ops, p) =~= a + empty + b);
    lemma_split_amplitude(a, seq![x, y], b, orb, d, e);
    lemma_split_amplitude(a, seq![y, x], b, orb, d, e);
    lemma_split_amplitude(a, empty, b, orb, d, e);
    lemma_apply_finite(b, orb, Some((false, d)));
    match apply_from(b, orb, Some((false, d))) {
        None => {},
        Some((odd, d1)) => {
            lemma_pair_apply(x, y, orb, d1);
            lemma_pair_apply(y, x, orb, d1);
            lemma_mixed_pair(orb(x.index), orb(y.index), d1);
            let xy = apply_from(seq![x, y], orb, Some((false, d1)));
            let yx = apply_from(seq![y, x], orb, Some((false, d1)));
            assert(apply_from(empty, orb, Some((false, d1))) == Some((false, d1)));
            lemma_apply_none(a, orb);
            if orb(x.index) != orb(y.index) {
                assert(xy == flip_if(true, yx));
                lemma_amp_after_flip(a, orb, true, yx, e);
            }
        },
    }
}

} // verus!
