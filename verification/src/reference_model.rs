//! Determinants of a CAS reference space — every core orbital filled, every virtual
//! orbital empty — and what operator strings give between them.
use vstd::prelude::*;

use crate::ast::{FermionOpKind, IndexSpace, SpecIndex, SpecOp};
use crate::constraints::{SpecDelta, spaces_contradict};
use crate::fock::{
    amplitude, apply_from, deltas_hold, flip_if, lemma_apply_concat, lemma_apply_finite,
    lemma_apply_flip, lemma_apply_none, lemma_below_remove, lemma_mixed_swap_amplitude,
    lemma_pair_apply, lemma_same_kind_swap_amplitude, term_amplitude, then_apply,
};
use crate::reference::{
    SpecSigned, SpecTensor, assemble, count_smaller, delta_factors, has_contradiction,
    in_reference_order, inversion_count, one_body_reduction, pair_in_reference_order,
    permutation_sign_of, positions_in, reduce_product, reduce_term, signed, touches_space,
    two_body_reduction,
};
use crate::rewrite::{SpecTerm, remove_pair, swap_at};

verus! {

broadcast use {vstd::set::group_set_axioms, vstd::set_lib::group_set_lib_default};

/// The assignment of orbitals to indices respects the spaces: a core index names a core
/// orbital, a virtual index a virtual one, an active index one that is neither; no
/// orbital is both core and virtual.
pub open spec fn fits_spaces(
    orb: spec_fn(SpecIndex) -> int,
    core: spec_fn(int) -> bool,
    virt: spec_fn(int) -> bool,
) -> bool {
    &&& forall|o: int| !(#[trigger] core(o) && virt(o))
    &&& forall|x: SpecIndex|
        #![trigger orb(x)]
        {
            &&& x.space == IndexSpace::Core ==> core(orb(x))
            &&& x.space == IndexSpace::Active ==> !core(orb(x)) && !virt(orb(x))
            &&& x.space == IndexSpace::Virtual ==> virt(orb(x))
        }
}

/// A determinant of the reference space: finitely many orbitals, every core orbital
/// among them and no virtual one.
pub open spec fn in_reference_space(d: Set<int>, core: spec_fn(int) -> bool, virt: spec_fn(int) -> bool) -> bool {
    &&& d.finite()
    &&& forall|o: int| core(o) ==> #[trigger] d.contains(o)
    &&& forall|o: int| virt(o) ==> !#[trigger] d.contains(o)
}

/// The core orbitals.
pub open spec fn core_orbitals(core: spec_fn(int) -> bool) -> Set<int> {
    Set::new(|o: int| core(o))
}

/// One for a core annihilator, minus one for a core creator, zero otherwise.
pub open spec fn op_balance(op: SpecOp, orb: spec_fn(SpecIndex) -> int, core: spec_fn(int) -> bool) -> int {
    if core(orb(op.index)) {
        if op.kind == FermionOpKind::Annihilate {
            1
        } else {
            -1
        }
    } else {
        0
    }
}

/// Core annihilators minus core creators: how many core orbitals a string empties.
pub open spec fn core_balance(ops: Seq<SpecOp>, orb: spec_fn(SpecIndex) -> int, core: spec_fn(int) -> bool) -> int
    decreases ops.len(),
{
    if ops.len() == 0 {
        0
    } else {
        op_balance(ops[0], orb, core) + core_balance(ops.drop_first(), orb, core)
    }
}

/// Each operator that does not vanish changes the number of empty core orbitals by one
/// if its orbital is core.
proof fn lemma_missing_core(
    ops: Seq<SpecOp>,
    orb: spec_fn(SpecIndex) -> int,
    core: spec_fn(int) -> bool,
    b: bool,
    d: Set<int>,
    b2: bool,
    d2: Set<int>,
)
    requires
        core_orbitals(core).finite(),
        d.finite(),
        apply_from(ops, orb, Some((b, d))) == Some((b2, d2)),
    ensures
        d2.finite(),
        core_orbitals(core).difference(d2).len() == core_orbitals(core).difference(d).len()
            + core_balance(ops, orb, core),
    decreases ops.len(),
{
    let k = core_orbitals(core);
    if ops.len() == 0 {
    } else {
        let r1 = apply_from(ops.drop_first(), orb, Some((b, d)));
        let o = orb(ops[0].index);
        match r1 {
            None => {},
            Some((b1, d1)) => {
                lemma_missing_core(ops.drop_first(), orb, core, b, d, b1, d1);
                let m1 = k.difference(d1);
                let m2 = k.difference(d2);
                if ops[0].kind == FermionOpKind::Annihilate {
                    assert(d2 == d1.remove(o));
                    if core(o) {
                        assert(m2 =~= m1.insert(o));
                    } else {
                        assert(m2 =~= m1);
                    }
                } else {
                    assert(d2 == d1.insert(o));
                    if core(o) {
                        assert(m2 =~= m1.remove(o));
                    } else {
                        assert(m2 =~= m1);
                    }
                }
            },
        }
    }
}

/// Between determinants of the reference space, a string that does not empty and fill
/// core orbitals equally often gives zero.
pub proof fn lemma_unbalanced_vanishes(
    ops: Seq<SpecOp>,
    orb: spec_fn(SpecIndex) -> int,
    core: spec_fn(int) -> bool,
    virt: spec_fn(int) -> bool,
    d: Set<int>,
    e: Set<int>,
)
    requires
        in_reference_space(d, core, virt),
        in_reference_space(e, core, virt),
        core_balance(ops, orb, core) != 0,
    ensures
        amplitude(ops, orb, d, e) == 0,
{
    let k = core_orbitals(core);
    assert(k.subset_of(d));
    assert(k.difference(d) =~= Set::empty());
    match apply_from(ops, orb, Some((false, d))) {
        None => {},
        Some((b2, d2)) => {
            lemma_missing_core(ops, orb, core, false, d, b2, d2);
            if d2 == e {
                assert(k.difference(e) =~= Set::empty());
            }
        },
    }
}

/// In reference order every creator stands before every annihilator.
pub proof fn lemma_creators_first(ops: Seq<SpecOp>, i: int, j: int)
    requires
        in_reference_order(ops),
        0 <= i <= j < ops.len(),
        ops[j].kind == FermionOpKind::Create,
    ensures
        ops[i].kind == FermionOpKind::Create,
    decreases j - i,
{
    if i < j {
        lemma_creators_first(ops, i + 1, j);
        assert(pair_in_reference_order(ops[i], ops[i + 1]));
    }
}

/// Annihilators only ever empty orbitals.
proof fn lemma_annihilators_shrink(ops: Seq<SpecOp>, orb: spec_fn(SpecIndex) -> int, b: bool, d: Set<int>)
    requires
        forall|j: int| 0 <= j < ops.len() ==> #[trigger] ops[j].kind == FermionOpKind::Annihilate,
    ensures
        match apply_from(ops, orb, Some((b, d))) {
            None => true,
            Some((_, d2)) => d2.subset_of(d),
        },
    decreases ops.len(),
{
    if ops.len() > 0 {
        assert(ops[0].kind == FermionOpKind::Annihilate);
        assert forall|j: int| 0 <= j < ops.drop_first().len() implies #[trigger] ops.drop_first()[j].kind
            == FermionOpKind::Annihilate by {
            assert(ops.drop_first()[j] == ops[j + 1]);
        }
        lemma_annihilators_shrink(ops.drop_first(), orb, b, d);
    }
}

/// Creators only ever fill orbitals.
proof fn lemma_creators_grow(ops: Seq<SpecOp>, orb: spec_fn(SpecIndex) -> int, b: bool, d: Set<int>)
    requires
        forall|j: int| 0 <= j < ops.len() ==> #[trigger] ops[j].kind == FermionOpKind::Create,
    ensures
        match apply_from(ops, orb, Some((b, d))) {
            None => true,
            Some((_, d2)) => d.subset_of(d2),
        },
    decreases ops.len(),
{
    if ops.len() > 0 {
        assert(ops[0].kind == FermionOpKind::Create);
        assert forall|j: int| 0 <= j < ops.drop_first().len() implies #[trigger] ops.drop_first()[j].kind
            == FermionOpKind::Create by {
            assert(ops.drop_first()[j] == ops[j + 1]);
        }
        lemma_creators_grow(ops.drop_first(), orb, b, d);
    }
}

/// Between determinants of the reference space, a string in reference order with a
/// virtual index gives zero: a virtual annihilator finds its orbital empty, and what a
/// virtual creator fills stays filled.
pub proof fn lemma_virtual_vanishes(
    ops: Seq<SpecOp>,
    orb: spec_fn(SpecIndex) -> int,
    core: spec_fn(int) -> bool,
    virt: spec_fn(int) -> bool,
    d: Set<int>,
    e: Set<int>,
)
    requires
        in_reference_order(ops),
        touches_space(ops, IndexSpace::Virtual),
        fits_spaces(orb, core, virt),
        in_reference_space(d, core, virt),
        in_reference_space(e, core, virt),
    ensures
        amplitude(ops, orb, d, e) == 0,
{
    let k = choose|k: int| 0 <= k < ops.len() && #[trigger] ops[k].index.space == IndexSpace::Virtual;
    let v = orb(ops[k].index);
    assert(virt(v));
    let head = ops.take(k);
    let mid = seq![ops[k]];
    let tail = ops.skip(k + 1);
    assert(ops =~= head + (mid + tail));
    lemma_apply_concat(head, mid + tail, orb, Some((false, d)));
    lemma_apply_concat(mid, tail, orb, Some((false, d)));
    let r1 = apply_from(tail, orb, Some((false, d)));
    assert(mid.drop_first() =~= Seq::<SpecOp>::empty());
    assert(apply_from(Seq::<SpecOp>::empty(), orb, r1) == r1);
    assert(mid[0] == ops[k]);
    assert(apply_from(mid, orb, r1) == then_apply(ops[k].kind, v, r1));
    let r2 = then_apply(ops[k].kind, v, r1);
    if ops[k].kind == FermionOpKind::Annihilate {
        assert forall|j: int| 0 <= j < tail.len() implies #[trigger] tail[j].kind
            == FermionOpKind::Annihilate by {
            assert(tail[j] == ops[k + 1 + j]);
            if ops[k + 1 + j].kind == FermionOpKind::Create {
                lemma_creators_first(ops, k, k + 1 + j);
            }
        }
        lemma_annihilators_shrink(tail, orb, false, d);
        assert(r2 is None);
        lemma_apply_none(head, orb);
    } else {
        assert forall|j: int| 0 <= j < head.len() implies #[trigger] head[j].kind == FermionOpKind::Create by {
            lemma_creators_first(ops, j, k);
        }
        match r2 {
            None => {
                lemma_apply_none(head, orb);
            },
            Some((b2, d2)) => {
                assert(d2.contains(v));
                lemma_creators_grow(head, orb, b2, d2);
                match apply_from(head, orb, r2) {
                    None => {},
                    Some((_, d3)) => {
                        assert(d3.contains(v));
                    },
                }
            },
        }
    }
}

/// A creator of `x` directly before an annihilator of `y`, both core, on a determinant
/// with every core orbital filled: the determinant back with its sign when they name one
/// orbital, zero otherwise.
pub proof fn lemma_core_pair_apply(
    x: SpecOp,
    y: SpecOp,
    orb: spec_fn(SpecIndex) -> int,
    core: spec_fn(int) -> bool,
    b: bool,
    d1: Set<int>,
)
    requires
        x.kind == FermionOpKind::Create,
        y.kind == FermionOpKind::Annihilate,
        core(orb(x.index)),
        core(orb(y.index)),
        d1.finite(),
        forall|o: int| core(o) ==> #[trigger] d1.contains(o),
    ensures
        apply_from(seq![x, y], orb, Some((b, d1))) == if orb(x.index) == orb(y.index) {
            Some((b, d1))
        } else {
            None
        },
{
    let i = orb(x.index);
    let j = orb(y.index);
    lemma_pair_apply(x, y, orb, d1);
    lemma_apply_flip(seq![x, y], orb, b, Some((false, d1)));
    assert(flip_if(b, Some((false, d1))) == Some((b, d1)));
    assert(d1.contains(j));
    if i == j {
        lemma_below_remove(d1, j, j);
        assert(d1.remove(j).insert(j) =~= d1);
    } else {
        assert(d1.contains(i));
        assert(d1.remove(j).contains(i));
    }
}

/// Operators on non-core orbitals leave every core orbital as it was.
pub proof fn lemma_noncore_keeps_core(
    ops: Seq<SpecOp>,
    orb: spec_fn(SpecIndex) -> int,
    core: spec_fn(int) -> bool,
    b: bool,
    d: Set<int>,
)
    requires
        forall|j: int| 0 <= j < ops.len() ==> !core(orb(#[trigger] ops[j].index)),
    ensures
        match apply_from(ops, orb, Some((b, d))) {
            None => true,
            Some((_, d2)) => forall|o: int| core(o) ==> (#[trigger] d2.contains(o) == d.contains(o)),
        },
    decreases ops.len(),
{
    if ops.len() > 0 {
        assert(!core(orb(ops[0].index)));
        assert forall|j: int| 0 <= j < ops.drop_first().len() implies !core(
            orb(#[trigger] ops.drop_first()[j].index),
        ) by {
            assert(ops.drop_first()[j] == ops[j + 1]);
        }
        lemma_noncore_keeps_core(ops.drop_first(), orb, core, b, d);
    }
}

/// Exchanging two adjacent operators of one kind, or on different orbitals, negates
/// every coefficient.
pub proof fn lemma_swap_amplitude(
    ops: Seq<SpecOp>,
    p: int,
    orb: spec_fn(SpecIndex) -> int,
    d: Set<int>,
    e: Set<int>,
)
    requires
        0 <= p < ops.len() - 1,
        ops[p].kind == ops[p + 1].kind || orb(ops[p].index) != orb(ops[p + 1].index),
        d.finite(),
    ensures
        amplitude(swap_at(ops, p), orb, d, e) == -amplitude(ops, orb, d, e),
{
    if ops[p].kind == ops[p + 1].kind {
        lemma_same_kind_swap_amplitude(ops, p, orb, d, e);
    } else if ops[p].kind == FermionOpKind::Annihilate {
        lemma_mixed_swap_amplitude(ops, p, orb, d, e);
    } else {
        let t = swap_at(ops, p);
        assert(swap_at(t, p) =~= ops);
        lemma_mixed_swap_amplitude(t, p, orb, d, e);
    }
}

/// A creator directly before an annihilator: the delta of their orbitals times the
/// string without the pair, minus the string with the pair exchanged.
pub proof fn lemma_create_annihilate_amplitude(
    ops: Seq<SpecOp>,
    p: int,
    orb: spec_fn(SpecIndex) -> int,
    d: Set<int>,
    e: Set<int>,
)
    requires
        0 <= p < ops.len() - 1,
        ops[p].kind == FermionOpKind::Create,
        ops[p + 1].kind == FermionOpKind::Annihilate,
        d.finite(),
    ensures
        amplitude(ops, orb, d, e) == -amplitude(swap_at(ops, p), orb, d, e) + (if orb(ops[p].index)
            == orb(ops[p + 1].index) {
            amplitude(remove_pair(ops, p), orb, d, e)
        } else {
            0
        }),
{
    let t = swap_at(ops, p);
    assert(swap_at(t, p) =~= ops);
    assert(remove_pair(t, p) =~= remove_pair(ops, p));
    lemma_mixed_swap_amplitude(t, p, orb, d, e);
}

// ---------------------------------------------------------------------------
// Reduced tensors read between determinants
// ---------------------------------------------------------------------------
/// The number part of a tensor read as an operator: a delta is one where its indices
/// name the same orbital and zero elsewhere; a product multiplies its factors' parts;
/// zero is zero; a density matrix or unresolved structure is one; a sum, which reduction
/// never nests in another tensor, is zero.
pub open spec fn tensor_scalar(t: SpecTensor, orb: spec_fn(SpecIndex) -> int) -> int
    decreases t, 0nat,
{
    match t {
        SpecTensor::Zero => 0,
        SpecTensor::Delta(l, r) => if orb(l) == orb(r) {
            1
        } else {
            0
        },
        SpecTensor::Product(fs) => factors_scalar(fs, orb, fs.len()),
        SpecTensor::Sum(_) => 0,
        _ => 1,
    }
}

/// The number parts of the first `n` factors multiplied.
pub open spec fn factors_scalar(fs: Seq<SpecTensor>, orb: spec_fn(SpecIndex) -> int, n: nat) -> int
    decreases fs, n,
{
    if n == 0 || n > fs.len() {
        1
    } else {
        factors_scalar(fs, orb, (n - 1) as nat) * tensor_scalar(fs[n - 1], orb)
    }
}

/// The operator part of a tensor: a one-body density matrix `gamma(p, q)` stands for
/// `a†(p) a(q)`, a two-body one for `a†(p) a†(q) a(r) a(s)`, unresolved structure for
/// its string, a product for its factors' strings in turn, anything else for no
/// operator.
pub open spec fn tensor_string(t: SpecTensor) -> Seq<SpecOp>
    decreases t, 0nat,
{
    match t {
        SpecTensor::Gamma(l, r) => seq![
            SpecOp { kind: FermionOpKind::Create, index: l },
            SpecOp { kind: FermionOpKind::Annihilate, index: r },
        ],
        SpecTensor::Gamma2(p, q, r, s) => seq![
            SpecOp { kind: FermionOpKind::Create, index: p },
            SpecOp { kind: FermionOpKind::Create, index: q },
            SpecOp { kind: FermionOpKind::Annihilate, index: r },
            SpecOp { kind: FermionOpKind::Annihilate, index: s },
        ],
        SpecTensor::HigherRdm { product, .. } => product,
        SpecTensor::Product(fs) => factors_string(fs, fs.len()),
        _ => Seq::empty(),
    }
}

/// The operator parts of the first `n` factors, in order.
pub open spec fn factors_string(fs: Seq<SpecTensor>, n: nat) -> Seq<SpecOp>
    decreases fs, n,
{
    if n == 0 || n > fs.len() {
        Seq::empty()
    } else {
        factors_string(fs, (n - 1) as nat) + tensor_string(fs[n - 1])
    }
}

/// A tensor other than a sum between determinant `d` and determinant `e`: its number
/// part times the coefficient of `e` in its operator part applied to `d`.
pub open spec fn term_value(t: SpecTensor, orb: spec_fn(SpecIndex) -> int, d: Set<int>, e: Set<int>) -> int {
    tensor_scalar(t, orb) * amplitude(tensor_string(t), orb, d, e)
}

/// A list of signed tensors between `d` and `e`: each value times its coefficient,
/// added up.
pub open spec fn signed_value(terms: Seq<SpecSigned>, orb: spec_fn(SpecIndex) -> int, d: Set<int>, e: Set<int>) -> int
    decreases terms.len(),
{
    if terms.len() == 0 {
        0
    } else {
        signed_value(terms.drop_last(), orb, d, e) + terms.last().coefficient * term_value(
            terms.last().term,
            orb,
            d,
            e,
        )
    }
}

/// A tensor between determinant `d` and determinant `e`, read as the operator it stands
/// for: a sum term by term, anything else as its number part times its operator part.
pub open spec fn tensor_value(t: SpecTensor, orb: spec_fn(SpecIndex) -> int, d: Set<int>, e: Set<int>) -> int {
    match t {
        SpecTensor::Sum(terms) => signed_value(terms, orb, d, e),
        _ => term_value(t, orb, d, e),
    }
}

// ---------------------------------------------------------------------------
// Reduction of one string, read between determinants of the reference space
// ---------------------------------------------------------------------------
proof fn lemma_signed_value_one(x: SpecSigned, orb: spec_fn(SpecIndex) -> int, d: Set<int>, e: Set<int>)
    ensures
        signed_value(seq![x], orb, d, e) == x.coefficient * term_value(x.term, orb, d, e),
{
    assert(seq![x].drop_last() =~= Seq::<SpecSigned>::empty());
    assert(seq![x].last() == x);
    assert(signed_value(Seq::<SpecSigned>::empty(), orb, d, e) == 0);
}

proof fn lemma_signed_value_two(
    x: SpecSigned,
    y: SpecSigned,
    orb: spec_fn(SpecIndex) -> int,
    d: Set<int>,
    e: Set<int>,
)
    ensures
        signed_value(seq![x, y], orb, d, e) == x.coefficient * term_value(x.term, orb, d, e)
            + y.coefficient * term_value(y.term, orb, d, e),
{
    assert(seq![x, y].drop_last() =~= seq![x]);
    assert(seq![x, y].last() == y);
    lemma_signed_value_one(x, orb, d, e);
}

/// A core creator directly before a core annihilator, in front of a string `rest` that
/// leaves every core orbital filled: the delta of their orbitals times `rest`.
proof fn lemma_core_pair_front(
    x: SpecOp,
    y: SpecOp,
    rest: Seq<SpecOp>,
    orb: spec_fn(SpecIndex) -> int,
    core: spec_fn(int) -> bool,
    d: Set<int>,
    e: Set<int>,
)
    requires
        x.kind == FermionOpKind::Create,
        y.kind == FermionOpKind::Annihilate,
        core(orb(x.index)),
        core(orb(y.index)),
        match apply_from(rest, orb, Some((false, d))) {
            None => true,
            Some((_, d2)) => d2.finite() && forall|o: int| core(o) ==> #[trigger] d2.contains(o),
        },
    ensures
        amplitude(seq![x, y] + rest, orb, d, e) == if orb(x.index) == orb(y.index) {
            amplitude(rest, orb, d, e)
        } else {
            0
        },
{
    lemma_apply_concat(seq![x, y], rest, orb, Some((false, d)));
    match apply_from(rest, orb, Some((false, d))) {
        None => {
            lemma_apply_none(seq![x, y], orb);
        },
        Some((b2, d2)) => {
            lemma_core_pair_apply(x, y, orb, core, b2, d2);
        },
    }
}

/// A core creator directly before a core annihilator, in front of a string `rest` that
/// touches no core orbital: the delta of their orbitals times `rest`.
proof fn lemma_core_pair_before(
    x: SpecOp,
    y: SpecOp,
    rest: Seq<SpecOp>,
    orb: spec_fn(SpecIndex) -> int,
    core: spec_fn(int) -> bool,
    virt: spec_fn(int) -> bool,
    d: Set<int>,
    e: Set<int>,
)
    requires
        x.kind == FermionOpKind::Create,
        y.kind == FermionOpKind::Annihilate,
        core(orb(x.index)),
        core(orb(y.index)),
        forall|j: int| 0 <= j < rest.len() ==> !core(orb(#[trigger] rest[j].index)),
        in_reference_space(d, core, virt),
    ensures
        amplitude(seq![x, y] + rest, orb, d, e) == if orb(x.index) == orb(y.index) {
            amplitude(rest, orb, d, e)
        } else {
            0
        },
{
    lemma_noncore_keeps_core(rest, orb, core, false, d);
    lemma_apply_finite(rest, orb, Some((false, d)));
    match apply_from(rest, orb, Some((false, d))) {
        None => {},
        Some((b2, d2)) => {
            assert forall|o: int| core(o) implies #[trigger] d2.contains(o) by {
                assert(d.contains(o));
            }
        },
    }
    lemma_core_pair_front(x, y, rest, orb, core, d, e);
}

/// Both indices of a one-body string in a fixed space other than virtual: core or
/// active.
proof fn lemma_one_body_value(
    s: Seq<SpecOp>,
    orb: spec_fn(SpecIndex) -> int,
    core: spec_fn(int) -> bool,
    virt: spec_fn(int) -> bool,
    d: Set<int>,
    e: Set<int>,
)
    requires
        s.len() == 2,
        !touches_space(s, IndexSpace::Virtual),
        one_body_reduction(s) is Ok,
        fits_spaces(orb, core, virt),
        in_reference_space(d, core, virt),
        in_reference_space(e, core, virt),
    ensures
        signed_value(one_body_reduction(s)->Ok_0, orb, d, e) == amplitude(s, orb, d, e),
{
    let l = s[0].index;
    let r = s[1].index;
    let ol = orb(l);
    let or = orb(r);
    assert(s =~= seq![s[0], s[1]]);
    assert(s[0].index.space != IndexSpace::Virtual);
    assert(s[1].index.space != IndexSpace::Virtual);
    let res = one_body_reduction(s)->Ok_0;
    if l.space == IndexSpace::Core && r.space == IndexSpace::Core {
        lemma_signed_value_one(signed(1, SpecTensor::Delta(l, r)), orb, d, e);
        assert(res == seq![signed(1, SpecTensor::Delta(l, r))]);
        assert(tensor_string(SpecTensor::Delta(l, r)) == Seq::<SpecOp>::empty());
        assert(seq![s[0], s[1]] + Seq::<SpecOp>::empty() =~= s);
        lemma_core_pair_before(s[0], s[1], Seq::empty(), orb, core, virt, d, e);
        let a0 = amplitude(Seq::<SpecOp>::empty(), orb, d, e);
        if ol == or {
            assert(term_value(SpecTensor::Delta(l, r), orb, d, e) == a0);
        } else {
            assert(term_value(SpecTensor::Delta(l, r), orb, d, e) == 0);
        }
    } else if l.space == IndexSpace::Active && r.space == IndexSpace::Active {
        lemma_signed_value_one(signed(1, SpecTensor::Gamma(l, r)), orb, d, e);
        assert(res == seq![signed(1, SpecTensor::Gamma(l, r))]);
        assert(tensor_string(SpecTensor::Gamma(l, r)) =~= s);
    } else {
        assert(res.len() == 0);
        assert(s[0].kind == FermionOpKind::Create && s[1].kind == FermionOpKind::Annihilate);
        assert(l.space != IndexSpace::General && r.space != IndexSpace::General);
        assert(s.drop_first().drop_first() =~= Seq::<SpecOp>::empty());
        assert(s.drop_first()[0] == s[1]);
        assert(core_balance(s.drop_first().drop_first(), orb, core) == 0);
        let bl: int = if core(ol) { -1 } else { 0 };
        let br: int = if core(or) { 1 } else { 0 };
        assert(core_balance(s.drop_first(), orb, core) == br);
        assert(core_balance(s, orb, core) == bl + br);
        assert(core(ol) != core(or));
        assert(core_balance(s, orb, core) != 0);
        lemma_unbalanced_vanishes(s, orb, core, virt, d, e);
    }
}

proof fn lemma_product_two(f: SpecTensor, g: SpecTensor, orb: spec_fn(SpecIndex) -> int)
    ensures
        tensor_scalar(SpecTensor::Product(seq![f, g]), orb) == tensor_scalar(f, orb) * tensor_scalar(g, orb),
        tensor_string(SpecTensor::Product(seq![f, g])) == tensor_string(f) + tensor_string(g),
{
    let fs = seq![f, g];
    assert(factors_scalar(fs, orb, 0) == 1);
    assert(factors_scalar(fs, orb, 1) == tensor_scalar(f, orb));
    assert(factors_scalar(fs, orb, 2) == factors_scalar(fs, orb, 1) * tensor_scalar(g, orb));
    assert(factors_string(fs, 0) == Seq::<SpecOp>::empty());
    assert(factors_string(fs, 1) =~= tensor_string(f));
    assert(factors_string(fs, 2) == factors_string(fs, 1) + tensor_string(g));
}

proof fn lemma_positions_pair(s: Seq<SpecOp>, lo: int, sp: IndexSpace)
    requires
        0 <= lo,
        lo + 2 <= s.len(),
    ensures
        positions_in(s, lo, lo + 2, sp) == (if s[lo].index.space == sp {
            seq![lo]
        } else {
            Seq::<int>::empty()
        }) + (if s[lo + 1].index.space == sp {
            seq![lo + 1]
        } else {
            Seq::<int>::empty()
        }),
{
    assert(positions_in(s, lo + 2, lo + 2, sp) == Seq::<int>::empty());
    if s[lo + 1].index.space == sp {
        assert(positions_in(s, lo + 1, lo + 2, sp) =~= seq![lo + 1]);
    } else {
        assert(positions_in(s, lo + 1, lo + 2, sp) =~= Seq::<int>::empty());
    }
    if s[lo].index.space == sp {
        assert(positions_in(s, lo, lo + 2, sp) == seq![lo] + positions_in(s, lo + 1, lo + 2, sp));
    }
}

spec fn above(x: int, y: int) -> nat {
    if x > y {
        1
    } else {
        0
    }
}

proof fn lemma_inversions_four(a: int, b: int, c: int, x: int)
    ensures
        inversion_count(seq![a, b, c, x]) == above(a, b) + above(a, c) + above(a, x) + above(b, c)
            + above(b, x) + above(c, x),
{
    let s3 = seq![b, c, x];
    let s2 = seq![c, x];
    let s1 = seq![x];
    let s0 = Seq::<int>::empty();
    assert(seq![a, b, c, x].drop_first() =~= s3);
    assert(s3.drop_first() =~= s2);
    assert(s2.drop_first() =~= s1);
    assert(s1.drop_first() =~= s0);
    assert(count_smaller(a, s0) == 0 && count_smaller(b, s0) == 0 && count_smaller(c, s0) == 0);
    assert(count_smaller(c, s1) == above(c, x));
    assert(count_smaller(b, s1) == above(b, x));
    assert(count_smaller(a, s1) == above(a, x));
    assert(count_smaller(b, s2) == above(b, c) + above(b, x));
    assert(count_smaller(a, s2) == above(a, c) + above(a, x));
    assert(count_smaller(a, s3) == above(a, b) + above(a, c) + above(a, x));
    assert(inversion_count(s0) == 0);
    assert(inversion_count(s1) == 0);
    assert(inversion_count(s2) == above(c, x));
    assert(inversion_count(s3) == above(b, c) + above(b, x) + above(c, x));
}

proof fn lemma_balance_four(s: Seq<SpecOp>, orb: spec_fn(SpecIndex) -> int, core: spec_fn(int) -> bool)
    requires
        s.len() == 4,
    ensures
        core_balance(s, orb, core) == op_balance(s[0], orb, core) + op_balance(s[1], orb, core)
            + op_balance(s[2], orb, core) + op_balance(s[3], orb, core),
{
    let s3 = s.drop_first();
    let s2 = s3.drop_first();
    let s1 = s2.drop_first();
    assert(s1.drop_first() =~= Seq::<SpecOp>::empty());
    assert(s3[0] == s[1] && s2[0] == s[2] && s1[0] == s[3]);
    assert(core_balance(s1.drop_first(), orb, core) == 0);
    assert(core_balance(s1, orb, core) == op_balance(s[3], orb, core));
    assert(core_balance(s2, orb, core) == op_balance(s[2], orb, core) + op_balance(s[3], orb, core));
    assert(core_balance(s3, orb, core) == op_balance(s[1], orb, core) + op_balance(s[2], orb, core)
        + op_balance(s[3], orb, core));
}

/// Four core operators `a†(p) a†(q) a(r) a(s)` between determinants of the reference
/// space: `delta(p, s) delta(q, r) - delta(p, r) delta(q, s)` times the overlap.
proof fn lemma_core_two_body(
    s: Seq<SpecOp>,
    orb: spec_fn(SpecIndex) -> int,
    core: spec_fn(int) -> bool,
    virt: spec_fn(int) -> bool,
    d: Set<int>,
    e: Set<int>,
)
    requires
        s.len() == 4,
        s[0].kind == FermionOpKind::Create,
        s[1].kind == FermionOpKind::Create,
        s[2].kind == FermionOpKind::Annihilate,
        s[3].kind == FermionOpKind::Annihilate,
        forall|j: int| 0 <= j < 4 ==> core(orb(#[trigger] s[j].index)),
        in_reference_space(d, core, virt),
    ensures
        amplitude(s, orb, d, e) == (if orb(s[0].index) == orb(s[3].index) && orb(s[1].index) == orb(
            s[2].index,
        ) {
            amplitude(Seq::<SpecOp>::empty(), orb, d, e)
        } else {
            0
        }) - (if orb(s[0].index) == orb(s[2].index) && orb(s[1].index) == orb(s[3].index) {
            amplitude(Seq::<SpecOp>::empty(), orb, d, e)
        } else {
            0
        }),
{
    let x0 = s[0];
    let x1 = s[1];
    let x2 = s[2];
    let x3 = s[3];
    assert(core(orb(x0.index)) && core(orb(x1.index)) && core(orb(x2.index)) && core(orb(x3.index)));
    let empty = Seq::<SpecOp>::empty();
    lemma_create_annihilate_amplitude(s, 1, orb, d, e);
    assert(remove_pair(s, 1) =~= seq![x0, x3] + empty);
    lemma_core_pair_before(x0, x3, empty, orb, core, virt, d, e);
    assert(swap_at(s, 1) =~= seq![x0, x2] + seq![x1, x3]);
    assert(seq![x1, x3] + empty =~= seq![x1, x3]);
    lemma_core_pair_before(x1, x3, empty, orb, core, virt, d, e);
    lemma_core_pair_apply(x1, x3, orb, core, false, d);
    lemma_core_pair_front(x0, x2, seq![x1, x3], orb, core, d, e);
}

/// A core pair in front of two operators on non-core orbitals.
proof fn lemma_core_pair_then(
    x: SpecOp,
    y: SpecOp,
    u: SpecOp,
    v: SpecOp,
    orb: spec_fn(SpecIndex) -> int,
    core: spec_fn(int) -> bool,
    virt: spec_fn(int) -> bool,
    d: Set<int>,
    e: Set<int>,
)
    requires
        x.kind == FermionOpKind::Create,
        y.kind == FermionOpKind::Annihilate,
        core(orb(x.index)),
        core(orb(y.index)),
        !core(orb(u.index)),
        !core(orb(v.index)),
        in_reference_space(d, core, virt),
    ensures
        amplitude(seq![x, y, u, v], orb, d, e) == if orb(x.index) == orb(y.index) {
            amplitude(seq![u, v], orb, d, e)
        } else {
            0
        },
{
    let rest = seq![u, v];
    assert forall|j: int| 0 <= j < rest.len() implies !core(orb(#[trigger] rest[j].index)) by {
        if j == 0 {
            assert(rest[j] == u);
        } else {
            assert(rest[j] == v);
        }
    }
    assert(seq![x, y] + rest =~= seq![x, y, u, v]);
    lemma_core_pair_before(x, y, rest, orb, core, virt, d, e);
}

/// The mixed two-body reduction: one core and one active index among the creators and
/// among the annihilators; moving the core pair to the front gives the sign.
proof fn lemma_mixed_two_body(
    s: Seq<SpecOp>,
    orb: spec_fn(SpecIndex) -> int,
    core: spec_fn(int) -> bool,
    virt: spec_fn(int) -> bool,
    d: Set<int>,
    e: Set<int>,
    ci: int,
    cj: int,
    ai: int,
    aj: int,
)
    requires
        s.len() == 4,
        s[0].kind == FermionOpKind::Create,
        s[1].kind == FermionOpKind::Create,
        s[2].kind == FermionOpKind::Annihilate,
        s[3].kind == FermionOpKind::Annihilate,
        0 <= ci < 2 && ai == 1 - ci,
        2 <= cj < 4 && aj == 5 - cj,
        core(orb(s[ci].index)),
        core(orb(s[cj].index)),
        !core(orb(s[ai].index)),
        !core(orb(s[aj].index)),
        in_reference_space(d, core, virt),
    ensures
        amplitude(s, orb, d, e) == permutation_sign_of(seq![ci, cj, ai, aj]) * (if orb(s[ci].index)
            == orb(s[cj].index) {
            amplitude(seq![s[ai], s[aj]], orb, d, e)
        } else {
            0
        }),
{
    let x0 = s[0];
    let x1 = s[1];
    let x2 = s[2];
    let x3 = s[3];
    lemma_inversions_four(ci, cj, ai, aj);
    if ci == 0 && cj == 3 {
        let t1 = swap_at(s, 2);
        lemma_swap_amplitude(s, 2, orb, d, e);
        assert(t1[1] == x1 && t1[2] == x3);
        lemma_swap_amplitude(t1, 1, orb, d, e);
        assert(swap_at(t1, 1) =~= seq![x0, x3, x1, x2]);
        lemma_core_pair_then(x0, x3, x1, x2, orb, core, virt, d, e);
    } else if ci == 0 && cj == 2 {
        lemma_swap_amplitude(s, 1, orb, d, e);
        assert(swap_at(s, 1) =~= seq![x0, x2, x1, x3]);
        lemma_core_pair_then(x0, x2, x1, x3, orb, core, virt, d, e);
    } else if ci == 1 && cj == 3 {
        let t1 = swap_at(s, 0);
        lemma_swap_amplitude(s, 0, orb, d, e);
        let t2 = swap_at(t1, 2);
        assert(t1[2] == x2 && t1[3] == x3);
        lemma_swap_amplitude(t1, 2, orb, d, e);
        assert(t2[1] == x0 && t2[2] == x3);
        lemma_swap_amplitude(t2, 1, orb, d, e);
        assert(swap_at(t2, 1) =~= seq![x1, x3, x0, x2]);
        lemma_core_pair_then(x1, x3, x0, x2, orb, core, virt, d, e);
    } else {
        let t1 = swap_at(s, 0);
        lemma_swap_amplitude(s, 0, orb, d, e);
        assert(t1[1] == x0 && t1[2] == x2);
        lemma_swap_amplitude(t1, 1, orb, d, e);
        assert(swap_at(t1, 1) =~= seq![x1, x2, x0, x3]);
        lemma_core_pair_then(x1, x2, x0, x3, orb, core, virt, d, e);
    }
}

/// The two-body rule read between determinants of the reference space.
proof fn lemma_two_body_value(
    s: Seq<SpecOp>,
    orb: spec_fn(SpecIndex) -> int,
    core: spec_fn(int) -> bool,
    virt: spec_fn(int) -> bool,
    d: Set<int>,
    e: Set<int>,
)
    requires
        s.len() == 4,
        !touches_space(s, IndexSpace::Virtual),
        two_body_reduction(s) is Ok,
        fits_spaces(orb, core, virt),
        in_reference_space(d, core, virt),
        in_reference_space(e, core, virt),
    ensures
        signed_value(two_body_reduction(s)->Ok_0, orb, d, e) == amplitude(s, orb, d, e),
{
    let x0 = s[0];
    let x1 = s[1];
    let x2 = s[2];
    let x3 = s[3];
    assert(x0.kind == FermionOpKind::Create && x1.kind == FermionOpKind::Create
        && x2.kind == FermionOpKind::Annihilate && x3.kind == FermionOpKind::Annihilate);
    assert(!touches_space(s, IndexSpace::General));
    assert forall|j: int| 0 <= j < 4 implies (s[j].index.space == IndexSpace::Core) == core(
        orb(s[j].index),
    ) by {
        assert(s[j].index.space != IndexSpace::Virtual);
        assert(s[j].index.space != IndexSpace::General);
        assert(orb(s[j].index) == orb(s[j].index));
    }
    let c0 = x0.index.space == IndexSpace::Core;
    let c1 = x1.index.space == IndexSpace::Core;
    let c2 = x2.index.space == IndexSpace::Core;
    let c3 = x3.index.space == IndexSpace::Core;
    assert(c0 == core(orb(x0.index)) && c1 == core(orb(x1.index)) && c2 == core(orb(x2.index))
        && c3 == core(orb(x3.index)));
    assert(x0.index.space != IndexSpace::Virtual && x0.index.space != IndexSpace::General);
    assert(x1.index.space != IndexSpace::Virtual && x1.index.space != IndexSpace::General);
    assert(x2.index.space != IndexSpace::Virtual && x2.index.space != IndexSpace::General);
    assert(x3.index.space != IndexSpace::Virtual && x3.index.space != IndexSpace::General);
    lemma_positions_pair(s, 0, IndexSpace::Core);
    lemma_positions_pair(s, 2, IndexSpace::Core);
    lemma_positions_pair(s, 0, IndexSpace::Active);
    lemma_positions_pair(s, 2, IndexSpace::Active);
    let cc = positions_in(s, 0, 2, IndexSpace::Core);
    let ca = positions_in(s, 2, 4, IndexSpace::Core);
    let ac = positions_in(s, 0, 2, IndexSpace::Active);
    let aa = positions_in(s, 2, 4, IndexSpace::Active);
    let res = two_body_reduction(s)->Ok_0;
    let id = amplitude(Seq::<SpecOp>::empty(), orb, d, e);
    if ac.len() == 2 && aa.len() == 2 {
        let g = SpecTensor::Gamma2(x0.index, x1.index, x2.index, x3.index);
        assert(res == seq![signed(1, g)]);
        lemma_signed_value_one(signed(1, g), orb, d, e);
        assert(tensor_string(g) =~= s);
        assert(tensor_scalar(g, orb) == 1);
    } else if cc.len() == 2 && ca.len() == 2 {
        assert(c0 && c1 && c2 && c3);
        let f03 = SpecTensor::Delta(x0.index, x3.index);
        let f12 = SpecTensor::Delta(x1.index, x2.index);
        let f02 = SpecTensor::Delta(x0.index, x2.index);
        let f13 = SpecTensor::Delta(x1.index, x3.index);
        let p1 = SpecTensor::Product(seq![f03, f12]);
        let p2 = SpecTensor::Product(seq![f02, f13]);
        assert(res == seq![signed(1, p1), signed(-1, p2)]);
        lemma_signed_value_two(signed(1, p1), signed(-1, p2), orb, d, e);
        lemma_product_two(f03, f12, orb);
        lemma_product_two(f02, f13, orb);
        assert(tensor_string(p1) =~= Seq::<SpecOp>::empty());
        assert(tensor_string(p2) =~= Seq::<SpecOp>::empty());
        assert forall|j: int| 0 <= j < 4 implies core(orb(#[trigger] s[j].index)) by {
            assert(s[j].index.space == IndexSpace::Core);
        }
        lemma_core_two_body(s, orb, core, virt, d, e);
        let v1 = term_value(p1, orb, d, e);
        let v2 = term_value(p2, orb, d, e);
        if orb(x0.index) == orb(x3.index) && orb(x1.index) == orb(x2.index) {
            assert(v1 == id);
        } else {
            assert(tensor_scalar(p1, orb) == 0);
            assert(v1 == 0);
        }
        if orb(x0.index) == orb(x2.index) && orb(x1.index) == orb(x3.index) {
            assert(v2 == id);
        } else {
            assert(tensor_scalar(p2, orb) == 0);
            assert(v2 == 0);
        }
        assert(signed_value(res, orb, d, e) == v1 - v2);
    } else if cc.len() == 1 && ca.len() == 1 && ac.len() == 1 && aa.len() == 1 {
        let ci: int = if c0 { 0 } else { 1 };
        let cj: int = if c2 { 2 } else { 3 };
        let ai: int = 1 - ci;
        let aj: int = 5 - cj;
        assert(cc[0] == ci && ca[0] == cj && ac[0] == ai && aa[0] == aj);
        let fd = SpecTensor::Delta(s[ci].index, s[cj].index);
        let fg = SpecTensor::Gamma(s[ai].index, s[aj].index);
        let t = SpecTensor::Product(seq![fd, fg]);
        let sign = permutation_sign_of(seq![ci, cj, ai, aj]);
        assert(res == seq![signed(sign, t)]);
        lemma_signed_value_one(signed(sign, t), orb, d, e);
        lemma_product_two(fd, fg, orb);
        assert(tensor_string(t) =~= seq![s[ai], s[aj]]);
        lemma_mixed_two_body(s, orb, core, virt, d, e, ci, cj, ai, aj);
        let inner = amplitude(seq![s[ai], s[aj]], orb, d, e);
        let sc = tensor_scalar(t, orb);
        let am = amplitude(tensor_string(t), orb, d, e);
        assert(am == inner);
        if orb(s[ci].index) == orb(s[cj].index) {
            assert(sc == 1);
            assert(sc * am == inner) by (nonlinear_arith)
                requires
                    sc == 1,
                    am == inner,
            ;
        } else {
            assert(sc == 0);
            assert(sc * am == 0) by (nonlinear_arith)
                requires
                    sc == 0,
            ;
        }
        assert(signed_value(res, orb, d, e) == sign * term_value(t, orb, d, e));
    } else {
        assert(res.len() == 0);
        lemma_balance_four(s, orb, core);
        assert(cc.len() != ca.len());
        assert(core_balance(s, orb, core) == ca.len() - cc.len());
        lemma_unbalanced_vanishes(s, orb, core, virt, d, e);
    }
}

/// The reduction of a nonempty string, read between any two determinants of the
/// reference space, gives what the string gives between them.
pub proof fn lemma_reduce_product_value(
    s: Seq<SpecOp>,
    orb: spec_fn(SpecIndex) -> int,
    core: spec_fn(int) -> bool,
    virt: spec_fn(int) -> bool,
    d: Set<int>,
    e: Set<int>,
)
    requires
        s.len() > 0,
        reduce_product(s) is Ok,
        fits_spaces(orb, core, virt),
        in_reference_space(d, core, virt),
        in_reference_space(e, core, virt),
    ensures
        signed_value(reduce_product(s)->Ok_0, orb, d, e) == amplitude(s, orb, d, e),
{
    let res = reduce_product(s)->Ok_0;
    assert(in_reference_order(s));
    if touches_space(s, IndexSpace::Virtual) {
        lemma_virtual_vanishes(s, orb, core, virt, d, e);
        assert(res.len() == 0);
    } else if s.len() == 2 {
        lemma_one_body_value(s, orb, core, virt, d, e);
    } else if s.len() == 4 {
        lemma_two_body_value(s, orb, core, virt, d, e);
    } else {
        let h = SpecTensor::HigherRdm { min_order: (s.len() / 2) as nat, product: s };
        assert(res == seq![signed(1, h)]);
        lemma_signed_value_one(signed(1, h), orb, d, e);
        assert(tensor_scalar(h, orb) == 1);
        assert(tensor_string(h) == s);
    }
}

// ---------------------------------------------------------------------------
// Reduction of one term
// ---------------------------------------------------------------------------
proof fn lemma_factors_push(fs: Seq<SpecTensor>, x: SpecTensor, orb: spec_fn(SpecIndex) -> int, n: nat)
    requires
        n <= fs.len(),
    ensures
        factors_scalar(fs.push(x), orb, n) == factors_scalar(fs, orb, n),
        factors_string(fs.push(x), n) == factors_string(fs, n),
    decreases n,
{
    if n > 0 {
        lemma_factors_push(fs, x, orb, (n - 1) as nat);
        assert(fs.push(x)[n - 1] == fs[n - 1]);
    }
}

proof fn lemma_delta_factors(ds: Seq<SpecDelta>, orb: spec_fn(SpecIndex) -> int, n: nat)
    requires
        n <= ds.len(),
    ensures
        factors_scalar(delta_factors(ds), orb, n) == if deltas_hold(ds.take(n as int), orb) {
            1int
        } else {
            0int
        },
        factors_string(delta_factors(ds), n) == Seq::<SpecOp>::empty(),
    decreases n,
{
    let fs = delta_factors(ds);
    if n == 0 {
        assert(deltas_hold(ds.take(0), orb));
    } else {
        lemma_delta_factors(ds, orb, (n - 1) as nat);
        let k = n - 1;
        assert(fs[k] == SpecTensor::Delta(ds[k].left, ds[k].right));
        assert(tensor_string(fs[k]) == Seq::<SpecOp>::empty());
        assert(Seq::<SpecOp>::empty() + Seq::<SpecOp>::empty() =~= Seq::<SpecOp>::empty());
        let a0 = factors_scalar(fs, orb, (n - 1) as nat);
        let b0 = tensor_scalar(fs[k], orb);
        assert(factors_scalar(fs, orb, n) == a0 * b0);
        if a0 == 1 && b0 == 1 {
            assert(a0 * b0 == 1);
        } else {
            assert(a0 * b0 == 0) by (nonlinear_arith)
                requires
                    a0 == 0 || b0 == 0,
            ;
        }
        let p = ds.take(k);
        let q = ds.take(n as int);
        assert(q =~= p.push(ds[k]));
        if deltas_hold(q, orb) {
            assert forall|i: int| 0 <= i < p.len() implies orb(#[trigger] p[i].left) == orb(p[i].right) by {
                assert(q[i] == p[i]);
            }
            assert(q[k] == ds[k]);
        } else {
            if deltas_hold(p, orb) && orb(ds[k].left) == orb(ds[k].right) {
                assert forall|i: int| 0 <= i < q.len() implies orb(#[trigger] q[i].left) == orb(q[i].right) by {
                    if i < k {
                        assert(q[i] == p[i]);
                    }
                }
            }
        }
    }
}

/// Deltas multiplied onto a tensor other than a sum: its value where they all hold,
/// zero otherwise.
proof fn lemma_assemble_value(
    ds: Seq<SpecDelta>,
    x: SpecTensor,
    orb: spec_fn(SpecIndex) -> int,
    d: Set<int>,
    e: Set<int>,
)
    ensures
        term_value(assemble(delta_factors(ds).push(x)), orb, d, e) == if deltas_hold(ds, orb) {
            term_value(x, orb, d, e)
        } else {
            0
        },
{
    let df = delta_factors(ds);
    let fs = df.push(x);
    if ds.len() == 0 {
        assert(fs =~= seq![x]);
        assert(deltas_hold(ds, orb));
    } else {
        let n = ds.len();
        assert(df.len() == n);
        lemma_delta_factors(ds, orb, n);
        lemma_factors_push(df, x, orb, n);
        assert(ds.take(n as int) =~= ds);
        assert(fs[n as int] == x);
        assert(factors_scalar(fs, orb, n + 1) == factors_scalar(fs, orb, n) * tensor_scalar(x, orb));
        assert(factors_string(fs, n + 1) == factors_string(fs, n) + tensor_string(x));
        assert(Seq::<SpecOp>::empty() + tensor_string(x) =~= tensor_string(x));
        let sx = tensor_scalar(x, orb);
        let ax = amplitude(tensor_string(x), orb, d, e);
        if deltas_hold(ds, orb) {
            assert(tensor_scalar(assemble(fs), orb) == sx);
        } else {
            assert(tensor_scalar(assemble(fs), orb) == 0);
            assert(0 * ax == 0);
        }
    }
}

/// Deltas alone: one or zero times the overlap of the two determinants.
proof fn lemma_assemble_deltas_value(ds: Seq<SpecDelta>, orb: spec_fn(SpecIndex) -> int, d: Set<int>, e: Set<int>)
    requires
        ds.len() > 0,
    ensures
        term_value(assemble(delta_factors(ds)), orb, d, e) == if deltas_hold(ds, orb) {
            amplitude(Seq::<SpecOp>::empty(), orb, d, e)
        } else {
            0
        },
{
    let df = delta_factors(ds);
    let n = ds.len();
    lemma_delta_factors(ds, orb, n);
    assert(ds.take(n as int) =~= ds);
    let id = amplitude(Seq::<SpecOp>::empty(), orb, d, e);
    if n == 1 {
        assert(df[0] == SpecTensor::Delta(ds[0].left, ds[0].right));
        assert(factors_scalar(df, orb, 1) == tensor_scalar(df[0], orb));
        assert(tensor_string(df[0]) == Seq::<SpecOp>::empty());
    }
    let sc = tensor_scalar(assemble(df), orb);
    assert(tensor_string(assemble(df)) == Seq::<SpecOp>::empty());
    if deltas_hold(ds, orb) {
        assert(sc == 1);
        assert(sc * id == id);
    } else {
        assert(sc == 0);
        assert(sc * id == 0);
    }
}

proof fn lemma_scaled_value(
    res: Seq<SpecSigned>,
    r: Seq<SpecSigned>,
    c: int,
    ds: Seq<SpecDelta>,
    orb: spec_fn(SpecIndex) -> int,
    d: Set<int>,
    e: Set<int>,
    m: int,
)
    requires
        res.len() == r.len(),
        0 <= m <= r.len(),
        forall|i: int|
            0 <= i < r.len() ==> #[trigger] res[i] == signed(
                c * r[i].coefficient,
                assemble(delta_factors(ds).push(r[i].term)),
            ),
    ensures
        signed_value(res.take(m), orb, d, e) == if deltas_hold(ds, orb) {
            c * signed_value(r.take(m), orb, d, e)
        } else {
            0
        },
    decreases m,
{
    if m == 0 {
        assert(res.take(0) =~= Seq::<SpecSigned>::empty());
        assert(r.take(0) =~= Seq::<SpecSigned>::empty());
        assert(c * 0 == 0);
    } else {
        lemma_scaled_value(res, r, c, ds, orb, d, e, m - 1);
        assert(res.take(m).drop_last() =~= res.take(m - 1));
        assert(r.take(m).drop_last() =~= r.take(m - 1));
        assert(res.take(m).last() == res[m - 1]);
        assert(r.take(m).last() == r[m - 1]);
        let k = r[m - 1].coefficient;
        let x = r[m - 1].term;
        lemma_assemble_value(ds, x, orb, d, e);
        let v = term_value(x, orb, d, e);
        let s0 = signed_value(r.take(m - 1), orb, d, e);
        if deltas_hold(ds, orb) {
            assert(c * s0 + (c * k) * v == c * (s0 + k * v)) by (nonlinear_arith);
        } else {
            assert((c * k) * 0 == 0) by (nonlinear_arith);
        }
    }
}

/// A term whose deltas can hold and whose nonempty string reduces to nothing: the
/// reduction keeps its deltas alone, where the string itself is zero.
pub open spec fn deltas_outlive_string(t: SpecTerm) -> bool {
    &&& t.deltas.len() > 0
    &&& !has_contradiction(t.deltas)
    &&& t.product.len() > 0
    &&& reduce_product(t.product) == Ok::<Seq<SpecSigned>, crate::reference::TensorSimplifyError>(
        Seq::empty(),
    )
}

/// The reduction of one term, read between determinants of the reference space, gives
/// what the term gives between them.
pub proof fn lemma_reduce_term_value(
    t: SpecTerm,
    orb: spec_fn(SpecIndex) -> int,
    core: spec_fn(int) -> bool,
    virt: spec_fn(int) -> bool,
    d: Set<int>,
    e: Set<int>,
)
    requires
        reduce_term(t) is Ok,
        t.product.len() > 0 || t.deltas.len() > 0,
        !deltas_outlive_string(t),
        fits_spaces(orb, core, virt),
        in_reference_space(d, core, virt),
        in_reference_space(e, core, virt),
    ensures
        signed_value(reduce_term(t)->Ok_0, orb, d, e) == term_amplitude(t, orb, d, e),
{
    let res = reduce_term(t)->Ok_0;
    let c = t.coefficient;
    let a = amplitude(t.product, orb, d, e);
    if has_contradiction(t.deltas) {
        let i = choose|i: int|
            0 <= i < t.deltas.len() && #[trigger] spaces_contradict(
                t.deltas[i].left.space,
                t.deltas[i].right.space,
            );
        let l = t.deltas[i].left;
        let r = t.deltas[i].right;
        assert(orb(l) == orb(l) && orb(r) == orb(r));
        assert(orb(l) != orb(r));
        assert(!deltas_hold(t.deltas, orb));
        assert(res.len() == 0);
    } else {
        let residual = reduce_product(t.product)->Ok_0;
        if residual.len() == 0 {
            if t.deltas.len() == 0 {
                assert(res.len() == 0);
                lemma_reduce_product_value(t.product, orb, core, virt, d, e);
                assert(a == 0);
                assert(deltas_hold(t.deltas, orb));
                assert(c * a == 0) by (nonlinear_arith)
                    requires
                        a == 0,
                ;
            } else {
                assert(t.product.len() == 0);
                let x = signed(c, assemble(delta_factors(t.deltas)));
                assert(res == seq![x]);
                lemma_signed_value_one(x, orb, d, e);
                lemma_assemble_deltas_value(t.deltas, orb, d, e);
                assert(t.product =~= Seq::<SpecOp>::empty());
                if !deltas_hold(t.deltas, orb) {
                    assert(c * 0 == 0);
                }
            }
        } else {
            assert(t.product.len() > 0);
            lemma_reduce_product_value(t.product, orb, core, virt, d, e);
            assert(res.len() == residual.len());
            lemma_scaled_value(res, residual, c, t.deltas, orb, d, e, residual.len() as int);
            assert(res.take(res.len() as int) =~= res);
            assert(residual.take(residual.len() as int) =~= residual);
        }
    }
}

} // verus!
