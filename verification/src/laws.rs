//! Properties of the library as a whole: what normal ordering, canonical ordering and
//! reduction promise across inputs and across calls.
use vstd::prelude::*;

use crate::ast::{FermionOp, FermionOpKind, IndexSpace, SpecIndex, SpecOp};
use crate::canonicalize::{canonical_key_order, canonical_order};
use crate::constraints::{DeltaConstraint, SpecDelta};
use crate::fock::{
    amplitude, deltas_hold, expression_amplitude, lemma_mixed_swap_amplitude,
    lemma_repeated_amplitude, lemma_same_kind_swap_amplitude, term_amplitude,
};
use crate::reference::{
    SpecInput, SpecMatrixElement, SpecSigned, SpecTensor, assemble, collapse, delta_factors,
    delta_form, drop_zero_signed, input_form, matrix_element_ops, reduce_product, reduce_term,
    reduce_terms, reference_form, reference_trace,
};
use crate::reference_model::{
    deltas_outlive_string, fits_spaces, in_reference_space, lemma_reduce_term_value, signed_value,
    tensor_value, term_value,
};
use crate::rewrite::{
    NormalOrderedTerm, SpecRewrite, SpecTerm, canonical_term, combine_like, drop_zero_terms,
    first_rewrite, inversions, lemma_first_rewrite_from, lemma_rewrite_swap_lowers,
    merge_like_terms, normal_order_terms, normal_ordered, pair_rewrite, remove_pair, same_structure,
    swap_at,
};
use crate::sorting::{
    SortKey, in_sorted_order, insert_sorted, lemma_sorted_is_fixed, lemma_stable_sort_contains,
    lemma_stable_sort_len, lemma_stable_sort_sorted, stable_sort,
};
use crate::text::Order;

verus! {

/// No adjacent pair of the string calls for a rewrite: creators stand before
/// annihilators, each kind is in index order, and no operator is repeated next to itself.
pub open spec fn is_normal_string(ops: Seq<SpecOp>) -> bool {
    forall|k: int| 0 <= k < ops.len() - 1 ==> #[trigger] pair_rewrite(k, ops[k], ops[k + 1]) is None
}

proof fn lemma_no_rewrite_is_normal(ops: Seq<SpecOp>)
    requires
        first_rewrite(ops) is None,
    ensures
        is_normal_string(ops),
{
    lemma_first_rewrite_from(ops, 0);
}

proof fn lemma_normal_is_no_rewrite(ops: Seq<SpecOp>, start: int)
    requires
        is_normal_string(ops),
        0 <= start,
    ensures
        crate::rewrite::first_rewrite_from(ops, start) is None,
    decreases ops.len() - start,
{
    if start + 1 < ops.len() {
        assert(pair_rewrite(start, ops[start], ops[start + 1]) is None);
        lemma_normal_is_no_rewrite(ops, start + 1);
    }
}

/// A normal string is already in canonical order.
proof fn lemma_normal_is_canonical(ops: Seq<SpecOp>)
    requires
        is_normal_string(ops),
    ensures
        canonical_order(ops) == ops,
{
    assert(in_sorted_order::<FermionOp>(ops)) by {
        assert forall|k: int| 0 <= k < ops.len() - 1 implies !(canonical_key_order(
            #[trigger] ops[k],
            ops[k + 1],
        ) == Order::Greater) by {
            assert(pair_rewrite(k, ops[k], ops[k + 1]) is None);
        }
    }
    lemma_sorted_is_fixed::<FermionOp>(ops);
}

/// Every term of the expansion has a normal string.
proof fn lemma_expansion_is_normal(coefficient: int, deltas: Seq<SpecDelta>, ops: Seq<SpecOp>)
    ensures
        forall|i: int|
            0 <= i < normal_order_terms(coefficient, deltas, ops).len() ==> is_normal_string(
                #[trigger] normal_order_terms(coefficient, deltas, ops)[i].product,
            ),
    decreases ops.len(), crate::rewrite::inversions(ops),
{
    let r = normal_order_terms(coefficient, deltas, ops);
    if coefficient != 0 {
        lemma_first_rewrite_from(ops, 0);
        match first_rewrite(ops) {
            None => {
                lemma_no_rewrite_is_normal(ops);
                lemma_normal_is_canonical(ops);
                assert(r == seq![canonical_term(coefficient, deltas, ops)]);
                assert(r[0].product == ops);
                assert forall|i: int| 0 <= i < r.len() implies is_normal_string(
                    #[trigger] r[i].product,
                ) by {
                    assert(i == 0);
                }
            },
            Some(SpecRewrite::Zero) => {
                assert(r.len() == 0);
            },
            Some(SpecRewrite::SameKindSwap(p)) => {
                crate::rewrite::lemma_rewrite_swap_lowers(ops, p);
                lemma_expansion_is_normal(-coefficient, deltas, swap_at(ops, p));
                assert(r == normal_order_terms(-coefficient, deltas, swap_at(ops, p)));
            },
            Some(SpecRewrite::MixedSwap(p)) => {
                crate::rewrite::lemma_rewrite_swap_lowers(ops, p);
                let d = deltas.push(SpecDelta { left: ops[p].index, right: ops[p + 1].index });
                let a = normal_order_terms(coefficient, d, remove_pair(ops, p));
                let b = normal_order_terms(-coefficient, deltas, swap_at(ops, p));
                lemma_expansion_is_normal(coefficient, d, remove_pair(ops, p));
                lemma_expansion_is_normal(-coefficient, deltas, swap_at(ops, p));
                assert(r == a + b);
                assert forall|i: int| 0 <= i < r.len() implies is_normal_string(
                    #[trigger] r[i].product,
                ) by {
                    if i < a.len() {
                        assert(r[i] == a[i]);
                    } else {
                        assert(r[i] == b[i - a.len()]);
                    }
                }
            },
        }
    }
}

/// Every term of `s` has deltas and a string of which `p` holds.
spec fn all_shapes(s: Seq<SpecTerm>, p: spec_fn(Seq<SpecDelta>, Seq<SpecOp>) -> bool) -> bool {
    forall|i: int| 0 <= i < s.len() ==> p(#[trigger] s[i].deltas, s[i].product)
}

proof fn lemma_merge_keeps_shapes(s: Seq<SpecTerm>, p: spec_fn(Seq<SpecDelta>, Seq<SpecOp>) -> bool)
    requires
        all_shapes(s, p),
    ensures
        all_shapes(merge_like_terms(s), p),
    decreases s.len(),
{
    if s.len() > 0 {
        let q = s.drop_last();
        assert forall|i: int| 0 <= i < q.len() implies p(#[trigger] q[i].deltas, q[i].product) by {
            assert(q[i] == s[i]);
        }
        lemma_merge_keeps_shapes(q, p);
        let m = merge_like_terms(q);
        let t = s.last();
        assert(p(s[s.len() - 1].deltas, s[s.len() - 1].product));
        let r = merge_like_terms(s);
        if m.len() > 0 && same_structure(m.last(), t) {
            assert forall|i: int| 0 <= i < r.len() implies p(#[trigger] r[i].deltas, r[i].product) by {
                assert(r[i].deltas == m[i].deltas && r[i].product == m[i].product);
            }
        } else {
            assert forall|i: int| 0 <= i < r.len() implies p(#[trigger] r[i].deltas, r[i].product) by {
                if i < m.len() {
                    assert(r[i] == m[i]);
                } else {
                    assert(r[i] == t);
                }
            }
        }
    }
}

proof fn lemma_drop_zero_keeps_shapes(s: Seq<SpecTerm>, p: spec_fn(Seq<SpecDelta>, Seq<SpecOp>) -> bool)
    requires
        all_shapes(s, p),
    ensures
        all_shapes(drop_zero_terms(s), p),
        forall|i: int|
            0 <= i < drop_zero_terms(s).len() ==> (#[trigger] drop_zero_terms(s)[i]).coefficient
                != 0,
    decreases s.len(),
{
    if s.len() > 0 {
        let q = s.drop_last();
        assert forall|i: int| 0 <= i < q.len() implies p(#[trigger] q[i].deltas, q[i].product) by {
            assert(q[i] == s[i]);
        }
        lemma_drop_zero_keeps_shapes(q, p);
        let z = drop_zero_terms(q);
        let r = drop_zero_terms(s);
        assert(p(s[s.len() - 1].deltas, s[s.len() - 1].product));
        if s.last().coefficient != 0 {
            assert(r == z.push(s.last()));
            assert forall|i: int| 0 <= i < r.len() implies p(#[trigger] r[i].deltas, r[i].product)
                && r[i].coefficient != 0 by {
                if i < z.len() {
                    assert(r[i] == z[i]);
                } else {
                    assert(r[i] == s.last());
                }
            }
        } else {
            assert(r == z);
        }
    }
}

/// Combining like terms keeps only deltas and strings that some term had, and drops
/// every zero coefficient.
proof fn lemma_combine_keeps_shapes(s: Seq<SpecTerm>, p: spec_fn(Seq<SpecDelta>, Seq<SpecOp>) -> bool)
    requires
        all_shapes(s, p),
    ensures
        all_shapes(combine_like(s), p),
        forall|i: int| 0 <= i < combine_like(s).len() ==> (#[trigger] combine_like(s)[i]).coefficient != 0,
{
    let sorted = stable_sort::<NormalOrderedTerm>(s);
    lemma_stable_sort_sorted::<NormalOrderedTerm>(s);
    assert forall|i: int| 0 <= i < sorted.len() implies p(#[trigger] sorted[i].deltas, sorted[i].product) by {
        lemma_stable_sort_contains::<NormalOrderedTerm>(s, i);
        let j = choose|j: int| 0 <= j < s.len() && s[j] == sorted[i];
        assert(p(s[j].deltas, s[j].product));
    }
    lemma_merge_keeps_shapes(sorted, p);
    lemma_drop_zero_keeps_shapes(merge_like_terms(sorted), p);
}

/// Normal ordering yields only normal-ordered terms with nonzero coefficients: in each
/// term creators stand before annihilators, operators of one kind are in index order,
/// and no operator is repeated next to itself.
pub proof fn law_normal_ordered_terms_are_normal(ops: Seq<SpecOp>)
    ensures
        forall|i: int|
            0 <= i < normal_ordered(ops).len() ==> is_normal_string(
                #[trigger] normal_ordered(ops)[i].product,
            ),
        forall|i: int|
            0 <= i < normal_ordered(ops).len() ==> (#[trigger] normal_ordered(ops)[i]).coefficient
                != 0,
{
    let raw = normal_order_terms(1, Seq::empty(), ops);
    lemma_expansion_is_normal(1, Seq::empty(), ops);
    let p = |ds: Seq<SpecDelta>, pr: Seq<SpecOp>| is_normal_string(pr);
    assert forall|i: int| 0 <= i < raw.len() implies p(#[trigger] raw[i].deltas, raw[i].product) by {
        assert(is_normal_string(raw[i].product));
    }
    lemma_combine_keeps_shapes(raw, p);
    let r = normal_ordered(ops);
    assert forall|i: int| 0 <= i < r.len() implies is_normal_string(#[trigger] r[i].product) by {
        assert(p(r[i].deltas, r[i].product));
    }
}

/// Normal ordering is idempotent: the string of any term it yields is normal-ordered to
/// exactly one term, with coefficient 1, no deltas and the same string.
pub proof fn law_normal_ordering_is_idempotent(ops: Seq<SpecOp>, i: int)
    requires
        0 <= i < normal_ordered(ops).len(),
        normal_ordered(ops)[i].product.len() > 0,
    ensures
        normal_ordered(normal_ordered(ops)[i].product) == seq![
            SpecTerm {
                coefficient: 1,
                deltas: Seq::empty(),
                product: normal_ordered(ops)[i].product,
            },
        ],
{
    law_normal_ordered_terms_are_normal(ops);
    let p = normal_ordered(ops)[i].product;
    lemma_normal_is_no_rewrite(p, 0);
    lemma_normal_is_canonical(p);
    let t = SpecTerm { coefficient: 1, deltas: Seq::<SpecDelta>::empty(), product: p };
    assert(stable_sort::<DeltaConstraint>(Seq::<SpecDelta>::empty()) == Seq::<SpecDelta>::empty());
    assert(normal_order_terms(1, Seq::empty(), p) == seq![t]);
    assert(seq![t].drop_last() =~= Seq::<SpecTerm>::empty());
    assert(stable_sort::<NormalOrderedTerm>(seq![t]) == seq![t]) by {
        assert(stable_sort::<NormalOrderedTerm>(Seq::<SpecTerm>::empty()) == Seq::<SpecTerm>::empty());
    }
    assert(merge_like_terms(seq![t]) =~= seq![t]) by {
        assert(merge_like_terms(Seq::<SpecTerm>::empty()) == Seq::<SpecTerm>::empty());
    }
    assert(drop_zero_terms(seq![t]) =~= seq![t]) by {
        assert(drop_zero_terms(Seq::<SpecTerm>::empty()) == Seq::<SpecTerm>::empty());
    }
}

/// Canonical ordering arranges a string by kind and symbol, only rearranges it, and
/// leaves an already canonical string unchanged.
pub proof fn law_canonical_order(ops: Seq<SpecOp>)
    ensures
        in_sorted_order::<FermionOp>(canonical_order(ops)),
        canonical_order(ops).to_multiset() == ops.to_multiset(),
        canonical_order(canonical_order(ops)) == canonical_order(ops),
{
    lemma_stable_sort_sorted::<FermionOp>(ops);
    lemma_sorted_is_fixed::<FermionOp>(canonical_order(ops));
}

/// A matrix element reduces as the expectation value of its left string, Hamiltonian
/// string and right string concatenated.
pub proof fn law_matrix_element_is_concatenated_expectation(m: SpecMatrixElement)
    ensures
        input_form(SpecInput::MatrixElement(m)) == input_form(
            SpecInput::Expectation(matrix_element_ops(m)),
        ),
{
}

/// The simplified form of an expectation value is the final stage of its trace.
pub proof fn law_simplified_form_is_final_stage(ops: Seq<SpecOp>)
    ensures
        input_form(SpecInput::Expectation(ops)) == match reference_trace(ops) {
            Ok(t) => Ok(t.final_form),
            Err(e) => Err(e),
        },
{
}

// ---------------------------------------------------------------------------
// What normal ordering keeps of the action on determinants
// ---------------------------------------------------------------------------
proof fn lemma_expression_concat(
    a: Seq<SpecTerm>,
    b: Seq<SpecTerm>,
    orb: spec_fn(SpecIndex) -> int,
    d: Set<int>,
    e: Set<int>,
)
    ensures
        expression_amplitude(a + b, orb, d, e) == expression_amplitude(a, orb, d, e)
            + expression_amplitude(b, orb, d, e),
    decreases b.len(),
{
    if b.len() == 0 {
        assert(a + b =~= a);
    } else {
        assert((a + b).drop_last() =~= a + b.drop_last());
        assert((a + b).last() == b.last());
        lemma_expression_concat(a, b.drop_last(), orb, d, e);
    }
}

proof fn lemma_push_deltas_hold(deltas: Seq<SpecDelta>, delta: SpecDelta, orb: spec_fn(SpecIndex) -> int)
    ensures
        deltas_hold(deltas.push(delta), orb) == (deltas_hold(deltas, orb) && orb(delta.left) == orb(
            delta.right,
        )),
{
    let s = deltas.push(delta);
    assert(s[deltas.len() as int] == delta);
    if deltas_hold(s, orb) {
        assert forall|i: int| 0 <= i < deltas.len() implies orb(#[trigger] deltas[i].left) == orb(
            deltas[i].right,
        ) by {
            assert(s[i] == deltas[i]);
        }
    }
    if deltas_hold(deltas, orb) && orb(delta.left) == orb(delta.right) {
        assert forall|i: int| 0 <= i < s.len() implies orb(#[trigger] s[i].left) == orb(s[i].right) by {
            if i < deltas.len() {
                assert(s[i] == deltas[i]);
            }
        }
    }
}

proof fn lemma_sorted_deltas_hold(deltas: Seq<SpecDelta>, orb: spec_fn(SpecIndex) -> int)
    ensures
        deltas_hold(stable_sort::<DeltaConstraint>(deltas), orb) == deltas_hold(deltas, orb),
{
    broadcast use vstd::seq_lib::group_to_multiset_ensures;

    let s = stable_sort::<DeltaConstraint>(deltas);
    lemma_stable_sort_sorted::<DeltaConstraint>(deltas);
    if deltas_hold(deltas, orb) {
        assert forall|i: int| 0 <= i < s.len() implies orb(#[trigger] s[i].left) == orb(s[i].right) by {
            assert(s.contains(s[i]));
            assert(s.to_multiset().count(s[i]) > 0);
            assert(deltas.to_multiset().count(s[i]) > 0);
            assert(deltas.contains(s[i]));
            let j = choose|j: int| 0 <= j < deltas.len() && deltas[j] == s[i];
            assert(orb(deltas[j].left) == orb(deltas[j].right));
        }
    }
    if deltas_hold(s, orb) {
        assert forall|i: int| 0 <= i < deltas.len() implies orb(#[trigger] deltas[i].left) == orb(
            deltas[i].right,
        ) by {
            assert(deltas.contains(deltas[i]));
            assert(deltas.to_multiset().count(deltas[i]) > 0);
            assert(s.to_multiset().count(deltas[i]) > 0);
            assert(s.contains(deltas[i]));
            let j = choose|j: int| 0 <= j < s.len() && s[j] == deltas[i];
            assert(orb(s[j].left) == orb(s[j].right));
        }
    }
}

/// The expansion of `coefficient * deltas * ops` acts on determinants as the string
/// itself does, scaled by the coefficient where the deltas hold.
proof fn lemma_expansion_amplitude(
    coefficient: int,
    deltas: Seq<SpecDelta>,
    ops: Seq<SpecOp>,
    orb: spec_fn(SpecIndex) -> int,
    d: Set<int>,
    e: Set<int>,
)
    requires
        d.finite(),
    ensures
        expression_amplitude(normal_order_terms(coefficient, deltas, ops), orb, d, e) == if deltas_hold(
            deltas,
            orb,
        ) {
            coefficient * amplitude(ops, orb, d, e)
        } else {
            0
        },
    decreases ops.len(), inversions(ops),
{
    let r = normal_order_terms(coefficient, deltas, ops);
    let a = amplitude(ops, orb, d, e);
    if coefficient == 0 {
        assert(r.len() == 0);
        assert(coefficient * a == 0) by (nonlinear_arith)
            requires
                coefficient == 0,
        ;
    } else {
        lemma_first_rewrite_from(ops, 0);
        match first_rewrite(ops) {
            None => {
                lemma_no_rewrite_is_normal(ops);
                lemma_normal_is_canonical(ops);
                let t = canonical_term(coefficient, deltas, ops);
                assert(r == seq![t]);
                assert(r.drop_last() =~= Seq::<SpecTerm>::empty());
                assert(r.last() == t);
                assert(expression_amplitude(r.drop_last(), orb, d, e) == 0);
                lemma_sorted_deltas_hold(deltas, orb);
                assert(t.product == ops);
                assert(expression_amplitude(r, orb, d, e) == term_amplitude(t, orb, d, e));
            },
            Some(SpecRewrite::Zero) => {
                let p = choose|p: int|
                    0 <= p < ops.len() - 1 && #[trigger] pair_rewrite(p, ops[p], ops[p + 1])
                        == Some(SpecRewrite::Zero);
                lemma_repeated_amplitude(ops, p, orb, d, e);
                assert(r.len() == 0);
                assert(coefficient * a == 0) by (nonlinear_arith)
                    requires
                        a == 0,
                ;
            },
            Some(SpecRewrite::SameKindSwap(p)) => {
                let t = swap_at(ops, p);
                lemma_rewrite_swap_lowers(ops, p);
                lemma_expansion_amplitude(-coefficient, deltas, t, orb, d, e);
                lemma_same_kind_swap_amplitude(ops, p, orb, d, e);
                let b = amplitude(t, orb, d, e);
                assert((-coefficient) * b == coefficient * a) by (nonlinear_arith)
                    requires
                        b == -a,
                ;
            },
            Some(SpecRewrite::MixedSwap(p)) => {
                let t = swap_at(ops, p);
                let q = remove_pair(ops, p);
                let delta = SpecDelta { left: ops[p].index, right: ops[p + 1].index };
                lemma_rewrite_swap_lowers(ops, p);
                lemma_expansion_amplitude(coefficient, deltas.push(delta), q, orb, d, e);
                lemma_expansion_amplitude(-coefficient, deltas, t, orb, d, e);
                lemma_expression_concat(
                    normal_order_terms(coefficient, deltas.push(delta), q),
                    normal_order_terms(-coefficient, deltas, t),
                    orb,
                    d,
                    e,
                );
                lemma_mixed_swap_amplitude(ops, p, orb, d, e);
                lemma_push_deltas_hold(deltas, delta, orb);
                let b = amplitude(t, orb, d, e);
                let c = amplitude(q, orb, d, e);
                if deltas_hold(deltas, orb) {
                    if orb(delta.left) == orb(delta.right) {
                        assert(coefficient * c + (-coefficient) * b == coefficient * a)
                            by (nonlinear_arith)
                            requires
                                a == -b + c,
                        ;
                    } else {
                        assert((-coefficient) * b == coefficient * a) by (nonlinear_arith)
                            requires
                                a == -b,
                        ;
                    }
                }
            },
        }
    }
}

proof fn lemma_insert_sorted_amplitude(
    x: SpecTerm,
    s: Seq<SpecTerm>,
    orb: spec_fn(SpecIndex) -> int,
    d: Set<int>,
    e: Set<int>,
)
    ensures
        expression_amplitude(insert_sorted::<NormalOrderedTerm>(x, s), orb, d, e)
            == expression_amplitude(s, orb, d, e) + term_amplitude(x, orb, d, e),
    decreases s.len(),
{
    let r = insert_sorted::<NormalOrderedTerm>(x, s);
    if s.len() == 0 {
        assert(r == seq![x]);
        assert(r.drop_last() =~= Seq::<SpecTerm>::empty());
        assert(r.last() == x);
        assert(expression_amplitude(r.drop_last(), orb, d, e) == 0);
        assert(expression_amplitude(r, orb, d, e) == term_amplitude(x, orb, d, e));
        assert(expression_amplitude(s, orb, d, e) == 0);
    } else if NormalOrderedTerm::spec_after(s.last(), x) {
        lemma_insert_sorted_amplitude(x, s.drop_last(), orb, d, e);
        let m = insert_sorted::<NormalOrderedTerm>(x, s.drop_last());
        assert(r == m.push(s.last()));
        assert(r.drop_last() =~= m);
        assert(r.last() == s.last());
        assert(expression_amplitude(r, orb, d, e) == expression_amplitude(m, orb, d, e) + term_amplitude(s.last(), orb, d, e));
    } else {
        assert(r == s.push(x));
        assert(r.drop_last() =~= s);
        assert(r.last() == x);
        assert(expression_amplitude(r, orb, d, e) == expression_amplitude(s, orb, d, e) + term_amplitude(x, orb, d, e));
    }
}

proof fn lemma_stable_sort_amplitude(s: Seq<SpecTerm>, orb: spec_fn(SpecIndex) -> int, d: Set<int>, e: Set<int>)
    ensures
        expression_amplitude(stable_sort::<NormalOrderedTerm>(s), orb, d, e) == expression_amplitude(
            s,
            orb,
            d,
            e,
        ),
    decreases s.len(),
{
    if s.len() > 0 {
        lemma_stable_sort_amplitude(s.drop_last(), orb, d, e);
        lemma_insert_sorted_amplitude(s.last(), stable_sort::<NormalOrderedTerm>(s.drop_last()), orb, d, e);
    }
}

proof fn lemma_merge_amplitude(s: Seq<SpecTerm>, orb: spec_fn(SpecIndex) -> int, d: Set<int>, e: Set<int>)
    ensures
        expression_amplitude(merge_like_terms(s), orb, d, e) == expression_amplitude(s, orb, d, e),
    decreases s.len(),
{
    if s.len() > 0 {
        let p = s.drop_last();
        lemma_merge_amplitude(p, orb, d, e);
        let m = merge_like_terms(p);
        let t = s.last();
        if m.len() > 0 && same_structure(m.last(), t) {
            let u = SpecTerm { coefficient: m.last().coefficient + t.coefficient, ..m.last() };
            let r = m.update(m.len() - 1, u);
            assert(r.drop_last() =~= m.drop_last());
            assert(r.last() == u);
            if deltas_hold(u.deltas, orb) {
                let x = amplitude(u.product, orb, d, e);
                let c1 = m.last().coefficient;
                let c2 = t.coefficient;
                assert((c1 + c2) * x == c1 * x + c2 * x) by (nonlinear_arith);
            }
        } else {
            assert(m.push(t).drop_last() =~= m);
        }
    }
}

proof fn lemma_drop_zero_amplitude(s: Seq<SpecTerm>, orb: spec_fn(SpecIndex) -> int, d: Set<int>, e: Set<int>)
    ensures
        expression_amplitude(drop_zero_terms(s), orb, d, e) == expression_amplitude(s, orb, d, e),
    decreases s.len(),
{
    if s.len() > 0 {
        let p = s.drop_last();
        lemma_drop_zero_amplitude(p, orb, d, e);
        let q = drop_zero_terms(p);
        if s.last().coefficient != 0 {
            assert(q.push(s.last()).drop_last() =~= q);
        } else {
            let c = s.last().coefficient;
            let x = amplitude(s.last().product, orb, d, e);
            assert(c * x == 0) by (nonlinear_arith)
                requires
                    c == 0,
            ;
        }
    }
}

/// Normal ordering keeps what a string does: for any assignment of orbitals to indices
/// and any pair of determinants, the normal-ordered sum, each term counted where its
/// deltas hold, gives the second determinant the same coefficient in the string applied
/// to the first as the original string does.
pub proof fn law_normal_ordering_preserves_action(
    ops: Seq<SpecOp>,
    orb: spec_fn(SpecIndex) -> int,
    d: Set<int>,
    e: Set<int>,
)
    requires
        d.finite(),
    ensures
        expression_amplitude(normal_ordered(ops), orb, d, e) == amplitude(ops, orb, d, e),
{
    let raw = normal_order_terms(1, Seq::empty(), ops);
    lemma_expansion_amplitude(1, Seq::empty(), ops, orb, d, e);
    lemma_stable_sort_amplitude(raw, orb, d, e);
    let sorted = stable_sort::<NormalOrderedTerm>(raw);
    lemma_merge_amplitude(sorted, orb, d, e);
    lemma_drop_zero_amplitude(merge_like_terms(sorted), orb, d, e);
    assert(deltas_hold(Seq::<SpecDelta>::empty(), orb));
}

// ---------------------------------------------------------------------------
// Exactness of the reduction in the reference state
// ---------------------------------------------------------------------------
/// Every term of the expansion keeps the length of the string: two operators for each
/// delta gained.
proof fn lemma_expansion_lengths(coefficient: int, deltas: Seq<SpecDelta>, ops: Seq<SpecOp>)
    ensures
        forall|i: int|
            0 <= i < normal_order_terms(coefficient, deltas, ops).len() ==> (#[trigger] normal_order_terms(
                coefficient,
                deltas,
                ops,
            )[i]).product.len() + 2 * normal_order_terms(coefficient, deltas, ops)[i].deltas.len()
                == ops.len() + 2 * deltas.len(),
    decreases ops.len(), inversions(ops),
{
    let r = normal_order_terms(coefficient, deltas, ops);
    if coefficient != 0 {
        lemma_first_rewrite_from(ops, 0);
        match first_rewrite(ops) {
            None => {
                lemma_stable_sort_len::<FermionOp>(ops);
                lemma_stable_sort_len::<DeltaConstraint>(deltas);
                assert(r == seq![canonical_term(coefficient, deltas, ops)]);
                assert forall|i: int| 0 <= i < r.len() implies (#[trigger] r[i]).product.len() + 2
                    * r[i].deltas.len() == ops.len() + 2 * deltas.len() by {
                    assert(i == 0);
                }
            },
            Some(SpecRewrite::Zero) => {},
            Some(SpecRewrite::SameKindSwap(p)) => {
                lemma_rewrite_swap_lowers(ops, p);
                lemma_expansion_lengths(-coefficient, deltas, swap_at(ops, p));
                assert(swap_at(ops, p).len() == ops.len());
                assert(r == normal_order_terms(-coefficient, deltas, swap_at(ops, p)));
            },
            Some(SpecRewrite::MixedSwap(p)) => {
                lemma_rewrite_swap_lowers(ops, p);
                let dd = deltas.push(SpecDelta { left: ops[p].index, right: ops[p + 1].index });
                let a = normal_order_terms(coefficient, dd, remove_pair(ops, p));
                let b = normal_order_terms(-coefficient, deltas, swap_at(ops, p));
                lemma_expansion_lengths(coefficient, dd, remove_pair(ops, p));
                lemma_expansion_lengths(-coefficient, deltas, swap_at(ops, p));
                assert(remove_pair(ops, p).len() == ops.len() - 2);
                assert(swap_at(ops, p).len() == ops.len());
                assert(dd.len() == deltas.len() + 1);
                assert(r == a + b);
                assert forall|i: int| 0 <= i < r.len() implies (#[trigger] r[i]).product.len() + 2
                    * r[i].deltas.len() == ops.len() + 2 * deltas.len() by {
                    if i < a.len() {
                        assert(r[i] == a[i]);
                    } else {
                        assert(r[i] == b[i - a.len()]);
                    }
                }
            },
        }
    }
}

proof fn lemma_signed_concat(
    a: Seq<SpecSigned>,
    b: Seq<SpecSigned>,
    orb: spec_fn(SpecIndex) -> int,
    d: Set<int>,
    e: Set<int>,
)
    ensures
        signed_value(a + b, orb, d, e) == signed_value(a, orb, d, e) + signed_value(b, orb, d, e),
    decreases b.len(),
{
    if b.len() == 0 {
        assert(a + b =~= a);
    } else {
        assert((a + b).drop_last() =~= a + b.drop_last());
        assert((a + b).last() == b.last());
        lemma_signed_concat(a, b.drop_last(), orb, d, e);
    }
}

/// The reductions of the terms together give what the terms give.
proof fn lemma_reduce_terms_value(
    ts: Seq<SpecTerm>,
    orb: spec_fn(SpecIndex) -> int,
    core: spec_fn(int) -> bool,
    virt: spec_fn(int) -> bool,
    d: Set<int>,
    e: Set<int>,
)
    requires
        reduce_terms(ts) is Ok,
        forall|i: int|
            0 <= i < ts.len() ==> (#[trigger] ts[i]).product.len() > 0 || ts[i].deltas.len() > 0,
        forall|i: int| 0 <= i < ts.len() ==> !deltas_outlive_string(#[trigger] ts[i]),
        fits_spaces(orb, core, virt),
        in_reference_space(d, core, virt),
        in_reference_space(e, core, virt),
    ensures
        signed_value(reduce_terms(ts)->Ok_0, orb, d, e) == expression_amplitude(ts, orb, d, e),
    decreases ts.len(),
{
    if ts.len() == 0 {
    } else {
        let rest = ts.drop_first();
        let t = ts[0];
        assert(reduce_term(t) is Ok);
        let first = reduce_term(t)->Ok_0;
        assert(reduce_terms(rest) is Ok);
        assert forall|i: int| 0 <= i < rest.len() implies (#[trigger] rest[i]).product.len() > 0
            || rest[i].deltas.len() > 0 by {
            assert(rest[i] == ts[i + 1]);
        }
        assert forall|i: int| 0 <= i < rest.len() implies !deltas_outlive_string(#[trigger] rest[i]) by {
            assert(rest[i] == ts[i + 1]);
        }
        lemma_reduce_terms_value(rest, orb, core, virt, d, e);
        lemma_reduce_term_value(t, orb, core, virt, d, e);
        lemma_signed_concat(first, reduce_terms(rest)->Ok_0, orb, d, e);
        assert(reduce_terms(ts)->Ok_0 == first + reduce_terms(rest)->Ok_0);
        assert(expression_amplitude(Seq::<SpecTerm>::empty(), orb, d, e) == 0);
        assert(seq![t] + rest =~= ts);
        lemma_expression_concat(seq![t], rest, orb, d, e);
        assert(seq![t].drop_last() =~= Seq::<SpecTerm>::empty());
        assert(seq![t].last() == t);
    }
}

/// No signed tensor of the list is a sum.
spec fn no_sums(s: Seq<SpecSigned>) -> bool {
    forall|i: int| 0 <= i < s.len() ==> !((#[trigger] s[i]).term is Sum)
}

proof fn lemma_reduce_term_no_sums(t: SpecTerm)
    requires
        reduce_term(t) is Ok,
    ensures
        no_sums(reduce_term(t)->Ok_0),
{
    let res = reduce_term(t)->Ok_0;
    if !crate::reference::has_contradiction(t.deltas) {
        let residual = reduce_product(t.product)->Ok_0;
        assert(no_sums(residual));
        if residual.len() > 0 {
            assert forall|i: int| 0 <= i < res.len() implies !((#[trigger] res[i]).term is Sum) by {
                let fs = delta_factors(t.deltas).push(residual[i].term);
                if t.deltas.len() == 0 {
                    assert(fs =~= seq![residual[i].term]);
                }
            }
        }
    }
}

proof fn lemma_reduce_terms_no_sums(ts: Seq<SpecTerm>)
    requires
        reduce_terms(ts) is Ok,
    ensures
        no_sums(reduce_terms(ts)->Ok_0),
    decreases ts.len(),
{
    if ts.len() > 0 {
        lemma_reduce_term_no_sums(ts[0]);
        lemma_reduce_terms_no_sums(ts.drop_first());
        let a = reduce_term(ts[0])->Ok_0;
        let b = reduce_terms(ts.drop_first())->Ok_0;
        assert forall|i: int| 0 <= i < (a + b).len() implies !((#[trigger] (a + b)[i]).term is Sum) by {
            if i < a.len() {
                assert((a + b)[i] == a[i]);
            } else {
                assert((a + b)[i] == b[i - a.len()]);
            }
        }
    }
}

proof fn lemma_drop_zero_signed(s: Seq<SpecSigned>, orb: spec_fn(SpecIndex) -> int, d: Set<int>, e: Set<int>)
    requires
        no_sums(s),
    ensures
        no_sums(drop_zero_signed(s)),
        signed_value(drop_zero_signed(s), orb, d, e) == signed_value(s, orb, d, e),
    decreases s.len(),
{
    if s.len() > 0 {
        let q = s.drop_last();
        assert forall|i: int| 0 <= i < q.len() implies !((#[trigger] q[i]).term is Sum) by {
            assert(q[i] == s[i]);
        }
        lemma_drop_zero_signed(q, orb, d, e);
        let z = drop_zero_signed(q);
        let r = drop_zero_signed(s);
        assert(!(s[s.len() - 1].term is Sum));
        if s.last().coefficient != 0 {
            assert(r == z.push(s.last()));
            assert(r.drop_last() =~= z);
            assert forall|i: int| 0 <= i < r.len() implies !((#[trigger] r[i]).term is Sum) by {
                if i < z.len() {
                    assert(r[i] == z[i]);
                }
            }
        } else {
            let v = term_value(s.last().term, orb, d, e);
            assert(s.last().coefficient * v == 0);
        }
    }
}

/// The final form of a list of reduced terms has their value.
proof fn lemma_collapse_value(r: Seq<SpecSigned>, orb: spec_fn(SpecIndex) -> int, d: Set<int>, e: Set<int>)
    requires
        no_sums(r),
    ensures
        tensor_value(collapse(r), orb, d, e) == signed_value(r, orb, d, e),
{
    lemma_drop_zero_signed(r, orb, d, e);
    let kept = drop_zero_signed(r);
    if kept.len() == 0 {
        assert(term_value(SpecTensor::Zero, orb, d, e) == 0);
    } else if kept.len() == 1 && kept[0].coefficient == 1 {
        assert(kept.drop_last() =~= Seq::<SpecSigned>::empty());
        assert(kept.last() == kept[0]);
        assert(!(kept[0].term is Sum));
        assert(signed_value(Seq::<SpecSigned>::empty(), orb, d, e) == 0);
    }
}

/// No term of the normal-ordered form of `ops` keeps deltas that can hold together
/// with a nonempty string that the reference reduces to nothing.
pub open spec fn no_deltas_outlive_strings(ops: Seq<SpecOp>) -> bool {
    forall|i: int|
        0 <= i < normal_ordered(ops).len() ==> !deltas_outlive_string(#[trigger] normal_ordered(ops)[i])
}

/// Reduction in the reference state is exact: for a string whose reduction succeeds,
/// any assignment of orbitals that respects the index spaces, and any two determinants
/// with every core orbital filled and every virtual orbital empty, the reduced form read
/// between them — deltas as numbers, each density matrix as the string it is the
/// expectation of — gives what the string gives. It is stated for strings whose normal
/// form has no term with deltas and a nonempty string that reduces to nothing: there
/// the reduction keeps the deltas alone, where the string is zero.
pub proof fn law_reference_reduction_is_exact(
    ops: Seq<SpecOp>,
    orb: spec_fn(SpecIndex) -> int,
    core: spec_fn(int) -> bool,
    virt: spec_fn(int) -> bool,
    d: Set<int>,
    e: Set<int>,
)
    requires
        reference_form(ops) is Ok,
        no_deltas_outlive_strings(ops),
        fits_spaces(orb, core, virt),
        in_reference_space(d, core, virt),
        in_reference_space(e, core, virt),
    ensures
        tensor_value(reference_form(ops)->Ok_0, orb, d, e) == amplitude(ops, orb, d, e),
{
    let ts = normal_ordered(ops);
    assert(ops.len() > 0);
    law_normal_ordering_preserves_action(ops, orb, d, e);
    let raw = normal_order_terms(1, Seq::empty(), ops);
    lemma_expansion_lengths(1, Seq::empty(), ops);
    let n = ops.len();
    let p = |ds: Seq<SpecDelta>, pr: Seq<SpecOp>| pr.len() + 2 * ds.len() == n;
    assert forall|i: int| 0 <= i < raw.len() implies p(#[trigger] raw[i].deltas, raw[i].product) by {
        assert(raw[i].product.len() + 2 * raw[i].deltas.len() == n + 2 * Seq::<SpecDelta>::empty().len());
    }
    lemma_combine_keeps_shapes(raw, p);
    assert forall|i: int| 0 <= i < ts.len() implies (#[trigger] ts[i]).product.len() > 0
        || ts[i].deltas.len() > 0 by {
        assert(p(ts[i].deltas, ts[i].product));
    }
    assert(reduce_terms(ts) is Ok);
    lemma_reduce_terms_value(ts, orb, core, virt, d, e);
    lemma_reduce_terms_no_sums(ts);
    lemma_collapse_value(reduce_terms(ts)->Ok_0, orb, d, e);
}

// ---------------------------------------------------------------------------
// Matrix elements, traces, deltas, repeated operators
// ---------------------------------------------------------------------------
/// A matrix element is the expectation value of its left string, its Hamiltonian
/// string, whatever its length, and its right string, concatenated: the reduced forms
/// agree, and so does the string itself.
pub proof fn law_matrix_element_concatenates(m: SpecMatrixElement)
    ensures
        matrix_element_ops(m) == m.left + match m.hamiltonian {
            Some(h) => h,
            None => Seq::<SpecOp>::empty(),
        } + m.right,
        matrix_element_ops(m).len() == m.left.len() + match m.hamiltonian {
            Some(h) => h.len(),
            None => 0,
        } + m.right.len(),
        input_form(SpecInput::MatrixElement(m)) == input_form(
            SpecInput::Expectation(
                m.left + match m.hamiltonian {
                    Some(h) => h,
                    None => Seq::<SpecOp>::empty(),
                } + m.right,
            ),
        ),
{
}

/// The stages of a trace are those of the pipeline: the normal-ordered stage is the
/// normal-ordered form of the string, whose terms are normal-ordered, have nonzero
/// coefficients and act on determinants as the string does; the reduced terms are
/// the reductions of exactly those terms; the final form collapses them.
pub proof fn law_trace_stages(ops: Seq<SpecOp>, orb: spec_fn(SpecIndex) -> int, d: Set<int>, e: Set<int>)
    requires
        reference_trace(ops) is Ok,
        d.finite(),
    ensures
        reference_trace(ops)->Ok_0.normal_ordered == normal_ordered(ops),
        forall|i: int|
            0 <= i < reference_trace(ops)->Ok_0.normal_ordered.len() ==> is_normal_string(
                #[trigger] reference_trace(ops)->Ok_0.normal_ordered[i].product,
            ) && reference_trace(ops)->Ok_0.normal_ordered[i].coefficient != 0,
        expression_amplitude(reference_trace(ops)->Ok_0.normal_ordered, orb, d, e) == amplitude(
            ops,
            orb,
            d,
            e,
        ),
        reduce_terms(reference_trace(ops)->Ok_0.normal_ordered) == Ok::<
            Seq<SpecSigned>,
            crate::reference::TensorSimplifyError,
        >(reference_trace(ops)->Ok_0.reduced_terms),
        reference_trace(ops)->Ok_0.final_form == collapse(reference_trace(ops)->Ok_0.reduced_terms),
{
    law_normal_ordered_terms_are_normal(ops);
    law_normal_ordering_preserves_action(ops, orb, d, e);
}

/// No term of a normal-ordered form holds the same operator, of one kind on one index,
/// twice in a row: such a pair is zero, whether two creators or two annihilators.
pub proof fn law_no_repeated_adjacent_operator(ops: Seq<SpecOp>)
    ensures
        forall|i: int, k: int|
            0 <= i < normal_ordered(ops).len() && 0 <= k < normal_ordered(ops)[i].product.len() - 1
                ==> (#[trigger] normal_ordered(ops)[i].product[k]) != normal_ordered(ops)[i].product[k
                + 1],
{
    law_normal_ordered_terms_are_normal(ops);
    assert forall|i: int, k: int|
        0 <= i < normal_ordered(ops).len() && 0 <= k < normal_ordered(ops)[i].product.len() - 1
            implies (#[trigger] normal_ordered(ops)[i].product[k]) != normal_ordered(ops)[i].product[k
            + 1] by {
        let p = normal_ordered(ops)[i].product;
        assert(is_normal_string(p));
        assert(pair_rewrite(k, p[k], p[k + 1]) is None);
    }
}

/// Simplifying a delta keeps its value: under every assignment of orbitals that
/// respects the spaces, it is one between equal determinants where the two indices
/// name one orbital and zero elsewhere; it is zero for every assignment only when the
/// indices lie in different fixed spaces.
pub proof fn law_delta_keeps_value(
    d: crate::constraints::SpecDelta,
    orb: spec_fn(SpecIndex) -> int,
    core: spec_fn(int) -> bool,
    virt: spec_fn(int) -> bool,
    d1: Set<int>,
    e: Set<int>,
)
    requires
        fits_spaces(orb, core, virt),
    ensures
        tensor_value(delta_form(d), orb, d1, e) == if orb(d.left) == orb(d.right) {
            amplitude(Seq::<SpecOp>::empty(), orb, d1, e)
        } else {
            0
        },
        tensor_value(delta_form(d), orb, d1, d1) == if orb(d.left) == orb(d.right) {
            1int
        } else {
            0int
        },
{
    let id = amplitude(Seq::<SpecOp>::empty(), orb, d1, e);
    assert(amplitude(Seq::<SpecOp>::empty(), orb, d1, d1) == 1);
    if crate::constraints::spaces_contradict(d.left.space, d.right.space) {
        assert(orb(d.left) == orb(d.left) && orb(d.right) == orb(d.right));
        assert(orb(d.left) != orb(d.right));
        assert(crate::reference_model::tensor_scalar(SpecTensor::Zero, orb) == 0);
    } else {
        let t = SpecTensor::Delta(d.left, d.right);
        assert(crate::reference_model::tensor_string(t) == Seq::<SpecOp>::empty());
        if orb(d.left) == orb(d.right) {
            assert(crate::reference_model::tensor_scalar(t, orb) == 1);
        } else {
            assert(crate::reference_model::tensor_scalar(t, orb) == 0);
        }
    }
}

// ---------------------------------------------------------------------------
// Orders of unresolved structure
// ---------------------------------------------------------------------------
/// The number of creators in a string.
pub open spec fn creator_count(ops: Seq<SpecOp>) -> nat
    decreases ops.len(),
{
    if ops.len() == 0 {
        0
    } else {
        creator_count(ops.drop_last()) + if ops.last().kind == FermionOpKind::Create {
            1nat
        } else {
            0nat
        }
    }
}

/// Unresolved structure records as its order the number of creators in its fragment,
/// which is half the fragment's length; other tensors record no order.
pub open spec fn order_matches(t: SpecTensor) -> bool {
    match t {
        SpecTensor::HigherRdm { min_order, product } => min_order == creator_count(product) && 2
            * min_order == product.len(),
        _ => true,
    }
}

/// Every unresolved structure in the tensor, inside products and sums too, records
/// its order rightly.
pub open spec fn orders_match(t: SpecTensor) -> bool
    decreases t, 0nat,
{
    match t {
        SpecTensor::Product(fs) => factors_match(fs, fs.len()),
        SpecTensor::Sum(ts) => signed_match(ts, ts.len()),
        _ => order_matches(t),
    }
}

/// The first `n` factors all record their orders rightly.
pub open spec fn factors_match(fs: Seq<SpecTensor>, n: nat) -> bool
    decreases fs, n,
{
    if n == 0 || n > fs.len() {
        true
    } else {
        factors_match(fs, (n - 1) as nat) && orders_match(fs[n - 1])
    }
}

/// The first `n` signed terms all record their orders rightly.
pub open spec fn signed_match(ts: Seq<SpecSigned>, n: nat) -> bool
    decreases ts, n,
{
    if n == 0 || n > ts.len() {
        true
    } else {
        proof {
            assert(decreases_to!(ts => ts[n - 1]));
        }
        signed_match(ts, (n - 1) as nat) && orders_match(ts[n - 1].term)
    }
}

proof fn lemma_factors_match_all(fs: Seq<SpecTensor>, n: nat)
    requires
        n <= fs.len(),
    ensures
        factors_match(fs, n) == forall|i: int| 0 <= i < n ==> orders_match(#[trigger] fs[i]),
    decreases n,
{
    if n > 0 {
        lemma_factors_match_all(fs, (n - 1) as nat);
    }
}

proof fn lemma_signed_match_all(ts: Seq<SpecSigned>, n: nat)
    requires
        n <= ts.len(),
    ensures
        signed_match(ts, n) == forall|i: int| 0 <= i < n ==> orders_match(#[trigger] ts[i].term),
    decreases n,
{
    if n > 0 {
        lemma_signed_match_all(ts, (n - 1) as nat);
    }
}

/// All signed terms of the list record their orders rightly.
spec fn all_match(r: Seq<SpecSigned>) -> bool {
    forall|i: int| 0 <= i < r.len() ==> orders_match(#[trigger] r[i].term)
}

/// In a string of `k` creators then annihilators, a prefix of `m` operators holds
/// `min(m, k)` creators.
proof fn lemma_creator_prefix(s: Seq<SpecOp>, k: int, m: int)
    requires
        0 <= k <= s.len(),
        0 <= m <= s.len(),
        forall|i: int| 0 <= i < k ==> #[trigger] s[i].kind == FermionOpKind::Create,
        forall|i: int| k <= i < s.len() ==> #[trigger] s[i].kind == FermionOpKind::Annihilate,
    ensures
        creator_count(s.take(m)) == if m <= k {
            m
        } else {
            k
        },
    decreases m,
{
    if m > 0 {
        lemma_creator_prefix(s, k, m - 1);
        assert(s.take(m).drop_last() =~= s.take(m - 1));
        assert(s.take(m).last() == s[m - 1]);
    } else {
        assert(s.take(0) =~= Seq::<SpecOp>::empty());
    }
}

proof fn lemma_product_two_match(f: SpecTensor, g: SpecTensor)
    requires
        orders_match(f),
        orders_match(g),
    ensures
        orders_match(SpecTensor::Product(seq![f, g])),
{
    lemma_factors_match_all(seq![f, g], 2);
}

/// Reducing a string records the order of unresolved structure rightly, and its
/// fragment is the string itself.
pub proof fn law_higher_rdm_fragment(s: Seq<SpecOp>)
    requires
        reduce_product(s) is Ok,
    ensures
        forall|i: int|
            0 <= i < reduce_product(s)->Ok_0.len() ==> orders_match(
                #[trigger] reduce_product(s)->Ok_0[i].term,
            ),
        forall|i: int|
            0 <= i < reduce_product(s)->Ok_0.len() && reduce_product(s)->Ok_0[i].term is HigherRdm
                ==> (#[trigger] reduce_product(s)->Ok_0[i].term)->product == s && 2 * creator_count(
                s,
            ) == s.len(),
{
    let r = reduce_product(s)->Ok_0;
    if s.len() == 4 && !crate::reference::touches_space(s, IndexSpace::Virtual) {
        assert forall|i: int| 0 <= i < r.len() implies orders_match(#[trigger] r[i].term) by {
            match r[i].term {
                SpecTensor::Product(fs) => {
                    assert(fs.len() == 2);
                    assert(fs =~= seq![fs[0], fs[1]]);
                    lemma_product_two_match(fs[0], fs[1]);
                },
                _ => {},
            }
        }
    }
    if s.len() > 4 && s.len() % 2 == 0 && r.len() > 0 && r[0].term is HigherRdm {
        let k = (s.len() / 2) as int;
        assert(r[0].term == SpecTensor::HigherRdm { min_order: k as nat, product: s });
        lemma_creator_prefix(s, k, s.len() as int);
        assert(s.take(s.len() as int) =~= s);
    }
}

proof fn lemma_reduce_term_match(t: SpecTerm)
    requires
        reduce_term(t) is Ok,
    ensures
        all_match(reduce_term(t)->Ok_0),
{
    let res = reduce_term(t)->Ok_0;
    if !crate::reference::has_contradiction(t.deltas) {
        let residual = reduce_product(t.product)->Ok_0;
        law_higher_rdm_fragment(t.product);
        let df = delta_factors(t.deltas);
        if residual.len() == 0 {
            if t.deltas.len() > 0 {
                lemma_factors_match_all(df, df.len());
                assert(res == seq![crate::reference::signed(t.coefficient, assemble(df))]);
                if df.len() != 1 {
                    assert(orders_match(SpecTensor::Product(df)));
                }
            }
        } else {
            assert forall|i: int| 0 <= i < res.len() implies orders_match(#[trigger] res[i].term) by {
                let fs = df.push(residual[i].term);
                assert(orders_match(residual[i].term));
                if t.deltas.len() == 0 {
                    assert(fs =~= seq![residual[i].term]);
                } else {
                    assert forall|j: int| 0 <= j < fs.len() implies orders_match(#[trigger] fs[j]) by {
                        if j < df.len() {
                            assert(fs[j] == df[j]);
                        }
                    }
                    lemma_factors_match_all(fs, fs.len());
                }
            }
        }
    }
}

proof fn lemma_reduce_terms_match(ts: Seq<SpecTerm>)
    requires
        reduce_terms(ts) is Ok,
    ensures
        all_match(reduce_terms(ts)->Ok_0),
    decreases ts.len(),
{
    if ts.len() > 0 {
        lemma_reduce_term_match(ts[0]);
        lemma_reduce_terms_match(ts.drop_first());
        let a = reduce_term(ts[0])->Ok_0;
        let b = reduce_terms(ts.drop_first())->Ok_0;
        assert forall|i: int| 0 <= i < (a + b).len() implies orders_match(#[trigger] (a + b)[i].term) by {
            if i < a.len() {
                assert((a + b)[i] == a[i]);
            } else {
                assert((a + b)[i] == b[i - a.len()]);
            }
        }
    }
}

proof fn lemma_drop_zero_match(s: Seq<SpecSigned>)
    requires
        all_match(s),
    ensures
        all_match(drop_zero_signed(s)),
    decreases s.len(),
{
    if s.len() > 0 {
        let q = s.drop_last();
        assert forall|i: int| 0 <= i < q.len() implies orders_match(#[trigger] q[i].term) by {
            assert(q[i] == s[i]);
        }
        lemma_drop_zero_match(q);
        let z = drop_zero_signed(q);
        let r = drop_zero_signed(s);
        assert(orders_match(s[s.len() - 1].term));
        if s.last().coefficient != 0 {
            assert(r == z.push(s.last()));
            assert forall|i: int| 0 <= i < r.len() implies orders_match(#[trigger] r[i].term) by {
                if i < z.len() {
                    assert(r[i] == z[i]);
                }
            }
        }
    }
}

/// The simplified form of any string records the order of every unresolved structure
/// rightly: the number of creators of its fragment, half the fragment's length (a
/// string of `n` creators and `n` annihilators is an `n`-body density matrix).
pub proof fn law_higher_rdm_order(ops: Seq<SpecOp>)
    requires
        reference_form(ops) is Ok,
    ensures
        orders_match(reference_form(ops)->Ok_0),
{
    let ts = normal_ordered(ops);
    lemma_reduce_terms_match(ts);
    let r = reduce_terms(ts)->Ok_0;
    lemma_drop_zero_match(r);
    let kept = drop_zero_signed(r);
    lemma_signed_match_all(kept, kept.len());
}

} // verus!
