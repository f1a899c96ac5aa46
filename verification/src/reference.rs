//! Reduction of expectation values and matrix elements in a CAS reference state into
//! deltas, reduced density matrices and unresolved higher-order structure.
use vstd::prelude::*;
use vstd::string::StringExecFns;

use crate::ast::{
    FermionOp, FermionOpKind, Index, IndexSpace, OperatorProduct, SpecIndex, SpecOp, render_product,
};
use crate::constraints::{DeltaConstraint, SpecDelta, spaces_contradict};
use crate::rewrite::{
    NormalOrderedExpr, NormalOrderedTerm, SimplifyConfig, SpecTerm, like_terms_fit,
    like_terms_fit_check, normal_order_product, normal_ordered,
};
use crate::sorting::{lemma_views_index, lemma_views_len, lemma_views_push, views};
use crate::text::{Order, append_decimal, compare_text, decimal_text, lex_order};

verus! {

/// The CAS reference state: core orbitals filled, virtual orbitals empty, active
/// orbitals described by reduced density matrices.
#[derive(Debug, Clone, Copy, PartialEq, Eq, Structural)]
pub struct CasReference;

impl Default for CasReference {
    fn default() -> (res: Self)
        ensures
            res == CasReference,
    {
        CasReference
    }
}

impl CasReference {
    pub fn new() -> (res: Self)
        ensures
            res == CasReference,
    {
        CasReference
    }
}

/// A tensor expression as a value.
pub enum SpecTensor {
    Zero,
    Delta(SpecIndex, SpecIndex),
    Gamma(SpecIndex, SpecIndex),
    Gamma2(SpecIndex, SpecIndex, SpecIndex, SpecIndex),
    Product(Seq<SpecTensor>),
    Sum(Seq<SpecSigned>),
    HigherRdm { min_order: nat, product: Seq<SpecOp> },
}

/// A signed tensor expression as a value.
pub struct SpecSigned {
    pub coefficient: int,
    pub term: SpecTensor,
}

/// A tensor expression in deltas, one- and two-body reduced density matrices, and
/// unresolved higher-order structure.
#[derive(Debug, PartialEq, Eq)]
pub enum TensorTerm {
    Zero,
    Delta(Index, Index),
    Gamma(Index, Index),
    Gamma2(Index, Index, Index, Index),
    Product(Vec<TensorTerm>),
    Sum(Vec<SignedTensorTerm>),
    HigherRdm { min_order: usize, product: OperatorProduct },
}

/// A tensor expression with a small integer coefficient.
#[derive(Debug, PartialEq, Eq)]
pub struct SignedTensorTerm {
    coefficient: i8,
    term: TensorTerm,
}

pub closed spec fn tensor_view(t: TensorTerm) -> SpecTensor
    decreases t,
{
    match t {
        TensorTerm::Zero => SpecTensor::Zero,
        TensorTerm::Delta(l, r) => SpecTensor::Delta(l@, r@),
        TensorTerm::Gamma(l, r) => SpecTensor::Gamma(l@, r@),
        TensorTerm::Gamma2(a, b, c, d) => SpecTensor::Gamma2(a@, b@, c@, d@),
        TensorTerm::Product(factors) => SpecTensor::Product(tensor_seq_view(factors@)),
        TensorTerm::Sum(terms) => SpecTensor::Sum(signed_seq_view(terms@)),
        TensorTerm::HigherRdm { min_order, product } => SpecTensor::HigherRdm {
            min_order: min_order as nat,
            product: product@,
        },
    }
}

pub closed spec fn tensor_seq_view(s: Seq<TensorTerm>) -> Seq<SpecTensor>
    decreases s,
{
    if s.len() == 0 {
        Seq::empty()
    } else {
        tensor_seq_view(s.subrange(0, s.len() - 1)).push(tensor_view(s[s.len() - 1]))
    }
}

pub closed spec fn signed_view(s: SignedTensorTerm) -> SpecSigned
    decreases s,
{
    SpecSigned { coefficient: s.coefficient as int, term: tensor_view(s.term) }
}

pub closed spec fn signed_seq_view(s: Seq<SignedTensorTerm>) -> Seq<SpecSigned>
    decreases s,
{
    if s.len() == 0 {
        Seq::empty()
    } else {
        signed_seq_view(s.subrange(0, s.len() - 1)).push(signed_view(s[s.len() - 1]))
    }
}

pub proof fn lemma_tensor_seq_view(s: Seq<TensorTerm>)
    ensures
        tensor_seq_view(s).len() == s.len(),
        forall|i: int| 0 <= i < s.len() ==> #[trigger] tensor_seq_view(s)[i] == tensor_view(s[i]),
    decreases s.len(),
{
    if s.len() > 0 {
        lemma_tensor_seq_view(s.subrange(0, s.len() - 1));
    }
}

pub proof fn lemma_tensor_seq_push(s: Seq<TensorTerm>, x: TensorTerm)
    ensures
        tensor_seq_view(s.push(x)) == tensor_seq_view(s).push(tensor_view(x)),
{
    assert(s.push(x).subrange(0, s.len() as int) =~= s);
}

pub proof fn lemma_signed_seq_view(s: Seq<SignedTensorTerm>)
    ensures
        signed_seq_view(s).len() == s.len(),
        forall|i: int| 0 <= i < s.len() ==> #[trigger] signed_seq_view(s)[i] == signed_view(s[i]),
    decreases s.len(),
{
    if s.len() > 0 {
        lemma_signed_seq_view(s.subrange(0, s.len() - 1));
    }
}

pub proof fn lemma_signed_seq_push(s: Seq<SignedTensorTerm>, x: SignedTensorTerm)
    ensures
        signed_seq_view(s.push(x)) == signed_seq_view(s).push(signed_view(x)),
{
    assert(s.push(x).subrange(0, s.len() as int) =~= s);
}

pub proof fn lemma_signed_seq_remove_first(s: Seq<SignedTensorTerm>)
    requires
        s.len() > 0,
    ensures
        signed_seq_view(s.remove(0)) == signed_seq_view(s).drop_first(),
        signed_seq_view(s)[0] == signed_view(s[0]),
{
    lemma_signed_seq_view(s);
    lemma_signed_seq_view(s.remove(0));
    assert(signed_seq_view(s.remove(0)) =~= signed_seq_view(s).drop_first());
}

impl View for TensorTerm {
    type V = SpecTensor;

    closed spec fn view(&self) -> SpecTensor {
        tensor_view(*self)
    }
}

impl View for SignedTensorTerm {
    type V = SpecSigned;

    closed spec fn view(&self) -> SpecSigned {
        signed_view(*self)
    }
}

/// The views of a list of signed tensor terms.
pub closed spec fn signed_list_view(v: Vec<SignedTensorTerm>) -> Seq<SpecSigned> {
    signed_seq_view(v@)
}

fn clone_tensor(t: &TensorTerm) -> (res: TensorTerm)
    ensures
        tensor_view(res) == tensor_view(*t),
    decreases t,
{
    match t {
        TensorTerm::Zero => TensorTerm::Zero,
        TensorTerm::Delta(l, r) => TensorTerm::Delta(l.clone(), r.clone()),
        TensorTerm::Gamma(l, r) => TensorTerm::Gamma(l.clone(), r.clone()),
        TensorTerm::Gamma2(a, b, c, d) => TensorTerm::Gamma2(
            a.clone(),
            b.clone(),
            c.clone(),
            d.clone(),
        ),
        TensorTerm::Product(factors) => TensorTerm::Product(clone_tensor_vec(factors)),
        TensorTerm::Sum(terms) => TensorTerm::Sum(clone_signed_vec(terms)),
        TensorTerm::HigherRdm { min_order, product } => TensorTerm::HigherRdm {
            min_order: *min_order,
            product: product.clone(),
        },
    }
}

fn clone_tensor_vec(v: &Vec<TensorTerm>) -> (res: Vec<TensorTerm>)
    ensures
        tensor_seq_view(res@) == tensor_seq_view(v@),
    decreases v,
{
    let mut out: Vec<TensorTerm> = Vec::new();
    let mut i: usize = 0;
    proof {
        lemma_tensor_seq_view(v@);
        assert(out@ =~= v@.take(0));
    }
    while i < v.len()
        invariant
            i <= v.len(),
            tensor_seq_view(out@) == tensor_seq_view(v@.take(i as int)),
        decreases v.len() - i,
    {
        proof {
            assert(decreases_to!(v => v@[i as int]));
        }
        let c = clone_tensor(&v[i]);
        proof {
            lemma_tensor_seq_push(out@, c);
            lemma_tensor_seq_push(v@.take(i as int), v@[i as int]);
            assert(v@.take(i + 1) =~= v@.take(i as int).push(v@[i as int]));
        }
        out.push(c);
        i = i + 1;
    }
    assert(v@.take(i as int) =~= v@);
    out
}

fn clone_signed(s: &SignedTensorTerm) -> (res: SignedTensorTerm)
    ensures
        signed_view(res) == signed_view(*s),
    decreases s,
{
    SignedTensorTerm { coefficient: s.coefficient, term: clone_tensor(&s.term) }
}

fn clone_signed_vec(v: &Vec<SignedTensorTerm>) -> (res: Vec<SignedTensorTerm>)
    ensures
        signed_seq_view(res@) == signed_seq_view(v@),
    decreases v,
{
    let mut out: Vec<SignedTensorTerm> = Vec::new();
    let mut i: usize = 0;
    proof {
        assert(out@ =~= v@.take(0));
    }
    while i < v.len()
        invariant
            i <= v.len(),
            signed_seq_view(out@) == signed_seq_view(v@.take(i as int)),
        decreases v.len() - i,
    {
        proof {
            assert(decreases_to!(v => v@[i as int]));
        }
        let c = clone_signed(&v[i]);
        proof {
            lemma_signed_seq_push(out@, c);
            lemma_signed_seq_push(v@.take(i as int), v@[i as int]);
            assert(v@.take(i + 1) =~= v@.take(i as int).push(v@[i as int]));
        }
        out.push(c);
        i = i + 1;
    }
    assert(v@.take(i as int) =~= v@);
    out
}

impl Clone for TensorTerm {
    fn clone(&self) -> (res: Self)
        ensures
            res@ == self@,
    {
        clone_tensor(self)
    }
}

impl Clone for SignedTensorTerm {
    fn clone(&self) -> (res: Self)
        ensures
            res@ == self@,
    {
        clone_signed(self)
    }
}

impl SignedTensorTerm {
    pub fn new(coefficient: i8, term: TensorTerm) -> (res: Self)
        ensures
            res@ == (SpecSigned { coefficient: coefficient as int, term: term@ }),
    {
        SignedTensorTerm { coefficient, term }
    }

    pub fn coefficient(&self) -> (res: i8)
        ensures
            res as int == self@.coefficient,
    {
        self.coefficient
    }

    pub fn term(&self) -> (res: &TensorTerm)
        ensures
            res@ == self@.term,
    {
        &self.term
    }
}

/// The result of reducing an expression in the reference state.
#[derive(Debug, PartialEq, Eq)]
pub struct SimplifiedTensorForm {
    term: TensorTerm,
}

impl View for SimplifiedTensorForm {
    type V = SpecTensor;

    closed spec fn view(&self) -> SpecTensor {
        self.term@
    }
}

impl Clone for SimplifiedTensorForm {
    fn clone(&self) -> (res: Self)
        ensures
            res@ == self@,
    {
        SimplifiedTensorForm { term: self.term.clone() }
    }
}

impl SimplifiedTensorForm {
    pub fn new(term: TensorTerm) -> (res: Self)
        ensures
            res@ == term@,
    {
        SimplifiedTensorForm { term }
    }

    pub fn term(&self) -> (res: &TensorTerm)
        ensures
            res@ == self@,
    {
        &self.term
    }
}

/// Why an expression could not be reduced in the reference state.
#[derive(Debug, Clone, Copy, PartialEq, Eq, Structural)]
pub enum TensorSimplifyError {
    UnsupportedOperatorRank,
    UnsupportedReferenceCase,
}

// ---------------------------------------------------------------------------
// Reduction of one normal-ordered string
// ---------------------------------------------------------------------------
/// A pair of adjacent operators in the order that reduction accepts: creator before
/// annihilator, or two of one kind with symbols in order.
pub open spec fn pair_in_reference_order(x: SpecOp, y: SpecOp) -> bool {
    if x.kind == FermionOpKind::Create && y.kind == FermionOpKind::Annihilate {
        true
    } else if x.kind == FermionOpKind::Annihilate && y.kind == FermionOpKind::Create {
        false
    } else {
        lex_order(x.index.symbol, y.index.symbol) != Order::Greater
    }
}

/// Every adjacent pair of the string is in the order that reduction accepts.
pub open spec fn in_reference_order(ops: Seq<SpecOp>) -> bool {
    forall|i: int| 0 <= i < ops.len() - 1 ==> #[trigger] pair_in_reference_order(ops[i], ops[i + 1])
}

/// Some operator of the string has an index in `space`.
pub open spec fn touches_space(ops: Seq<SpecOp>, space: IndexSpace) -> bool {
    exists|i: int| 0 <= i < ops.len() && #[trigger] ops[i].index.space == space
}

/// The positions `lo <= i < hi` whose operator has an index in `space`, ascending.
pub open spec fn positions_in(ops: Seq<SpecOp>, lo: int, hi: int, space: IndexSpace) -> Seq<int>
    decreases hi - lo,
{
    if lo >= hi {
        Seq::empty()
    } else if ops[lo].index.space == space {
        seq![lo] + positions_in(ops, lo + 1, hi, space)
    } else {
        positions_in(ops, lo + 1, hi, space)
    }
}

/// The number of elements of `s` smaller than `x`.
pub open spec fn count_smaller(x: int, s: Seq<int>) -> nat
    decreases s.len(),
{
    if s.len() == 0 {
        0
    } else {
        (if x > s[0] {
            1nat
        } else {
            0nat
        }) + count_smaller(x, s.drop_first())
    }
}

/// The number of pairs `i < j` with `s[i] > s[j]`.
pub open spec fn inversion_count(s: Seq<int>) -> nat
    decreases s.len(),
{
    if s.len() == 0 {
        0
    } else {
        count_smaller(s[0], s.drop_first()) + inversion_count(s.drop_first())
    }
}

/// The sign of the permutation that sorts `s`: 1 for an even number of inversions,
/// -1 for an odd one.
pub open spec fn permutation_sign_of(s: Seq<int>) -> int {
    if inversion_count(s) % 2 == 0 {
        1
    } else {
        -1
    }
}

pub open spec fn signed(coefficient: int, term: SpecTensor) -> SpecSigned {
    SpecSigned { coefficient, term }
}

/// The reduction of a one-body string `a†(p) a(q)`: delta for two core indices, gamma
/// for two active indices, zero for other fixed spaces; General indices and other
/// kinds are not supported.
pub open spec fn one_body_reduction(ops: Seq<SpecOp>) -> Result<Seq<SpecSigned>, TensorSimplifyError> {
    let left = ops[0].index;
    let right = ops[1].index;
    if ops[0].kind != FermionOpKind::Create || ops[1].kind != FermionOpKind::Annihilate {
        Err(TensorSimplifyError::UnsupportedReferenceCase)
    } else if left.space == IndexSpace::General || right.space == IndexSpace::General {
        Err(TensorSimplifyError::UnsupportedReferenceCase)
    } else if left.space == IndexSpace::Core && right.space == IndexSpace::Core {
        Ok(seq![signed(1, SpecTensor::Delta(left, right))])
    } else if left.space == IndexSpace::Active && right.space == IndexSpace::Active {
        Ok(seq![signed(1, SpecTensor::Gamma(left, right))])
    } else {
        Ok(Seq::empty())
    }
}

/// The reduction of a two-body string `a†(p) a†(q) a(r) a(s)`: Gamma for four active
/// indices, the antisymmetrised delta pair for four core indices, a signed delta times
/// gamma for one core and one active index on each side, and zero otherwise; General
/// indices and other kinds are not supported.
pub open spec fn two_body_reduction(ops: Seq<SpecOp>) -> Result<Seq<SpecSigned>, TensorSimplifyError> {
    if !(ops[0].kind == FermionOpKind::Create && ops[1].kind == FermionOpKind::Create
        && ops[2].kind == FermionOpKind::Annihilate && ops[3].kind
        == FermionOpKind::Annihilate) {
        Err(TensorSimplifyError::UnsupportedReferenceCase)
    } else if touches_space(ops, IndexSpace::General) {
        Err(TensorSimplifyError::UnsupportedReferenceCase)
    } else {
        let cc = positions_in(ops, 0, 2, IndexSpace::Core);
        let ca = positions_in(ops, 2, 4, IndexSpace::Core);
        let ac = positions_in(ops, 0, 2, IndexSpace::Active);
        let aa = positions_in(ops, 2, 4, IndexSpace::Active);
        if ac.len() == 2 && aa.len() == 2 {
            Ok(
                seq![signed(
                    1,
                    SpecTensor::Gamma2(ops[0].index, ops[1].index, ops[2].index, ops[3].index),
                )],
            )
        } else if cc.len() == 2 && ca.len() == 2 {
            Ok(
                seq![
                    signed(
                        1,
                        SpecTensor::Product(
                            seq![
                                SpecTensor::Delta(ops[0].index, ops[3].index),
                                SpecTensor::Delta(ops[1].index, ops[2].index),
                            ],
                        ),
                    ),
                    signed(
                        -1,
                        SpecTensor::Product(
                            seq![
                                SpecTensor::Delta(ops[0].index, ops[2].index),
                                SpecTensor::Delta(ops[1].index, ops[3].index),
                            ],
                        ),
                    ),
                ],
            )
        } else if cc.len() == 1 && ca.len() == 1 && ac.len() == 1 && aa.len() == 1 {
            Ok(
                seq![signed(
                    permutation_sign_of(seq![cc[0], ca[0], ac[0], aa[0]]),
                    SpecTensor::Product(
                        seq![
                            SpecTensor::Delta(ops[cc[0]].index, ops[ca[0]].index),
                            SpecTensor::Gamma(ops[ac[0]].index, ops[aa[0]].index),
                        ],
                    ),
                )],
            )
        } else {
            Ok(Seq::empty())
        }
    }
}

/// The reduction of a longer string with `order` creators then `order` annihilators,
/// all active: an unresolved reduced density matrix of that order; anything else is
/// not supported.
pub open spec fn higher_body_reduction(ops: Seq<SpecOp>, order: int) -> Result<
    Seq<SpecSigned>,
    TensorSimplifyError,
> {
    if (forall|i: int| 0 <= i < order ==> #[trigger] ops[i].kind == FermionOpKind::Create) && (
    forall|i: int| order <= i < ops.len() ==> #[trigger] ops[i].kind == FermionOpKind::Annihilate)
        && (forall|i: int| 0 <= i < ops.len() ==> #[trigger] ops[i].index.space == IndexSpace::Active) {
        Ok(seq![signed(1, SpecTensor::HigherRdm { min_order: order as nat, product: ops })])
    } else {
        Err(TensorSimplifyError::UnsupportedReferenceCase)
    }
}

/// The reduction of a normal-ordered string in the reference state: nothing for the
/// empty string, zero when an index is virtual, and the one-body, two-body or
/// higher-body rule by length; odd lengths are not supported, nor strings whose
/// adjacent pairs are out of order.
pub open spec fn reduce_product(ops: Seq<SpecOp>) -> Result<Seq<SpecSigned>, TensorSimplifyError> {
    if ops.len() == 0 {
        Ok(Seq::empty())
    } else if !in_reference_order(ops) {
        Err(TensorSimplifyError::UnsupportedReferenceCase)
    } else if touches_space(ops, IndexSpace::Virtual) {
        Ok(Seq::empty())
    } else if ops.len() == 2 {
        one_body_reduction(ops)
    } else if ops.len() == 4 {
        two_body_reduction(ops)
    } else if ops.len() % 2 == 0 {
        higher_body_reduction(ops, (ops.len() / 2) as int)
    } else {
        Err(TensorSimplifyError::UnsupportedOperatorRank)
    }
}

/// The view of an executable reduction result.
pub closed spec fn signed_result_view(r: Result<Vec<SignedTensorTerm>, TensorSimplifyError>) -> Result<
    Seq<SpecSigned>,
    TensorSimplifyError,
> {
    match r {
        Ok(v) => Ok(signed_seq_view(v@)),
        Err(e) => Err(e),
    }
}

fn one_signed(term: SignedTensorTerm) -> (res: Vec<SignedTensorTerm>)
    ensures
        signed_seq_view(res@) == seq![signed_view(term)],
{
    let ghost t = term;
    let res = vec![term];
    proof {
        lemma_signed_seq_view(res@);
        assert(signed_seq_view(res@) =~= seq![signed_view(t)]);
    }
    res
}

fn no_signed() -> (res: Vec<SignedTensorTerm>)
    ensures
        signed_seq_view(res@) == Seq::<SpecSigned>::empty(),
{
    let res: Vec<SignedTensorTerm> = Vec::new();
    proof {
        lemma_signed_seq_view(res@);
        assert(signed_seq_view(res@) =~= Seq::<SpecSigned>::empty());
    }
    res
}

fn product_of_two(first: TensorTerm, second: TensorTerm) -> (res: TensorTerm)
    ensures
        res@ == SpecTensor::Product(seq![first@, second@]),
{
    let ghost f = first;
    let ghost g = second;
    let v = vec![first, second];
    proof {
        lemma_tensor_seq_view(v@);
        assert(tensor_seq_view(v@) =~= seq![tensor_view(f), tensor_view(g)]);
    }
    TensorTerm::Product(v)
}

fn reduce_one_body_product(ops: &[FermionOp]) -> (res: Result<Vec<SignedTensorTerm>, TensorSimplifyError>)
    requires
        ops@.len() == 2,
    ensures
        signed_result_view(res) == one_body_reduction(views(ops@)),
{
    proof {
        lemma_views_index(ops@, 0);
        lemma_views_index(ops@, 1);
    }
    if ops[0].kind() != FermionOpKind::Create || ops[1].kind() != FermionOpKind::Annihilate {
        return Err(TensorSimplifyError::UnsupportedReferenceCase);
    }
    let left = ops[0].index().clone();
    let right = ops[1].index().clone();
    if left.space() == IndexSpace::General || right.space() == IndexSpace::General {
        return Err(TensorSimplifyError::UnsupportedReferenceCase);
    }
    match (left.space(), right.space()) {
        (IndexSpace::Core, IndexSpace::Core) => Ok(
            one_signed(SignedTensorTerm::new(1, TensorTerm::Delta(left, right))),
        ),
        (IndexSpace::Active, IndexSpace::Active) => Ok(
            one_signed(SignedTensorTerm::new(1, TensorTerm::Gamma(left, right))),
        ),
        _ => Ok(no_signed()),
    }
}

fn positions_for_space(ops: &[FermionOp], lo: usize, hi: usize, space: IndexSpace) -> (res: Vec<
    usize,
>)
    requires
        lo <= hi <= ops@.len(),
    ensures
        res@.map_values(|i: usize| i as int) == positions_in(views(ops@), lo as int, hi as int, space),
        forall|k: int| 0 <= k < res@.len() ==> lo <= #[trigger] res@[k] < hi,
{
    let ghost s = views(ops@);
    let mut out: Vec<usize> = Vec::new();
    let mut idx: usize = hi;
    assert(positions_in(s, hi as int, hi as int, space) =~= Seq::<int>::empty());
    assert(out@.map_values(|i: usize| i as int) =~= Seq::<int>::empty());
    while idx > lo
        invariant
            lo <= idx <= hi <= ops@.len(),
            s == views(ops@),
            out@.map_values(|i: usize| i as int) == positions_in(s, idx as int, hi as int, space),
            forall|k: int| 0 <= k < out@.len() ==> idx <= #[trigger] out@[k] < hi,
        decreases idx - lo,
    {
        idx = idx - 1;
        proof {
            lemma_views_index(ops@, idx as int);
        }
        if ops[idx].index().space() == space {
            let ghost before = out@;
            out.insert(0, idx);
            assert(out@.map_values(|i: usize| i as int) =~= seq![idx as int] + before.map_values(
                |i: usize| i as int,
            ));
        }
    }
    out
}

fn permutation_sign(order: &[usize]) -> (res: i8)
    ensures
        res == permutation_sign_of(order@.map_values(|i: usize| i as int)),
{
    let ghost s = order@.map_values(|i: usize| i as int);
    let mut odd = false;
    let n = order.len();
    let mut i: usize = 0;
    assert(s.skip(0) =~= s);
    while i < n
        invariant
            n == order@.len(),
            s == order@.map_values(|i: usize| i as int),
            i <= n,
            odd == ((inversion_count(s) - inversion_count(s.skip(i as int))) % 2 == 1),
            inversion_count(s) >= inversion_count(s.skip(i as int)),
        decreases n - i,
    {
        let ghost rest = s.skip(i as int);
        assert(rest.drop_first() =~= s.skip(i + 1));
        let mut j: usize = i + 1;
        let ghost mut seen: nat = 0;
        assert(rest.drop_first().take(0) =~= Seq::<int>::empty());
        while j < n
            invariant
                n == order@.len(),
                s == order@.map_values(|i: usize| i as int),
                i < n,
                rest == s.skip(i as int),
                i + 1 <= j <= n,
                odd == ((inversion_count(s) - inversion_count(rest) + seen) % 2 == 1),
                inversion_count(s) >= inversion_count(rest),
                seen == count_smaller(rest[0], rest.drop_first().take(j - i - 1)),
            decreases n - j,
        {
            proof {
                lemma_count_smaller_push(rest[0], rest.drop_first().take(j - i - 1), s[j as int]);
                assert(rest.drop_first().take(j - i) =~= rest.drop_first().take(j - i - 1).push(
                    s[j as int],
                ));
            }
            if order[i] > order[j] {
                odd = !odd;
                proof {
                    seen = seen + 1;
                }
            }
            j = j + 1;
        }
        assert(rest.drop_first().take(j - i - 1) =~= rest.drop_first());
        i = i + 1;
    }
    assert(s.skip(n as int) =~= Seq::<int>::empty());
    if odd {
        -1
    } else {
        1
    }
}

proof fn lemma_count_smaller_push(x: int, s: Seq<int>, y: int)
    ensures
        count_smaller(x, s.push(y)) == count_smaller(x, s) + (if x > y {
            1nat
        } else {
            0nat
        }),
    decreases s.len(),
{
    if s.len() > 0 {
        assert(s.push(y).drop_first() =~= s.drop_first().push(y));
        assert(s.push(y)[0] == s[0]);
        lemma_count_smaller_push(x, s.drop_first(), y);
    } else {
        assert(s.push(y).drop_first() =~= Seq::<int>::empty());
        assert(s.push(y)[0] == y);
        assert(count_smaller(x, Seq::<int>::empty()) == 0);
    }
}

fn reduce_two_body_product(ops: &[FermionOp]) -> (res: Result<Vec<SignedTensorTerm>, TensorSimplifyError>)
    requires
        ops@.len() == 4,
    ensures
        signed_result_view(res) == two_body_reduction(views(ops@)),
{
    let ghost s = views(ops@);
    proof {
        lemma_views_index(ops@, 0);
        lemma_views_index(ops@, 1);
        lemma_views_index(ops@, 2);
        lemma_views_index(ops@, 3);
    }
    if ops[0].kind() != FermionOpKind::Create || ops[1].kind() != FermionOpKind::Create
        || ops[2].kind() != FermionOpKind::Annihilate || ops[3].kind()
        != FermionOpKind::Annihilate {
        return Err(TensorSimplifyError::UnsupportedReferenceCase);
    }
    if ops[0].index().space() == IndexSpace::General || ops[1].index().space() == IndexSpace::General
        || ops[2].index().space() == IndexSpace::General || ops[3].index().space()
        == IndexSpace::General {
        assert(touches_space(s, IndexSpace::General));
        return Err(TensorSimplifyError::UnsupportedReferenceCase);
    }
    assert(!touches_space(s, IndexSpace::General));
    let core_creator_positions = positions_for_space(ops, 0, 2, IndexSpace::Core);
    let core_annihilator_positions = positions_for_space(ops, 2, 4, IndexSpace::Core);
    let active_creator_positions = positions_for_space(ops, 0, 2, IndexSpace::Active);
    let active_annihilator_positions = positions_for_space(ops, 2, 4, IndexSpace::Active);
    let ghost cc = positions_in(s, 0, 2, IndexSpace::Core);
    let ghost ca = positions_in(s, 2, 4, IndexSpace::Core);
    let ghost ac = positions_in(s, 0, 2, IndexSpace::Active);
    let ghost aa = positions_in(s, 2, 4, IndexSpace::Active);
    assert(core_creator_positions@.len() == cc.len());
    assert(core_annihilator_positions@.len() == ca.len());
    assert(active_creator_positions@.len() == ac.len());
    assert(active_annihilator_positions@.len() == aa.len());

    if active_creator_positions.len() == 2 && active_annihilator_positions.len() == 2 {
        return Ok(
            one_signed(
                SignedTensorTerm::new(
                    1,
                    TensorTerm::Gamma2(
                        ops[0].index().clone(),
                        ops[1].index().clone(),
                        ops[2].index().clone(),
                        ops[3].index().clone(),
                    ),
                ),
            ),
        );
    }
    if core_creator_positions.len() == 2 && core_annihilator_positions.len() == 2 {
        let first = product_of_two(
            TensorTerm::Delta(ops[0].index().clone(), ops[3].index().clone()),
            TensorTerm::Delta(ops[1].index().clone(), ops[2].index().clone()),
        );
        let second = product_of_two(
            TensorTerm::Delta(ops[0].index().clone(), ops[2].index().clone()),
            TensorTerm::Delta(ops[1].index().clone(), ops[3].index().clone()),
        );
        let a = SignedTensorTerm::new(1, first);
        let b = SignedTensorTerm::new(-1, second);
        let ghost av = a;
        let ghost bv = b;
        let res = vec![a, b];
        proof {
            lemma_signed_seq_view(res@);
            assert(signed_seq_view(res@) =~= seq![signed_view(av), signed_view(bv)]);
        }
        return Ok(res);
    }
    if core_creator_positions.len() == 1 && core_annihilator_positions.len() == 1
        && active_creator_positions.len() == 1 && active_annihilator_positions.len() == 1 {
        let p0 = core_creator_positions[0];
        let p1 = core_annihilator_positions[0];
        let p2 = active_creator_positions[0];
        let p3 = active_annihilator_positions[0];
        assert(cc[0] == p0 as int);
        assert(ca[0] == p1 as int);
        assert(ac[0] == p2 as int);
        assert(aa[0] == p3 as int);
        let grouped_positions = [p0, p1, p2, p3];
        let sign = permutation_sign(&grouped_positions);
        assert(grouped_positions@.map_values(|i: usize| i as int) =~= seq![
            cc[0],
            ca[0],
            ac[0],
            aa[0],
        ]);
        proof {
            lemma_views_index(ops@, p0 as int);
            lemma_views_index(ops@, p1 as int);
            lemma_views_index(ops@, p2 as int);
            lemma_views_index(ops@, p3 as int);
        }
        let product = product_of_two(
            TensorTerm::Delta(ops[p0].index().clone(), ops[p1].index().clone()),
            TensorTerm::Gamma(ops[p2].index().clone(), ops[p3].index().clone()),
        );
        return Ok(one_signed(SignedTensorTerm::new(sign, product)));
    }
    Ok(no_signed())
}

fn reduce_higher_body_product(product: &OperatorProduct, order: usize) -> (res: Result<
    Vec<SignedTensorTerm>,
    TensorSimplifyError,
>)
    requires
        order <= product@.len(),
    ensures
        signed_result_view(res) == higher_body_reduction(product@, order as int),
{
    let ops = product.ops();
    let ghost s = product@;
    proof {
        lemma_views_len(ops@);
    }
    let mut i: usize = 0;
    let mut is_active_higher_body = true;
    while i < ops.len()
        invariant
            s == views(ops@),
            s.len() == ops@.len(),
            order <= s.len(),
            i <= ops.len(),
            is_active_higher_body == (forall|k: int|
                0 <= k < i ==> {
                    &&& (k < order ==> s[k].kind == FermionOpKind::Create)
                    &&& (k >= order ==> s[k].kind == FermionOpKind::Annihilate)
                    &&& s[k].index.space == IndexSpace::Active
                }),
        decreases ops.len() - i,
    {
        proof {
            lemma_views_index(ops@, i as int);
        }
        let kind_ok = if i < order {
            ops[i].kind() == FermionOpKind::Create
        } else {
            ops[i].kind() == FermionOpKind::Annihilate
        };
        let ok = kind_ok && ops[i].index().space() == IndexSpace::Active;
        is_active_higher_body = is_active_higher_body && ok;
        i = i + 1;
    }
    if !is_active_higher_body {
        return Err(TensorSimplifyError::UnsupportedReferenceCase);
    }
    let rdm = TensorTerm::HigherRdm { min_order: order, product: product.clone() };
    Ok(one_signed(SignedTensorTerm::new(1, rdm)))
}

fn is_normal_ordered(ops: &[FermionOp]) -> (res: bool)
    ensures
        res == in_reference_order(views(ops@)),
{
    let ghost s = views(ops@);
    proof {
        lemma_views_len(ops@);
    }
    let mut i: usize = 0;
    while ops.len() > 0 && i < ops.len() - 1
        invariant
            s == views(ops@),
            s.len() == ops@.len(),
            i <= ops.len(),
            forall|k: int| 0 <= k < i && k < s.len() - 1 ==> #[trigger] pair_in_reference_order(s[k], s[k + 1]),
        decreases ops.len() - i,
    {
        proof {
            lemma_views_index(ops@, i as int);
            lemma_views_index(ops@, i + 1);
        }
        let ok = match (ops[i].kind(), ops[i + 1].kind()) {
            (FermionOpKind::Create, FermionOpKind::Annihilate) => true,
            (FermionOpKind::Annihilate, FermionOpKind::Create) => false,
            _ => match compare_text(ops[i].index().symbol(), ops[i + 1].index().symbol()) {
                Order::Greater => false,
                _ => true,
            },
        };
        if !ok {
            assert(!pair_in_reference_order(s[i as int], s[i + 1]));
            return false;
        }
        i = i + 1;
    }
    true
}

fn has_space(ops: &[FermionOp], space: IndexSpace) -> (res: bool)
    ensures
        res == touches_space(views(ops@), space),
{
    let ghost s = views(ops@);
    proof {
        lemma_views_len(ops@);
    }
    let mut i: usize = 0;
    while i < ops.len()
        invariant
            s == views(ops@),
            s.len() == ops@.len(),
            i <= ops.len(),
            forall|k: int| 0 <= k < i ==> #[trigger] s[k].index.space != space,
        decreases ops.len() - i,
    {
        proof {
            lemma_views_index(ops@, i as int);
        }
        if ops[i].index().space() == space {
            assert(s[i as int].index.space == space);
            return true;
        }
        i = i + 1;
    }
    false
}

fn reduce_normal_ordered_product(product: &OperatorProduct) -> (res: Result<
    Vec<SignedTensorTerm>,
    TensorSimplifyError,
>)
    ensures
        signed_result_view(res) == reduce_product(product@),
{
    let ops = product.ops();
    proof {
        lemma_views_len(ops@);
    }
    if ops.len() == 0 {
        return Ok(no_signed());
    }
    if !is_normal_ordered(ops) {
        return Err(TensorSimplifyError::UnsupportedReferenceCase);
    }
    if has_space(ops, IndexSpace::Virtual) {
        return Ok(no_signed());
    }
    let len = ops.len();
    if len == 2 {
        reduce_one_body_product(ops)
    } else if len == 4 {
        reduce_two_body_product(ops)
    } else if len % 2 == 0 {
        reduce_higher_body_product(product, len / 2)
    } else {
        Err(TensorSimplifyError::UnsupportedOperatorRank)
    }
}

// ---------------------------------------------------------------------------
// Reduction of terms
// ---------------------------------------------------------------------------
/// Some delta of the list relates indices of two different fixed spaces.
pub open spec fn has_contradiction(deltas: Seq<SpecDelta>) -> bool {
    exists|i: int|
        0 <= i < deltas.len() && #[trigger] spaces_contradict(
            deltas[i].left.space,
            deltas[i].right.space,
        )
}

/// The deltas as tensor factors.
pub open spec fn delta_factors(deltas: Seq<SpecDelta>) -> Seq<SpecTensor> {
    deltas.map_values(|d: SpecDelta| SpecTensor::Delta(d.left, d.right))
}

/// A single factor as itself, several as their product.
pub open spec fn assemble(factors: Seq<SpecTensor>) -> SpecTensor {
    if factors.len() == 1 {
        factors[0]
    } else {
        SpecTensor::Product(factors)
    }
}

/// The reduction of one normal-ordered term: nothing when a delta is contradictory;
/// otherwise the reduction of its string, each result multiplied by the deltas and the
/// coefficient. A string that reduces to nothing leaves the deltas alone with the
/// coefficient.
pub open spec fn reduce_term(t: SpecTerm) -> Result<Seq<SpecSigned>, TensorSimplifyError> {
    if has_contradiction(t.deltas) {
        Ok(Seq::empty())
    } else {
        match reduce_product(t.product) {
            Err(e) => Err(e),
            Ok(residual) => if residual.len() == 0 {
                if t.deltas.len() == 0 {
                    Ok(Seq::empty())
                } else {
                    Ok(seq![signed(t.coefficient, assemble(delta_factors(t.deltas)))])
                }
            } else {
                Ok(
                    Seq::new(
                        residual.len(),
                        |i: int|
                            signed(
                                t.coefficient * residual[i].coefficient,
                                assemble(delta_factors(t.deltas).push(residual[i].term)),
                            ),
                    ),
                )
            },
        }
    }
}

/// The products of coefficients that reducing `t` forms fit in an `i8`.
pub open spec fn reduce_term_fits(t: SpecTerm) -> bool {
    has_contradiction(t.deltas) || match reduce_product(t.product) {
        Err(_) => true,
        Ok(residual) => forall|i: int|
            0 <= i < residual.len() ==> -128 <= t.coefficient * (#[trigger] residual[i]).coefficient
                <= 127,
    }
}

/// `prefix` before the reduced terms, or the error.
pub open spec fn prepend_ok(prefix: Seq<SpecSigned>, r: Result<Seq<SpecSigned>, TensorSimplifyError>) -> Result<
    Seq<SpecSigned>,
    TensorSimplifyError,
> {
    match r {
        Ok(rest) => Ok(prefix + rest),
        Err(e) => Err(e),
    }
}

/// The reductions of the terms, concatenated in order; the first error stops it.
pub open spec fn reduce_terms(ts: Seq<SpecTerm>) -> Result<Seq<SpecSigned>, TensorSimplifyError>
    decreases ts.len(),
{
    if ts.len() == 0 {
        Ok(Seq::empty())
    } else {
        match reduce_term(ts[0]) {
            Err(e) => Err(e),
            Ok(first) => prepend_ok(first, reduce_terms(ts.drop_first())),
        }
    }
}

/// Every term that `reduce_terms` reaches has products of coefficients in range.
pub open spec fn reduce_terms_fit(ts: Seq<SpecTerm>) -> bool
    decreases ts.len(),
{
    ts.len() == 0 || (reduce_term_fits(ts[0]) && (reduce_term(ts[0]) is Err || reduce_terms_fit(
        ts.drop_first(),
    )))
}

/// The signed terms whose coefficient is not zero, in order.
pub open spec fn drop_zero_signed(s: Seq<SpecSigned>) -> Seq<SpecSigned>
    decreases s.len(),
{
    if s.len() == 0 {
        s
    } else if s.last().coefficient != 0 {
        drop_zero_signed(s.drop_last()).push(s.last())
    } else {
        drop_zero_signed(s.drop_last())
    }
}

/// The final form of a list of reduced terms: zero when none is left after dropping
/// zero coefficients, a single term with coefficient 1 as itself, otherwise their sum.
pub open spec fn collapse(terms: Seq<SpecSigned>) -> SpecTensor {
    let kept = drop_zero_signed(terms);
    if kept.len() == 0 {
        SpecTensor::Zero
    } else if kept.len() == 1 && kept[0].coefficient == 1 {
        kept[0].term
    } else {
        SpecTensor::Sum(kept)
    }
}

fn reduce_reference_term(term: &NormalOrderedTerm) -> (res: Result<Vec<SignedTensorTerm>, TensorSimplifyError>)
    requires
        reduce_term_fits(term@),
    ensures
        signed_result_view(res) == reduce_term(term@),
{
    let ghost t = term@;
    let deltas = term.deltas();
    proof {
        lemma_views_len(deltas@);
    }
    let mut common_factors: Vec<TensorTerm> = Vec::new();
    let mut i: usize = 0;
    proof {
        lemma_tensor_seq_view(common_factors@);
    }
    while i < deltas.len()
        invariant
            t == term@,
            views(deltas@) == t.deltas,
            i <= deltas.len(),
            tensor_seq_view(common_factors@) == delta_factors(t.deltas).take(i as int),
            forall|k: int| 0 <= k < i ==> !(#[trigger] spaces_contradict(
                t.deltas[k].left.space,
                t.deltas[k].right.space,
            )),
        decreases deltas.len() - i,
    {
        proof {
            lemma_views_index(deltas@, i as int);
        }
        if deltas[i].is_contradictory() {
            assert(has_contradiction(t.deltas));
            return Ok(no_signed());
        }
        let factor = TensorTerm::Delta(deltas[i].left().clone(), deltas[i].right().clone());
        proof {
            lemma_tensor_seq_push(common_factors@, factor);
            assert(delta_factors(t.deltas).take(i + 1) =~= delta_factors(t.deltas).take(
                i as int,
            ).push(SpecTensor::Delta(t.deltas[i as int].left, t.deltas[i as int].right)));
        }
        common_factors.push(factor);
        i = i + 1;
    }
    assert(!has_contradiction(t.deltas));
    assert(delta_factors(t.deltas).take(i as int) =~= delta_factors(t.deltas));
    let ghost common = delta_factors(t.deltas);
    let residual_terms = match reduce_normal_ordered_product(term.product()) {
        Ok(r) => r,
        Err(e) => {
            return Err(e);
        },
    };
    let ghost residual = signed_seq_view(residual_terms@);
    proof {
        lemma_signed_seq_view(residual_terms@);
        lemma_tensor_seq_view(common_factors@);
    }
    if residual_terms.len() == 0 {
        if common_factors.len() == 0 {
            return Ok(no_signed());
        }
        let assembled = if common_factors.len() == 1 {
            let f = common_factors.pop().unwrap();
            f
        } else {
            TensorTerm::Product(common_factors)
        };
        assert(assembled@ == assemble(common));
        return Ok(one_signed(SignedTensorTerm::new(term.coefficient(), assembled)));
    }
    let mut reduced: Vec<SignedTensorTerm> = Vec::new();
    let mut rest = residual_terms;
    let n = rest.len();
    let ghost mut j: int = 0;
    proof {
        lemma_signed_seq_view(reduced@);
        lemma_signed_seq_view(rest@);
        assert(signed_seq_view(rest@) =~= residual.skip(0));
    }
    while rest.len() > 0
        invariant
            t == term@,
            t.coefficient == term@.coefficient,
            !has_contradiction(t.deltas),
            reduce_product(t.product) == Ok::<Seq<SpecSigned>, TensorSimplifyError>(residual),
            reduce_term_fits(t),
            tensor_seq_view(common_factors@) == common,
            common == delta_factors(t.deltas),
            residual.len() == n,
            0 <= j <= n,
            j + rest@.len() == n,
            signed_seq_view(rest@) == residual.skip(j),
            signed_seq_view(reduced@) == Seq::new(
                j as nat,
                |k: int|
                    signed(
                        t.coefficient * residual[k].coefficient,
                        assemble(common.push(residual[k].term)),
                    ),
            ),
        decreases rest.len(),
    {
        let ghost old_rest = rest@;
        proof {
            lemma_signed_seq_remove_first(old_rest);
            assert(residual.skip(j)[0] == residual[j]);
            assert(residual.skip(j).drop_first() =~= residual.skip(j + 1));
        }
        let residual_term = rest.remove(0);
        assert(signed_view(residual_term) == residual[j]);
        assert(signed_seq_view(rest@) == residual.skip(j + 1));
        let SignedTensorTerm { coefficient: residual_coefficient, term: residual_tensor } =
            residual_term;
        let mut factors = clone_tensor_vec(&common_factors);
        proof {
            lemma_tensor_seq_push(factors@, residual_tensor);
        }
        factors.push(residual_tensor);
        proof {
            lemma_tensor_seq_view(factors@);
        }
        let assembled = if factors.len() == 1 {
            let f = factors.pop().unwrap();
            f
        } else {
            TensorTerm::Product(factors)
        };
        assert(assembled@ == assemble(common.push(residual[j].term)));
        assert(-128 <= t.coefficient * residual[j].coefficient <= 127);
        let coefficient = term.coefficient() * residual_coefficient;
        let item = SignedTensorTerm::new(coefficient, assembled);
        proof {
            lemma_signed_seq_push(reduced@, item);
        }
        reduced.push(item);
        proof {
            assert(signed_seq_view(reduced@) =~= Seq::new(
                (j + 1) as nat,
                |k: int|
                    signed(
                        t.coefficient * residual[k].coefficient,
                        assemble(common.push(residual[k].term)),
                    ),
            ));
            j = j + 1;
        }
    }
    Ok(reduced)
}

fn collapse_signed_terms(terms: Vec<SignedTensorTerm>) -> (res: Result<
    SimplifiedTensorForm,
    TensorSimplifyError,
>)
    ensures
        res is Ok,
        res->Ok_0@ == collapse(signed_seq_view(terms@)),
{
    let ghost s = signed_seq_view(terms@);
    let mut rest = terms;
    let mut non_zero: Vec<SignedTensorTerm> = Vec::new();
    let n = rest.len();
    let mut k: usize = 0;
    proof {
        lemma_signed_seq_view(rest@);
        lemma_signed_seq_view(non_zero@);
        assert(s.take(0) =~= Seq::<SpecSigned>::empty());
        assert(signed_seq_view(rest@) =~= s.skip(0));
    }
    while rest.len() > 0
        invariant
            s.len() == n,
            k + rest@.len() == n,
            signed_seq_view(non_zero@) == drop_zero_signed(s.take(k as int)),
            signed_seq_view(rest@) == s.skip(k as int),
        decreases rest.len(),
    {
        let ghost old_rest = rest@;
        proof {
            lemma_signed_seq_remove_first(old_rest);
            assert(s.skip(k as int)[0] == s[k as int]);
            assert(s.skip(k as int).drop_first() =~= s.skip(k + 1));
        }
        let term = rest.remove(0);
        assert(s.take(k + 1).drop_last() =~= s.take(k as int));
        assert(s.take(k + 1).last() == signed_view(term));
        if term.coefficient != 0 {
            proof {
                lemma_signed_seq_push(non_zero@, term);
            }
            non_zero.push(term);
        }
        k = k + 1;
    }
    assert(s.take(k as int) =~= s);
    proof {
        lemma_signed_seq_view(non_zero@);
    }
    let ghost kept = signed_seq_view(non_zero@);
    assert(kept == drop_zero_signed(signed_seq_view(terms@)));
    if non_zero.len() == 0 {
        let res = SimplifiedTensorForm::new(TensorTerm::Zero);
        assert(res@ == collapse(signed_seq_view(terms@)));
        Ok(res)
    } else if non_zero.len() == 1 {
        let only = non_zero.pop().unwrap();
        assert(signed_view(only) == kept[0]);
        if only.coefficient == 1 {
            let res = SimplifiedTensorForm::new(only.term);
            assert(res@ == collapse(signed_seq_view(terms@)));
            Ok(res)
        } else {
            let ghost o = only;
            let v = vec![only];
            proof {
                lemma_signed_seq_view(v@);
                assert(signed_seq_view(v@) =~= seq![signed_view(o)]);
                assert(kept =~= seq![signed_view(o)]);
            }
            let res = SimplifiedTensorForm::new(TensorTerm::Sum(v));
            assert(res@ == collapse(signed_seq_view(terms@)));
            Ok(res)
        }
    } else {
        let res = SimplifiedTensorForm::new(TensorTerm::Sum(non_zero));
        assert(res@ == collapse(signed_seq_view(terms@)));
        Ok(res)
    }
}

// ---------------------------------------------------------------------------
// Expressions in the reference state
// ---------------------------------------------------------------------------
/// An expectation value of an operator string in a reference state.
#[derive(Debug, PartialEq, Eq)]
pub struct Expectation {
    product: OperatorProduct,
    reference: CasReference,
}

impl View for Expectation {
    type V = Seq<SpecOp>;

    closed spec fn view(&self) -> Seq<SpecOp> {
        self.product@
    }
}

impl Clone for Expectation {
    fn clone(&self) -> (res: Self)
        ensures
            res@ == self@,
    {
        Expectation { product: self.product.clone(), reference: self.reference }
    }
}

impl Expectation {
    pub fn new(product: OperatorProduct, reference: CasReference) -> (res: Self)
        ensures
            res@ == product@,
    {
        Expectation { product, reference }
    }

    pub fn product(&self) -> (res: &OperatorProduct)
        ensures
            res@ == self@,
    {
        &self.product
    }

    pub fn reference(&self) -> (res: CasReference)
        ensures
            res == CasReference,
    {
        self.reference
    }
}

/// A matrix element as a value: bra string, optional Hamiltonian string, ket string.
pub struct SpecMatrixElement {
    pub left: Seq<SpecOp>,
    pub hamiltonian: Option<Seq<SpecOp>>,
    pub right: Seq<SpecOp>,
}

/// The operator string of a matrix element: left, then the Hamiltonian if any, then
/// right.
pub open spec fn matrix_element_ops(m: SpecMatrixElement) -> Seq<SpecOp> {
    m.left + match m.hamiltonian {
        Some(h) => h,
        None => Seq::empty(),
    } + m.right
}

/// A matrix element between two operator strings applied to a reference state, with
/// an optional Hamiltonian string between them.
#[derive(Debug, PartialEq, Eq)]
pub struct MatrixElement {
    left: OperatorProduct,
    hamiltonian: Option<OperatorProduct>,
    right: OperatorProduct,
    reference: CasReference,
}

impl View for MatrixElement {
    type V = SpecMatrixElement;

    closed spec fn view(&self) -> SpecMatrixElement {
        SpecMatrixElement {
            left: self.left@,
            hamiltonian: match self.hamiltonian {
                Some(h) => Some(h@),
                None => None,
            },
            right: self.right@,
        }
    }
}

impl Clone for MatrixElement {
    fn clone(&self) -> (res: Self)
        ensures
            res@ == self@,
    {
        let hamiltonian = match &self.hamiltonian {
            Some(h) => Some(h.clone()),
            None => None,
        };
        MatrixElement {
            left: self.left.clone(),
            hamiltonian,
            right: self.right.clone(),
            reference: self.reference,
        }
    }
}

impl MatrixElement {
    pub fn new(
        left: OperatorProduct,
        hamiltonian: Option<OperatorProduct>,
        right: OperatorProduct,
        reference: CasReference,
    ) -> (res: Self)
        ensures
            res@ == (SpecMatrixElement {
                left: left@,
                hamiltonian: match hamiltonian {
                    Some(h) => Some(h@),
                    None => None,
                },
                right: right@,
            }),
    {
        MatrixElement { left, hamiltonian, right, reference }
    }

    pub fn left(&self) -> (res: &OperatorProduct)
        ensures
            res@ == self@.left,
    {
        &self.left
    }

    pub fn hamiltonian(&self) -> (res: Option<&OperatorProduct>)
        ensures
            match res {
                Some(h) => self@.hamiltonian == Some(h@),
                None => self@.hamiltonian is None,
            },
    {
        self.hamiltonian.as_ref()
    }

    pub fn right(&self) -> (res: &OperatorProduct)
        ensures
            res@ == self@.right,
    {
        &self.right
    }

    pub fn reference(&self) -> (res: CasReference)
        ensures
            res == CasReference,
    {
        self.reference
    }
}

/// A reduction trace as a value.
pub struct SpecTrace {
    pub normal_ordered: Seq<SpecTerm>,
    pub reduced_terms: Seq<SpecSigned>,
    pub final_form: SpecTensor,
}

/// The stages of a reduction: the normal-ordered expression, the reduced terms, and
/// the final form.
#[derive(Debug, PartialEq, Eq)]
pub struct TensorReductionTrace {
    normal_ordered: NormalOrderedExpr,
    reduced_terms: Vec<SignedTensorTerm>,
    final_form: SimplifiedTensorForm,
}

impl View for TensorReductionTrace {
    type V = SpecTrace;

    closed spec fn view(&self) -> SpecTrace {
        SpecTrace {
            normal_ordered: self.normal_ordered@,
            reduced_terms: signed_seq_view(self.reduced_terms@),
            final_form: self.final_form@,
        }
    }
}

impl TensorReductionTrace {
    pub fn new(
        normal_ordered: NormalOrderedExpr,
        reduced_terms: Vec<SignedTensorTerm>,
        final_form: SimplifiedTensorForm,
    ) -> (res: Self)
        ensures
            res@ == (SpecTrace {
                normal_ordered: normal_ordered@,
                reduced_terms: signed_list_view(reduced_terms),
                final_form: final_form@,
            }),
    {
        TensorReductionTrace { normal_ordered, reduced_terms, final_form }
    }

    pub fn normal_ordered(&self) -> (res: &NormalOrderedExpr)
        ensures
            res@ == self@.normal_ordered,
    {
        &self.normal_ordered
    }

    pub fn reduced_terms(&self) -> (res: &[SignedTensorTerm])
        ensures
            signed_seq_view(res@) == self@.reduced_terms,
    {
        self.reduced_terms.as_slice()
    }

    pub fn final_form(&self) -> (res: &SimplifiedTensorForm)
        ensures
            res@ == self@.final_form,
    {
        &self.final_form
    }
}

/// The reduction of an operator string in the reference state, with its stages: the
/// empty string is not supported; otherwise its normal-ordered form, the reductions of
/// its terms, and their collapse.
pub open spec fn reference_trace(ops: Seq<SpecOp>) -> Result<SpecTrace, TensorSimplifyError> {
    if ops.len() == 0 {
        Err(TensorSimplifyError::UnsupportedReferenceCase)
    } else {
        match reduce_terms(normal_ordered(ops)) {
            Err(e) => Err(e),
            Ok(reduced) => Ok(
                SpecTrace {
                    normal_ordered: normal_ordered(ops),
                    reduced_terms: reduced,
                    final_form: collapse(reduced),
                },
            ),
        }
    }
}

/// The final form of the reduction of an operator string in the reference state.
pub open spec fn reference_form(ops: Seq<SpecOp>) -> Result<SpecTensor, TensorSimplifyError> {
    match reference_trace(ops) {
        Ok(t) => Ok(t.final_form),
        Err(e) => Err(e),
    }
}

/// The `i8` arithmetic of reducing `ops` stays in range.
pub open spec fn reference_fits(ops: Seq<SpecOp>) -> bool {
    ops.len() == 0 || (like_terms_fit(ops) && reduce_terms_fit(normal_ordered(ops)))
}

proof fn lemma_reduce_terms_step(ts: Seq<SpecTerm>, i: int)
    requires
        0 <= i < ts.len(),
    ensures
        reduce_terms(ts.skip(i)) == match reduce_term(ts[i]) {
            Err(e) => Err(e),
            Ok(first) => prepend_ok(first, reduce_terms(ts.skip(i + 1))),
        },
        reduce_terms_fit(ts.skip(i)) == (reduce_term_fits(ts[i]) && (reduce_term(ts[i]) is Err
            || reduce_terms_fit(ts.skip(i + 1)))),
{
    assert(ts.skip(i).drop_first() =~= ts.skip(i + 1));
    assert(ts.skip(i)[0] == ts[i]);
}

fn trace_product_in_reference(product: OperatorProduct) -> (res: Result<
    TensorReductionTrace,
    TensorSimplifyError,
>)
    requires
        reference_fits(product@),
    ensures
        match res {
            Ok(t) => reference_trace(product@) == Ok::<SpecTrace, TensorSimplifyError>(t@),
            Err(e) => reference_trace(product@) == Err::<SpecTrace, TensorSimplifyError>(e),
        },
{
    let ghost p = product@;
    let ordered = match normal_order_product(product) {
        Ok(o) => o,
        Err(_) => {
            return Err(TensorSimplifyError::UnsupportedReferenceCase);
        },
    };
    let ghost ts = normal_ordered(p);
    let terms = ordered.terms();
    proof {
        lemma_views_len(terms@);
        assert(ts.skip(0) =~= ts);
    }
    let mut reduced_terms: Vec<SignedTensorTerm> = Vec::new();
    proof {
        lemma_signed_seq_view(reduced_terms@);
    }
    assert(signed_seq_view(reduced_terms@) =~= Seq::<SpecSigned>::empty());
    let mut i: usize = 0;
    while i < terms.len()
        invariant
            views(terms@) == ts,
            ts == normal_ordered(p),
            p == product@,
            p.len() > 0,
            i <= terms.len(),
            reduce_terms_fit(ts.skip(i as int)),
            reduce_terms(ts) == prepend_ok(
                signed_seq_view(reduced_terms@),
                reduce_terms(ts.skip(i as int)),
            ),
        decreases terms.len() - i,
    {
        proof {
            lemma_views_index(terms@, i as int);
            lemma_reduce_terms_step(ts, i as int);
        }
        let mut reduced = match reduce_reference_term(&terms[i]) {
            Ok(r) => r,
            Err(e) => {
                assert(reduce_term(ts[i as int]) == Err::<Seq<SpecSigned>, TensorSimplifyError>(e));
                assert(reduce_terms(ts.skip(i as int)) == Err::<Seq<SpecSigned>, TensorSimplifyError>(e));
                assert(reduce_terms(ts) == Err::<Seq<SpecSigned>, TensorSimplifyError>(e));
                return Err(e);
            },
        };
        let ghost before = signed_seq_view(reduced_terms@);
        let ghost piece = signed_seq_view(reduced@);
        proof {
            lemma_signed_seq_view(reduced_terms@);
            lemma_signed_seq_view(reduced@);
        }
        reduced_terms.append(&mut reduced);
        proof {
            lemma_signed_seq_view(reduced_terms@);
            assert(signed_seq_view(reduced_terms@) =~= before + piece);
            match reduce_terms(ts.skip(i + 1)) {
                Ok(rest) => {
                    assert(before + (piece + rest) =~= (before + piece) + rest);
                },
                Err(_) => {},
            }
        }
        i = i + 1;
    }
    assert(ts.skip(i as int) =~= Seq::<SpecTerm>::empty());
    assert(signed_seq_view(reduced_terms@) + Seq::<SpecSigned>::empty() =~= signed_seq_view(
        reduced_terms@,
    ));
    let copy = clone_signed_vec(&reduced_terms);
    let final_form = match collapse_signed_terms(copy) {
        Ok(f) => f,
        Err(e) => {
            return Err(e);
        },
    };
    Ok(TensorReductionTrace::new(ordered, reduced_terms, final_form))
}

/// The reduction of a delta alone: zero when its spaces contradict, the delta
/// otherwise.
pub open spec fn delta_form(d: SpecDelta) -> SpecTensor {
    if spaces_contradict(d.left.space, d.right.space) {
        SpecTensor::Zero
    } else {
        SpecTensor::Delta(d.left, d.right)
    }
}

fn simplify_delta(delta: DeltaConstraint) -> (res: Result<SimplifiedTensorForm, TensorSimplifyError>)
    ensures
        res is Ok,
        res->Ok_0@ == delta_form(delta@),
{
    if delta.is_contradictory() {
        return Ok(SimplifiedTensorForm::new(TensorTerm::Zero));
    }
    Ok(SimplifiedTensorForm::new(TensorTerm::Delta(delta.left().clone(), delta.right().clone())))
}

fn simplify_product_in_reference(product: OperatorProduct) -> (res: Result<
    SimplifiedTensorForm,
    TensorSimplifyError,
>)
    requires
        reference_fits(product@),
    ensures
        match res {
            Ok(f) => reference_form(product@) == Ok::<SpecTensor, TensorSimplifyError>(f@),
            Err(e) => reference_form(product@) == Err::<SpecTensor, TensorSimplifyError>(e),
        },
{
    match trace_product_in_reference(product) {
        Ok(trace) => Ok(trace.final_form),
        Err(e) => Err(e),
    }
}

fn simplify_expectation(expectation: Expectation) -> (res: Result<
    SimplifiedTensorForm,
    TensorSimplifyError,
>)
    requires
        reference_fits(expectation@),
    ensures
        match res {
            Ok(f) => reference_form(expectation@) == Ok::<SpecTensor, TensorSimplifyError>(f@),
            Err(e) => reference_form(expectation@) == Err::<SpecTensor, TensorSimplifyError>(e),
        },
{
    simplify_product_in_reference(expectation.product().clone())
}

fn append_ops(out: &mut Vec<FermionOp>, product: &OperatorProduct)
    ensures
        views(final(out)@) == views(old(out)@) + product@,
{
    let mut more = product.clone().into_ops();
    let ghost a = views(out@);
    let ghost b = views(more@);
    out.append(&mut more);
    assert(views(out@) =~= a + b);
}

/// The operator string of a matrix element: left, Hamiltonian if any, right.
pub fn matrix_element_product(matrix_element: &MatrixElement) -> (res: OperatorProduct)
    ensures
        res@ == matrix_element_ops(matrix_element@),
{
    let mut ops = matrix_element.left().clone().into_ops();
    if let Some(hamiltonian) = matrix_element.hamiltonian() {
        append_ops(&mut ops, hamiltonian);
    }
    let ghost middle = views(ops@);
    append_ops(&mut ops, matrix_element.right());
    let res = OperatorProduct::new(ops);
    assert(res@ =~= matrix_element_ops(matrix_element@));
    res
}

fn simplify_matrix_element(matrix_element: MatrixElement) -> (res: Result<
    SimplifiedTensorForm,
    TensorSimplifyError,
>)
    requires
        reference_fits(matrix_element_ops(matrix_element@)),
    ensures
        match res {
            Ok(f) => reference_form(matrix_element_ops(matrix_element@)) == Ok::<
                SpecTensor,
                TensorSimplifyError,
            >(f@),
            Err(e) => reference_form(matrix_element_ops(matrix_element@)) == Err::<
                SpecTensor,
                TensorSimplifyError,
            >(e),
        },
{
    simplify_product_in_reference(matrix_element_product(&matrix_element))
}

/// Whether reducing the term keeps its products of coefficients in range, and whether
/// its reduction fails.
fn reduce_term_check(term: &NormalOrderedTerm) -> (res: (bool, bool))
    ensures
        res.0 == reduce_term_fits(term@),
        res.1 == (reduce_term(term@) is Err),
{
    let ghost t = term@;
    let deltas = term.deltas();
    proof {
        lemma_views_len(deltas@);
    }
    let mut i: usize = 0;
    while i < deltas.len()
        invariant
            t == term@,
            views(deltas@) == t.deltas,
            i <= deltas.len(),
            forall|k: int| 0 <= k < i ==> !(#[trigger] spaces_contradict(
                t.deltas[k].left.space,
                t.deltas[k].right.space,
            )),
        decreases deltas.len() - i,
    {
        proof {
            lemma_views_index(deltas@, i as int);
        }
        if deltas[i].is_contradictory() {
            assert(spaces_contradict(t.deltas[i as int].left.space, t.deltas[i as int].right.space));
            assert(has_contradiction(t.deltas));
            return (true, false);
        }
        i = i + 1;
    }
    assert(!has_contradiction(t.deltas));
    match reduce_normal_ordered_product(term.product()) {
        Err(_) => (true, true),
        Ok(residual) => {
            let ghost r = signed_seq_view(residual@);
            proof {
                lemma_signed_seq_view(residual@);
            }
            let c = term.coefficient() as i16;
            let mut j: usize = 0;
            while j < residual.len()
                invariant
                    t == term@,
                    !has_contradiction(t.deltas),
                    reduce_product(t.product) == Ok::<Seq<SpecSigned>, TensorSimplifyError>(r),
                    r == signed_seq_view(residual@),
                    r.len() == residual.len(),
                    c as int == t.coefficient,
                    -128 <= c <= 127,
                    j <= residual.len(),
                    forall|k: int| 0 <= k < j ==> -128 <= t.coefficient * (#[trigger] r[k]).coefficient <= 127,
                decreases residual.len() - j,
            {
                proof {
                    lemma_signed_seq_view(residual@);
                }
                let k = residual[j].coefficient() as i16;
                assert(r[j as int] == residual@[j as int]@);
                assert(-16384 <= c * k <= 16384) by (nonlinear_arith)
                    requires
                        -128 <= c <= 127,
                        -128 <= k <= 127,
                ;
                let product = c * k;
                if product < -128 || product > 127 {
                    return (false, false);
                }
                j = j + 1;
            }
            (true, false)
        },
    }
}

/// Whether the `i8` arithmetic of reducing the string stays in range: the condition of
/// `trace_expectation` and of simplifying an expectation value of the string.
pub fn reference_fits_check(product: &OperatorProduct) -> (res: bool)
    ensures
        res == reference_fits(product@),
{
    let ops = product.ops();
    proof {
        lemma_views_len(ops@);
    }
    if ops.len() == 0 {
        return true;
    }
    if !like_terms_fit_check(product) {
        return false;
    }
    let expr = match normal_order_product(product.clone()) {
        Ok(e) => e,
        Err(_) => {
            return false;
        },
    };
    let terms = expr.terms();
    let ghost ts = normal_ordered(product@);
    proof {
        lemma_views_len(terms@);
    }
    let mut i: usize = 0;
    assert(ts.skip(0) =~= ts);
    while i < terms.len()
        invariant
            views(terms@) == ts,
            ts == normal_ordered(product@),
            product@.len() > 0,
            like_terms_fit(product@),
            ts.len() == terms.len(),
            i <= terms.len(),
            reduce_terms_fit(ts) == reduce_terms_fit(ts.skip(i as int)),
        decreases terms.len() - i,
    {
        proof {
            lemma_views_index(terms@, i as int);
            lemma_reduce_terms_step(ts, i as int);
        }
        let (fits, fails) = reduce_term_check(&terms[i]);
        if !fits {
            return false;
        }
        if fails {
            return true;
        }
        i = i + 1;
    }
    assert(ts.skip(i as int) =~= Seq::<SpecTerm>::empty());
    true
}

/// Reduces an expectation value in the reference state and records every stage.
pub fn trace_expectation(expectation: Expectation, _config: SimplifyConfig) -> (res: Result<
    TensorReductionTrace,
    TensorSimplifyError,
>)
    requires
        reference_fits(expectation@),
    ensures
        match res {
            Ok(t) => reference_trace(expectation@) == Ok::<SpecTrace, TensorSimplifyError>(t@),
            Err(e) => reference_trace(expectation@) == Err::<SpecTrace, TensorSimplifyError>(e),
        },
{
    trace_product_in_reference(expectation.product().clone())
}

/// Reduces a matrix element in the reference state and records every stage.
pub fn trace_matrix_element(matrix_element: MatrixElement, _config: SimplifyConfig) -> (res: Result<
    TensorReductionTrace,
    TensorSimplifyError,
>)
    requires
        reference_fits(matrix_element_ops(matrix_element@)),
    ensures
        match res {
            Ok(t) => reference_trace(matrix_element_ops(matrix_element@)) == Ok::<
                SpecTrace,
                TensorSimplifyError,
            >(t@),
            Err(e) => reference_trace(matrix_element_ops(matrix_element@)) == Err::<
                SpecTrace,
                TensorSimplifyError,
            >(e),
        },
{
    trace_product_in_reference(matrix_element_product(&matrix_element))
}

/// What `simplify_tensor_form` accepts.
pub enum TensorInput {
    Expectation(Expectation),
    Delta(DeltaConstraint),
    MatrixElement(MatrixElement),
}

/// An input as a value.
pub enum SpecInput {
    Expectation(Seq<SpecOp>),
    Delta(SpecDelta),
    MatrixElement(SpecMatrixElement),
}

impl View for TensorInput {
    type V = SpecInput;

    open spec fn view(&self) -> SpecInput {
        match self {
            TensorInput::Expectation(e) => SpecInput::Expectation(e@),
            TensorInput::Delta(d) => SpecInput::Delta(d@),
            TensorInput::MatrixElement(m) => SpecInput::MatrixElement(m@),
        }
    }
}

impl From<Expectation> for TensorInput {
    fn from(value: Expectation) -> (res: Self) {
        TensorInput::Expectation(value)
    }
}

impl vstd::std_specs::convert::FromSpecImpl<Expectation> for TensorInput {
    open spec fn obeys_from_spec() -> bool {
        true
    }

    open spec fn from_spec(v: Expectation) -> TensorInput {
        TensorInput::Expectation(v)
    }
}

impl From<DeltaConstraint> for TensorInput {
    fn from(value: DeltaConstraint) -> (res: Self) {
        TensorInput::Delta(value)
    }
}

impl vstd::std_specs::convert::FromSpecImpl<DeltaConstraint> for TensorInput {
    open spec fn obeys_from_spec() -> bool {
        true
    }

    open spec fn from_spec(v: DeltaConstraint) -> TensorInput {
        TensorInput::Delta(v)
    }
}

impl From<MatrixElement> for TensorInput {
    fn from(value: MatrixElement) -> (res: Self) {
        TensorInput::MatrixElement(value)
    }
}

impl vstd::std_specs::convert::FromSpecImpl<MatrixElement> for TensorInput {
    open spec fn obeys_from_spec() -> bool {
        true
    }

    open spec fn from_spec(v: MatrixElement) -> TensorInput {
        TensorInput::MatrixElement(v)
    }
}

/// The `i8` arithmetic of simplifying the input stays in range.
pub open spec fn input_fits(input: SpecInput) -> bool {
    match input {
        SpecInput::Expectation(ops) => reference_fits(ops),
        SpecInput::Delta(_) => true,
        SpecInput::MatrixElement(m) => reference_fits(matrix_element_ops(m)),
    }
}

/// The simplified form of an input: a delta alone reduces to itself or zero; an
/// expectation value or a matrix element reduces through its operator string.
pub open spec fn input_form(input: SpecInput) -> Result<SpecTensor, TensorSimplifyError> {
    match input {
        SpecInput::Expectation(ops) => reference_form(ops),
        SpecInput::Delta(d) => Ok(delta_form(d)),
        SpecInput::MatrixElement(m) => reference_form(matrix_element_ops(m)),
    }
}

fn simplify_input(input: TensorInput) -> (res: Result<SimplifiedTensorForm, TensorSimplifyError>)
    requires
        input_fits(input@),
    ensures
        match res {
            Ok(f) => input_form(input@) == Ok::<SpecTensor, TensorSimplifyError>(f@),
            Err(e) => input_form(input@) == Err::<SpecTensor, TensorSimplifyError>(e),
        },
{
    match input {
        TensorInput::Expectation(expectation) => simplify_expectation(expectation),
        TensorInput::Delta(delta) => simplify_delta(delta),
        TensorInput::MatrixElement(matrix_element) => simplify_matrix_element(matrix_element),
    }
}

/// Simplifies an expectation value, a delta or a matrix element in the reference state.
pub fn simplify_tensor_form<T>(input: T, _config: SimplifyConfig) -> (res: Result<
    SimplifiedTensorForm,
    TensorSimplifyError,
>) where TensorInput: From<T>
    requires
        <TensorInput as vstd::std_specs::convert::FromSpec<T>>::obeys_from_spec(),
        input_fits(<TensorInput as vstd::std_specs::convert::FromSpec<T>>::from_spec(input)@),
    ensures
        match res {
            Ok(f) => input_form(
                <TensorInput as vstd::std_specs::convert::FromSpec<T>>::from_spec(input)@,
            ) == Ok::<SpecTensor, TensorSimplifyError>(f@),
            Err(e) => input_form(
                <TensorInput as vstd::std_specs::convert::FromSpec<T>>::from_spec(input)@,
            ) == Err::<SpecTensor, TensorSimplifyError>(e),
        },
{
    simplify_input(TensorInput::from(input))
}

// ---------------------------------------------------------------------------
// Text
// ---------------------------------------------------------------------------
/// The absolute value of a coefficient.
pub open spec fn coefficient_abs(c: int) -> nat {
    if c < 0 {
        (-c) as nat
    } else {
        c as nat
    }
}

/// The number in front of a term: empty for 1, otherwise the absolute value and a
/// space.
pub open spec fn coefficient_text(c: int) -> Seq<char> {
    if coefficient_abs(c) != 1 {
        decimal_text(coefficient_abs(c)) + " "@
    } else {
        Seq::empty()
    }
}

/// The text of a tensor expression: `0`, `delta(p,q)`, `gamma(p,q)`, `Gamma(p,q;r,s)`,
/// factors joined by ` * `, signed terms joined by ` + ` and ` - `, and
/// `HigherRDM(order=n, fragment=...)`.
pub open spec fn render_tensor(t: SpecTensor) -> Seq<char>
    decreases t,
{
    match t {
        SpecTensor::Zero => "0"@,
        SpecTensor::Delta(l, r) => "delta("@ + l.symbol + ","@ + r.symbol + ")"@,
        SpecTensor::Gamma(l, r) => "gamma("@ + l.symbol + ","@ + r.symbol + ")"@,
        SpecTensor::Gamma2(a, b, c, d) => "Gamma("@ + a.symbol + ","@ + b.symbol + ";"@ + c.symbol
            + ","@ + d.symbol + ")"@,
        SpecTensor::Product(factors) => render_factors(factors),
        SpecTensor::Sum(terms) => render_sum(terms),
        SpecTensor::HigherRdm { min_order, product } => "HigherRDM(order="@ + decimal_text(
            min_order,
        ) + ", fragment="@ + render_product(product) + ")"@,
    }
}

/// Factors joined by ` * `.
pub open spec fn render_factors(factors: Seq<SpecTensor>) -> Seq<char>
    decreases factors,
{
    if factors.len() == 0 {
        Seq::empty()
    } else if factors.len() == 1 {
        render_tensor(factors[0])
    } else {
        render_factors(factors.subrange(0, factors.len() - 1)) + " * "@ + render_tensor(
            factors[factors.len() - 1],
        )
    }
}

/// One term of a sum: its sign (`- ` in front, ` - ` or ` + ` between terms), its
/// number, its tensor.
pub open spec fn sum_piece(first: bool, term: SpecSigned) -> Seq<char>
    decreases term,
{
    (if first {
        if term.coefficient < 0 {
            "- "@
        } else {
            Seq::empty()
        }
    } else if term.coefficient < 0 {
        " - "@
    } else {
        " + "@
    }) + coefficient_text(term.coefficient) + render_tensor(term.term)
}

/// Signed terms as a sum.
pub open spec fn render_sum(terms: Seq<SpecSigned>) -> Seq<char>
    decreases terms,
{
    if terms.len() == 0 {
        Seq::empty()
    } else {
        render_sum(terms.subrange(0, terms.len() - 1)) + sum_piece(
            terms.len() == 1,
            terms[terms.len() - 1],
        )
    }
}

/// A signed term alone: `- ` when negative, its number, its tensor.
pub open spec fn render_signed(term: SpecSigned) -> Seq<char> {
    (if term.coefficient < 0 {
        "- "@
    } else {
        Seq::empty()
    }) + coefficient_text(term.coefficient) + render_tensor(term.term)
}

fn append_coefficient(out: &mut String, coefficient: i8)
    ensures
        final(out)@ == old(out)@ + coefficient_text(coefficient as int),
{
    let abs: u8 = if coefficient < 0 {
        (-(coefficient as i16)) as u8
    } else {
        coefficient as u8
    };
    assert(abs as nat == coefficient_abs(coefficient as int));
    if abs != 1 {
        append_decimal(out, abs as usize);
        out.append(" ");
    }
}

fn append_tensor_text(out: &mut String, t: &TensorTerm)
    ensures
        final(out)@ == old(out)@ + render_tensor(tensor_view(*t)),
    decreases t,
{
    match t {
        TensorTerm::Zero => {
            out.append("0");
        },
        TensorTerm::Delta(left, right) => {
            out.append("delta(");
            out.append(left.symbol());
            out.append(",");
            out.append(right.symbol());
            out.append(")");
        },
        TensorTerm::Gamma(left, right) => {
            out.append("gamma(");
            out.append(left.symbol());
            out.append(",");
            out.append(right.symbol());
            out.append(")");
        },
        TensorTerm::Gamma2(left, right, lower_left, lower_right) => {
            out.append("Gamma(");
            out.append(left.symbol());
            out.append(",");
            out.append(right.symbol());
            out.append(";");
            out.append(lower_left.symbol());
            out.append(",");
            out.append(lower_right.symbol());
            out.append(")");
        },
        TensorTerm::Product(factors) => {
            append_factors_text(out, factors);
        },
        TensorTerm::Sum(terms) => {
            append_sum_text(out, terms);
        },
        TensorTerm::HigherRdm { min_order, product } => {
            out.append("HigherRDM(order=");
            append_decimal(out, *min_order);
            out.append(", fragment=");
            let text = product.to_string();
            out.append(text.as_str());
            out.append(")");
        },
    }
}

fn append_factors_text(out: &mut String, factors: &Vec<TensorTerm>)
    ensures
        final(out)@ == old(out)@ + render_factors(tensor_seq_view(factors@)),
    decreases factors,
{
    let ghost start = out@;
    let ghost fs = tensor_seq_view(factors@);
    proof {
        lemma_tensor_seq_view(factors@);
    }
    let mut i: usize = 0;
    assert(fs.subrange(0, 0) =~= Seq::<SpecTensor>::empty());
    while i < factors.len()
        invariant
            fs == tensor_seq_view(factors@),
            fs.len() == factors@.len(),
            forall|k: int| 0 <= k < fs.len() ==> #[trigger] fs[k] == tensor_view(factors@[k]),
            i <= factors.len(),
            out@ == start + render_factors(fs.subrange(0, i as int)),
        decreases factors.len() - i,
    {
        let ghost before = out@;
        if i > 0 {
            out.append(" * ");
        }
        proof {
            assert(decreases_to!(factors => factors@[i as int]));
        }
        append_tensor_text(out, &factors[i]);
        let ghost next = fs.subrange(0, i + 1);
        assert(next.subrange(0, i as int) =~= fs.subrange(0, i as int));
        assert(next[i as int] == fs[i as int]);
        if i == 0 {
            assert(render_factors(next) == render_tensor(fs[0]));
        } else {
            assert(render_factors(next) == render_factors(fs.subrange(0, i as int)) + " * "@
                + render_tensor(fs[i as int]));
        }
        assert(out@ =~= start + render_factors(next));
        i = i + 1;
    }
    assert(fs.subrange(0, i as int) =~= fs);
}

fn append_signed_tensor(out: &mut String, s: &SignedTensorTerm)
    ensures
        final(out)@ == old(out)@ + render_tensor(signed_view(*s).term),
    decreases s,
{
    append_tensor_text(out, &s.term);
}

fn append_sum_text(out: &mut String, terms: &Vec<SignedTensorTerm>)
    ensures
        final(out)@ == old(out)@ + render_sum(signed_seq_view(terms@)),
    decreases terms,
{
    let ghost start = out@;
    let ghost ts = signed_seq_view(terms@);
    proof {
        lemma_signed_seq_view(terms@);
    }
    let mut i: usize = 0;
    assert(ts.subrange(0, 0) =~= Seq::<SpecSigned>::empty());
    while i < terms.len()
        invariant
            ts == signed_seq_view(terms@),
            ts.len() == terms@.len(),
            forall|k: int| 0 <= k < ts.len() ==> #[trigger] ts[k] == signed_view(terms@[k]),
            i <= terms.len(),
            out@ == start + render_sum(ts.subrange(0, i as int)),
        decreases terms.len() - i,
    {
        let ghost before = out@;
        let signed = &terms[i];
        let is_negative = signed.coefficient < 0;
        if i == 0 {
            if is_negative {
                out.append("- ");
            }
        } else if is_negative {
            out.append(" - ");
        } else {
            out.append(" + ");
        }
        append_coefficient(out, signed.coefficient);
        proof {
            assert(decreases_to!(terms => terms@[i as int]));
        }
        append_signed_tensor(out, signed);
        let ghost next = ts.subrange(0, i + 1);
        assert(next.subrange(0, i as int) =~= ts.subrange(0, i as int));
        assert(next[i as int] == ts[i as int]);
        assert(render_sum(next) == render_sum(ts.subrange(0, i as int)) + sum_piece(
            i == 0,
            ts[i as int],
        ));
        assert(out@ =~= start + render_sum(next));
        i = i + 1;
    }
    assert(ts.subrange(0, i as int) =~= ts);
}

impl TensorTerm {
    /// The expression as text, for example `delta(i,l) * delta(j,k) - delta(i,k) * delta(j,l)`.
    pub fn to_string(&self) -> (res: String)
        ensures
            res@ == render_tensor(self@),
    {
        let mut out = String::new();
        append_tensor_text(&mut out, self);
        assert(out@ =~= render_tensor(self@));
        out
    }
}

impl SignedTensorTerm {
    /// The term as text: `- ` when negative, the absolute coefficient unless it is 1,
    /// then the tensor.
    pub fn to_string(&self) -> (res: String)
        ensures
            res@ == render_signed(self@),
    {
        let mut out = String::new();
        if self.coefficient < 0 {
            out.append("- ");
        }
        append_coefficient(&mut out, self.coefficient);
        append_tensor_text(&mut out, &self.term);
        assert(out@ =~= render_signed(self@));
        out
    }
}

impl SimplifiedTensorForm {
    /// The form as text.
    pub fn to_string(&self) -> (res: String)
        ensures
            res@ == render_tensor(self@),
    {
        self.term.to_string()
    }
}

} // verus!
