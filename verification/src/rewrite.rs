//! Fermionic normal ordering of operator strings.
use vstd::prelude::*;
use vstd::string::StringExecFns;

use crate::ast::{
    render_product, FermionOp, FermionOpKind, Index, IndexSpace, OperatorProduct, SpecIndex, SpecOp, index_order,
    lemma_index_order_flip, same_index, space_rank,
};
use crate::canonicalize::canonical_order;
use crate::constraints::{DeltaConstraint, SpecDelta, render_delta};
use crate::sorting::{SortKey, lemma_views_index, lemma_views_len, lemma_views_push, sort_stable, stable_sort, views};
use crate::text::{
    Order, append_decimal, compare_text, compare_text_lists, decimal_text, flip, int_order,
    join_spaced, join_with_spaces, lemma_lex_list_order_flip, lemma_lex_order_flip, lex_list_order,
    lex_order, same_text, then_order,
};

verus! {

/// Options of simplification; there are none yet.
#[derive(Debug, Clone, Copy, PartialEq, Eq, Structural)]
pub struct SimplifyConfig;

impl Default for SimplifyConfig {
    fn default() -> (res: Self)
        ensures
            res == SimplifyConfig,
    {
        SimplifyConfig
    }
}

/// Why an operator string could not be simplified.
#[derive(Debug, Clone, Copy, PartialEq, Eq, Structural)]
pub enum SimplifyError {
    EmptyOperatorProduct,
}

/// A term as a value: coefficient, delta factors and operator string.
pub struct SpecTerm {
    pub coefficient: int,
    pub deltas: Seq<SpecDelta>,
    pub product: Seq<SpecOp>,
}

/// A signed product of delta constraints and an operator string.
#[derive(Debug, PartialEq, Eq)]
pub struct NormalOrderedTerm {
    coefficient: i8,
    deltas: Vec<DeltaConstraint>,
    product: OperatorProduct,
}

impl View for NormalOrderedTerm {
    type V = SpecTerm;

    closed spec fn view(&self) -> SpecTerm {
        SpecTerm {
            coefficient: self.coefficient as int,
            deltas: views(self.deltas@),
            product: self.product@,
        }
    }
}

impl Clone for NormalOrderedTerm {
    fn clone(&self) -> (res: Self)
        ensures
            res@ == self@,
    {
        let deltas = self.deltas.clone();
        assert(views(deltas@) =~= views(self.deltas@));
        NormalOrderedTerm { coefficient: self.coefficient, deltas, product: self.product.clone() }
    }
}

impl NormalOrderedTerm {
    pub fn new(coefficient: i8, deltas: Vec<DeltaConstraint>, product: OperatorProduct) -> (res:
        Self)
        ensures
            res@ == (SpecTerm {
                coefficient: coefficient as int,
                deltas: views(deltas@),
                product: product@,
            }),
    {
        NormalOrderedTerm { coefficient, deltas, product }
    }

    pub fn coefficient(&self) -> (res: i8)
        ensures
            res as int == self@.coefficient,
    {
        self.coefficient
    }

    pub fn deltas(&self) -> (res: &[DeltaConstraint])
        ensures
            views(res@) == self@.deltas,
    {
        self.deltas.as_slice()
    }

    pub fn product(&self) -> (res: &OperatorProduct)
        ensures
            res@ == self@.product,
    {
        &self.product
    }
}

/// A sum of normal-ordered terms.
#[derive(Debug, PartialEq, Eq)]
pub struct NormalOrderedExpr {
    terms: Vec<NormalOrderedTerm>,
}

impl View for NormalOrderedExpr {
    type V = Seq<SpecTerm>;

    closed spec fn view(&self) -> Seq<SpecTerm> {
        views(self.terms@)
    }
}

impl Clone for NormalOrderedExpr {
    fn clone(&self) -> (res: Self)
        ensures
            res@ == self@,
    {
        let mut terms: Vec<NormalOrderedTerm> = Vec::new();
        let mut i: usize = 0;
        while i < self.terms.len()
            invariant
                i <= self.terms.len(),
                views(terms@) == views(self.terms@).take(i as int),
            decreases self.terms.len() - i,
        {
            let c = self.terms[i].clone();
            proof {
                lemma_views_index(self.terms@, i as int);
                lemma_views_push(terms@, c);
            }
            terms.push(c);
            assert(views(terms@) =~= views(self.terms@).take(i + 1));
            i = i + 1;
        }
        assert(views(self.terms@).take(i as int) =~= views(self.terms@));
        NormalOrderedExpr { terms }
    }
}

impl NormalOrderedExpr {
    pub fn new(terms: Vec<NormalOrderedTerm>) -> (res: Self)
        ensures
            res@ == views(terms@),
    {
        NormalOrderedExpr { terms }
    }

    pub fn terms(&self) -> (res: &[NormalOrderedTerm])
        ensures
            views(res@) == self@,
    {
        self.terms.as_slice()
    }
}

pub type SimplifiedOperatorForm = NormalOrderedExpr;

pub type SimplifiedTerm = NormalOrderedTerm;

// ---------------------------------------------------------------------------
// The rewrite rules
// ---------------------------------------------------------------------------
/// One step of normal ordering, at a position of the string.
pub enum SpecRewrite {
    /// Two equal adjacent operators: the term vanishes.
    Zero,
    /// Two adjacent operators of one kind out of order: swap them, flip the sign.
    SameKindSwap(int),
    /// An annihilator before a creator: a delta term without the pair, minus the
    /// swapped string.
    MixedSwap(int),
}

/// The rewrite that the pair `left`, `right` at `position` calls for, if any.
pub open spec fn pair_rewrite(position: int, left: SpecOp, right: SpecOp) -> Option<SpecRewrite> {
    if left.kind == right.kind && left.index == right.index {
        Some(SpecRewrite::Zero)
    } else if left.kind == FermionOpKind::Annihilate && right.kind == FermionOpKind::Create {
        Some(SpecRewrite::MixedSwap(position))
    } else if left.kind == right.kind && index_order(left.index, right.index) == Order::Greater {
        Some(SpecRewrite::SameKindSwap(position))
    } else {
        None
    }
}

/// The first rewrite called for by an adjacent pair at `start` or later.
pub open spec fn first_rewrite_from(ops: Seq<SpecOp>, start: int) -> Option<SpecRewrite>
    decreases ops.len() - start,
{
    if start < 0 || start + 1 >= ops.len() {
        None
    } else {
        match pair_rewrite(start, ops[start], ops[start + 1]) {
            Some(r) => Some(r),
            None => first_rewrite_from(ops, start + 1),
        }
    }
}

/// The first rewrite that the string calls for, scanning from the left.
pub open spec fn first_rewrite(ops: Seq<SpecOp>) -> Option<SpecRewrite> {
    first_rewrite_from(ops, 0)
}

/// `s` with the elements at `p` and `p + 1` exchanged.
pub open spec fn swap_at<A>(s: Seq<A>, p: int) -> Seq<A> {
    s.update(p, s[p + 1]).update(p + 1, s[p])
}

/// `s` without the elements at `p` and `p + 1`.
pub open spec fn remove_pair<A>(s: Seq<A>, p: int) -> Seq<A> {
    s.subrange(0, p) + s.subrange(p + 2, s.len() as int)
}

/// The delta order: by left index, then by right index.
pub open spec fn delta_order(a: SpecDelta, b: SpecDelta) -> Order {
    then_order(index_order(a.left, b.left), index_order(a.right, b.right))
}

impl SortKey for DeltaConstraint {
    open spec fn spec_after(a: SpecDelta, b: SpecDelta) -> bool {
        delta_order(a, b) == Order::Greater
    }

    fn after(&self, other: &Self) -> (res: bool) {
        match compare_delta_constraints(self, other) {
            Order::Greater => true,
            _ => false,
        }
    }

    proof fn lemma_after_asymmetric(a: SpecDelta, b: SpecDelta) {
        lemma_index_order_flip(a.left, b.left);
        lemma_index_order_flip(a.right, b.right);
    }
}

/// A finished term: its deltas sorted stably and its string in canonical order.
pub open spec fn canonical_term(coefficient: int, deltas: Seq<SpecDelta>, ops: Seq<SpecOp>) -> SpecTerm {
    SpecTerm {
        coefficient,
        deltas: stable_sort::<DeltaConstraint>(deltas),
        product: canonical_order(ops),
    }
}

/// Whether `x` before `y` is out of normal order: an annihilator before a creator, or
/// two operators of one kind with the larger index first.
pub open spec fn out_of_order(x: SpecOp, y: SpecOp) -> bool {
    ||| x.kind == FermionOpKind::Annihilate && y.kind == FermionOpKind::Create
    ||| x.kind == y.kind && index_order(x.index, y.index) == Order::Greater
}

/// The number of elements of `rest` that are out of order after `x`.
pub open spec fn count_out_of_order(x: SpecOp, rest: Seq<SpecOp>) -> nat
    decreases rest.len(),
{
    if rest.len() == 0 {
        0
    } else {
        (if out_of_order(x, rest[0]) {
            1nat
        } else {
            0nat
        }) + count_out_of_order(x, rest.drop_first())
    }
}

/// The number of pairs of the string, in any distance, that are out of order.
pub open spec fn inversions(ops: Seq<SpecOp>) -> nat
    decreases ops.len(),
{
    if ops.len() == 0 {
        0
    } else {
        count_out_of_order(ops[0], ops.drop_first()) + inversions(ops.drop_first())
    }
}

pub proof fn lemma_count_swap(x: SpecOp, r: Seq<SpecOp>, q: int)
    requires
        0 <= q < r.len() - 1,
    ensures
        count_out_of_order(x, swap_at(r, q)) == count_out_of_order(x, r),
    decreases r.len(),
{
    let t = swap_at(r, q);
    if q == 0 {
        let rest = r.drop_first().drop_first();
        assert(t.drop_first().drop_first() =~= rest);
        assert(t[0] == r[1]);
        assert(t[1] == r[0]);
        assert(t.drop_first()[0] == r[0]);
        assert(r.drop_first()[0] == r[1]);
        assert(count_out_of_order(x, t.drop_first()) == (if out_of_order(x, r[0]) {
            1nat
        } else {
            0nat
        }) + count_out_of_order(x, rest));
        assert(count_out_of_order(x, r.drop_first()) == (if out_of_order(x, r[1]) {
            1nat
        } else {
            0nat
        }) + count_out_of_order(x, rest));
    } else {
        assert(t.drop_first() =~= swap_at(r.drop_first(), q - 1));
        lemma_count_swap(x, r.drop_first(), q - 1);
    }
}

/// Exchanging an adjacent pair that is out of order, and whose reverse is not,
/// lowers the number of inversions.
pub proof fn lemma_swap_lowers_inversions(s: Seq<SpecOp>, p: int)
    requires
        0 <= p < s.len() - 1,
        out_of_order(s[p], s[p + 1]),
        !out_of_order(s[p + 1], s[p]),
    ensures
        inversions(swap_at(s, p)) < inversions(s),
    decreases s.len(),
{
    let t = swap_at(s, p);
    if p == 0 {
        let a = s[0];
        let b = s[1];
        let rest = s.drop_first().drop_first();
        assert(t.drop_first().drop_first() =~= rest);
        assert(t[0] == b);
        assert(t[1] == a);
        assert(s.drop_first()[0] == b);
        assert(t.drop_first()[0] == a);
        assert(count_out_of_order(a, s.drop_first()) == 1 + count_out_of_order(a, rest));
        assert(count_out_of_order(b, t.drop_first()) == count_out_of_order(b, rest));
        assert(inversions(s.drop_first()) == count_out_of_order(b, rest) + inversions(rest));
        assert(inversions(t.drop_first()) == count_out_of_order(a, rest) + inversions(rest));
    } else {
        assert(t.drop_first() =~= swap_at(s.drop_first(), p - 1));
        assert(t[0] == s[0]);
        lemma_swap_lowers_inversions(s.drop_first(), p - 1);
        lemma_count_swap(s[0], s.drop_first(), p - 1);
    }
}

/// What the first rewrite found says of the string.
pub proof fn lemma_first_rewrite_from(ops: Seq<SpecOp>, start: int)
    requires
        0 <= start,
    ensures
        match first_rewrite_from(ops, start) {
            Some(SpecRewrite::SameKindSwap(p)) => {
                &&& start <= p < ops.len() - 1
                &&& pair_rewrite(p, ops[p], ops[p + 1]) == Some(SpecRewrite::SameKindSwap(p))
            },
            Some(SpecRewrite::MixedSwap(p)) => {
                &&& start <= p < ops.len() - 1
                &&& pair_rewrite(p, ops[p], ops[p + 1]) == Some(SpecRewrite::MixedSwap(p))
            },
            Some(SpecRewrite::Zero) => exists|p: int|
                start <= p < ops.len() - 1 && #[trigger] pair_rewrite(p, ops[p], ops[p + 1])
                    == Some(SpecRewrite::Zero),
            None => forall|i: int|
                start <= i < ops.len() - 1 ==> #[trigger] pair_rewrite(i, ops[i], ops[i + 1])
                    is None,
        },
    decreases ops.len() - start,
{
    if start + 1 < ops.len() {
        lemma_first_rewrite_from(ops, start + 1);
        if pair_rewrite(start, ops[start], ops[start + 1]) == Some(SpecRewrite::Zero) {
            assert(pair_rewrite(start, ops[start], ops[start + 1]) == Some(SpecRewrite::Zero));
        }
    }
}

/// A swap that the rules call for lowers the number of inversions.
pub proof fn lemma_rewrite_swap_lowers(ops: Seq<SpecOp>, p: int)
    requires
        0 <= p < ops.len() - 1,
        pair_rewrite(p, ops[p], ops[p + 1]) == Some(SpecRewrite::SameKindSwap(p))
            || pair_rewrite(p, ops[p], ops[p + 1]) == Some(SpecRewrite::MixedSwap(p)),
    ensures
        inversions(swap_at(ops, p)) < inversions(ops),
{
    lemma_index_order_flip(ops[p].index, ops[p + 1].index);
    lemma_swap_lowers_inversions(ops, p);
}

/// The normal-ordered expansion of `coefficient * deltas * ops`: rewrite at the first
/// pair that calls for it until none does, then finish the term.
pub open spec fn normal_order_terms(coefficient: int, deltas: Seq<SpecDelta>, ops: Seq<SpecOp>) -> Seq<
    SpecTerm,
>
    decreases ops.len(), inversions(ops),
{
    if coefficient == 0 {
        Seq::empty()
    } else {
        match first_rewrite(ops) {
            None => seq![canonical_term(coefficient, deltas, ops)],
            Some(SpecRewrite::Zero) => Seq::empty(),
            Some(SpecRewrite::SameKindSwap(p)) => {
                proof {
                    lemma_first_rewrite_from(ops, 0);
                    lemma_rewrite_swap_lowers(ops, p);
                }
                normal_order_terms(-coefficient, deltas, swap_at(ops, p))
            },
            Some(SpecRewrite::MixedSwap(p)) => {
                proof {
                    lemma_first_rewrite_from(ops, 0);
                    lemma_rewrite_swap_lowers(ops, p);
                }
                normal_order_terms(
                    coefficient,
                    deltas.push(SpecDelta { left: ops[p].index, right: ops[p + 1].index }),
                    remove_pair(ops, p),
                ) + normal_order_terms(-coefficient, deltas, swap_at(ops, p))
            },
        }
    }
}

// ---------------------------------------------------------------------------
// Executable rewriting
// ---------------------------------------------------------------------------
enum RewriteAction {
    Zero,
    SameKindSwap(usize),
    MixedSwap(usize),
}

spec fn action_view(a: Option<RewriteAction>) -> Option<SpecRewrite> {
    match a {
        None => None,
        Some(RewriteAction::Zero) => Some(SpecRewrite::Zero),
        Some(RewriteAction::SameKindSwap(p)) => Some(SpecRewrite::SameKindSwap(p as int)),
        Some(RewriteAction::MixedSwap(p)) => Some(SpecRewrite::MixedSwap(p as int)),
    }
}

fn index_space_rank(space: IndexSpace) -> (res: u8)
    ensures
        res == space_rank(space),
{
    match space {
        IndexSpace::Core => 0,
        IndexSpace::Active => 1,
        IndexSpace::Virtual => 2,
        IndexSpace::General => 3,
    }
}

/// Compares two indices by symbol, then by the rank of their space.
fn compare_index(left: &Index, right: &Index) -> (res: Order)
    ensures
        res == index_order(left@, right@),
{
    match compare_text(left.symbol(), right.symbol()) {
        Order::Less => Order::Less,
        Order::Greater => Order::Greater,
        Order::Equal => {
            let l = index_space_rank(left.space());
            let r = index_space_rank(right.space());
            if l < r {
                Order::Less
            } else if l == r {
                Order::Equal
            } else {
                Order::Greater
            }
        },
    }
}

/// Compares two deltas by left index, then by right index.
fn compare_delta_constraints(left: &DeltaConstraint, right: &DeltaConstraint) -> (res: Order)
    ensures
        res == delta_order(left@, right@),
{
    match compare_index(left.left(), right.left()) {
        Order::Equal => compare_index(left.right(), right.right()),
        o => o,
    }
}

fn classify_adjacent_pair(position: usize, left: &FermionOp, right: &FermionOp) -> (res: Option<
    RewriteAction,
>)
    ensures
        action_view(res) == pair_rewrite(position as int, left@, right@),
{
    if left.kind() == right.kind() && same_index(left.index(), right.index()) {
        return Some(RewriteAction::Zero);
    }
    match (left.kind(), right.kind()) {
        (FermionOpKind::Annihilate, FermionOpKind::Create) => Some(RewriteAction::MixedSwap(position)),
        (kind, other_kind) => {
            if kind == other_kind {
                match compare_index(left.index(), right.index()) {
                    Order::Greater => Some(RewriteAction::SameKindSwap(position)),
                    _ => None,
                }
            } else {
                None
            }
        },
    }
}

fn first_rewrite_action(product: &OperatorProduct) -> (res: Option<RewriteAction>)
    ensures
        action_view(res) == first_rewrite(product@),
{
    let ops = product.ops();
    let ghost s = product@;
    let mut position: usize = 0;
    while ops.len() > 0 && position < ops.len() - 1
        invariant
            s == views(ops@),
            s == product@,
            position <= ops.len(),
            first_rewrite(s) == first_rewrite_from(s, position as int),
        decreases ops.len() - position,
    {
        proof {
            lemma_views_index(ops@, position as int);
            lemma_views_index(ops@, position + 1);
        }
        let found = classify_adjacent_pair(position, &ops[position], &ops[position + 1]);
        if found.is_some() {
            assert(pair_rewrite(position as int, s[position as int], s[position + 1]) is Some);
            assert(first_rewrite_from(s, position as int) == pair_rewrite(
                position as int,
                s[position as int],
                s[position + 1],
            ));
            return found;
        }
        position = position + 1;
    }
    None
}

/// The string with the operators at `position` and `position + 1` exchanged.
fn swap_adjacent(product: &OperatorProduct, position: usize) -> (res: OperatorProduct)
    requires
        position + 1 < product@.len(),
    ensures
        res@ == swap_at(product@, position as int),
{
    let mut ops = product.clone().into_ops();
    let ghost s = views(ops@);
    let n = ops.len();
    assert(s.len() == n);
    let second = ops.remove(position + 1);
    ops.insert(position, second);
    assert(views(ops@) =~= swap_at(s, position as int));
    OperatorProduct::new(ops)
}

/// The string without the operators at `position` and `position + 1`.
fn remove_adjacent_pair(product: &OperatorProduct, position: usize) -> (res: OperatorProduct)
    requires
        position + 1 < product@.len(),
    ensures
        res@ == remove_pair(product@, position as int),
{
    let mut ops = product.clone().into_ops();
    let ghost s = views(ops@);
    let n = ops.len();
    assert(s.len() == n);
    ops.remove(position + 1);
    ops.remove(position);
    assert(views(ops@) =~= remove_pair(s, position as int));
    OperatorProduct::new(ops)
}

fn copy_deltas(deltas: &[DeltaConstraint]) -> (res: Vec<DeltaConstraint>)
    ensures
        views(res@) == views(deltas@),
{
    let mut out: Vec<DeltaConstraint> = Vec::new();
    let mut i: usize = 0;
    while i < deltas.len()
        invariant
            i <= deltas.len(),
            views(out@) == views(deltas@).take(i as int),
        decreases deltas.len() - i,
    {
        let c = deltas[i].clone();
        proof {
            lemma_views_index(deltas@, i as int);
            lemma_views_push(out@, c);
        }
        out.push(c);
        assert(views(out@) =~= views(deltas@).take(i + 1));
        i = i + 1;
    }
    assert(views(deltas@).take(i as int) =~= views(deltas@));
    out
}

fn canonicalize_term(term: NormalOrderedTerm) -> (res: NormalOrderedTerm)
    ensures
        res@ == canonical_term(term@.coefficient, term@.deltas, term@.product),
{
    let NormalOrderedTerm { coefficient, deltas, product } = term;
    let deltas = sort_stable(deltas);
    let product = product.canonicalize();
    NormalOrderedTerm { coefficient, deltas, product }
}

fn normal_order_term(term: NormalOrderedTerm) -> (res: Vec<NormalOrderedTerm>)
    requires
        term@.coefficient > -128,
    ensures
        views(res@) == normal_order_terms(term@.coefficient, term@.deltas, term@.product),
    decreases term@.product.len(), inversions(term@.product),
{
    let ghost t = term@;
    if term.coefficient() == 0 {
        return Vec::new();
    }
    proof {
        lemma_first_rewrite_from(t.product, 0);
    }
    match first_rewrite_action(term.product()) {
        None => {
            let res = vec![canonicalize_term(term)];
            assert(views(res@) =~= seq![canonical_term(t.coefficient, t.deltas, t.product)]);
            res
        },
        Some(RewriteAction::Zero) => Vec::new(),
        Some(RewriteAction::SameKindSwap(position)) => {
            proof {
                lemma_rewrite_swap_lowers(t.product, position as int);
            }
            let swapped = swap_adjacent(term.product(), position);
            normal_order_term(
                NormalOrderedTerm::new(-term.coefficient(), copy_deltas(term.deltas()), swapped),
            )
        },
        Some(RewriteAction::MixedSwap(position)) => {
            proof {
                lemma_rewrite_swap_lowers(t.product, position as int);
            }
            let ops = term.product().ops();
            let left = ops[position].index().clone();
            let right = ops[position + 1].index().clone();
            let mut delta_constraints = copy_deltas(term.deltas());
            delta_constraints.push(DeltaConstraint::new(left, right));
            assert(views(delta_constraints@) =~= t.deltas.push(
                SpecDelta { left: t.product[position as int].index, right: t.product[position + 1].index },
            ));
            let delta_branch = NormalOrderedTerm::new(
                term.coefficient(),
                delta_constraints,
                remove_adjacent_pair(term.product(), position),
            );
            let swapped_branch = NormalOrderedTerm::new(
                -term.coefficient(),
                copy_deltas(term.deltas()),
                swap_adjacent(term.product(), position),
            );
            let mut terms = normal_order_term(delta_branch);
            let ghost first = views(terms@);
            let mut rest = normal_order_term(swapped_branch);
            let ghost second = views(rest@);
            terms.append(&mut rest);
            assert(views(terms@) =~= first + second);
            terms
        },
    }
}

// ---------------------------------------------------------------------------
// Combining like terms
// ---------------------------------------------------------------------------
/// The texts of the deltas, in order.
pub open spec fn delta_texts(deltas: Seq<SpecDelta>) -> Seq<Seq<char>> {
    deltas.map_values(|d: SpecDelta| render_delta(d))
}

/// Order of delta lists: by length, then by their texts, lexicographically.
pub open spec fn delta_list_order(a: Seq<SpecDelta>, b: Seq<SpecDelta>) -> Order {
    then_order(int_order(a.len() as int, b.len() as int), lex_list_order(delta_texts(a), delta_texts(b)))
}

/// Order of terms: by the length of the string, then by the deltas, then by the text
/// of the string.
pub open spec fn term_order(a: SpecTerm, b: SpecTerm) -> Order {
    then_order(
        int_order(a.product.len() as int, b.product.len() as int),
        then_order(
            delta_list_order(a.deltas, b.deltas),
            lex_order(render_product(a.product), render_product(b.product)),
        ),
    )
}

impl SortKey for NormalOrderedTerm {
    open spec fn spec_after(a: SpecTerm, b: SpecTerm) -> bool {
        term_order(a, b) == Order::Greater
    }

    fn after(&self, other: &Self) -> (res: bool) {
        match compare_terms(self, other) {
            Order::Greater => true,
            _ => false,
        }
    }

    proof fn lemma_after_asymmetric(a: SpecTerm, b: SpecTerm) {
        lemma_lex_list_order_flip(delta_texts(a.deltas), delta_texts(b.deltas));
        lemma_lex_order_flip(render_product(a.product), render_product(b.product));
    }
}

/// Two terms differ at most in their coefficient.
pub open spec fn same_structure(a: SpecTerm, b: SpecTerm) -> bool {
    a.deltas == b.deltas && a.product == b.product
}

/// Adjacent terms of the same structure merged into one, their coefficients added.
pub open spec fn merge_like_terms(s: Seq<SpecTerm>) -> Seq<SpecTerm>
    decreases s.len(),
{
    if s.len() == 0 {
        s
    } else {
        let m = merge_like_terms(s.drop_last());
        let t = s.last();
        if m.len() > 0 && same_structure(m.last(), t) {
            m.update(
                m.len() - 1,
                SpecTerm { coefficient: m.last().coefficient + t.coefficient, ..m.last() },
            )
        } else {
            m.push(t)
        }
    }
}

/// Every running sum that merging forms fits in an `i8`.
pub open spec fn merge_fits(s: Seq<SpecTerm>) -> bool
    decreases s.len(),
{
    if s.len() == 0 {
        true
    } else {
        &&& merge_fits(s.drop_last())
        &&& -128 <= merge_like_terms(s).last().coefficient <= 127
    }
}

/// The terms whose coefficient is not zero, in order.
pub open spec fn drop_zero_terms(s: Seq<SpecTerm>) -> Seq<SpecTerm>
    decreases s.len(),
{
    if s.len() == 0 {
        s
    } else if s.last().coefficient != 0 {
        drop_zero_terms(s.drop_last()).push(s.last())
    } else {
        drop_zero_terms(s.drop_last())
    }
}

/// Like terms combined: sorted stably, equal structures merged, zeros dropped.
pub open spec fn combine_like(s: Seq<SpecTerm>) -> Seq<SpecTerm> {
    drop_zero_terms(merge_like_terms(stable_sort::<NormalOrderedTerm>(s)))
}

/// The normal-ordered form of a string: its expansion with like terms combined.
pub open spec fn normal_ordered(ops: Seq<SpecOp>) -> Seq<SpecTerm> {
    combine_like(normal_order_terms(1, Seq::empty(), ops))
}

/// Combining the like terms of the expansion of `ops` keeps every coefficient in
/// the range of `i8`, as its arithmetic needs.
pub open spec fn like_terms_fit(ops: Seq<SpecOp>) -> bool {
    merge_fits(stable_sort::<NormalOrderedTerm>(normal_order_terms(1, Seq::empty(), ops)))
}

pub proof fn lemma_merge_like_len(s: Seq<SpecTerm>)
    ensures
        merge_like_terms(s).len() <= s.len(),
        s.len() > 0 ==> merge_like_terms(s).len() > 0,
    decreases s.len(),
{
    if s.len() > 0 {
        lemma_merge_like_len(s.drop_last());
    }
}

pub proof fn lemma_merge_fits_prefix(s: Seq<SpecTerm>, k: int)
    requires
        merge_fits(s),
        0 <= k <= s.len(),
    ensures
        merge_fits(s.take(k)),
    decreases s.len(),
{
    if k < s.len() {
        assert(s.drop_last().take(k) =~= s.take(k));
        lemma_merge_fits_prefix(s.drop_last(), k);
    } else {
        assert(s.take(k) =~= s);
    }
}

fn render_delta_text(delta: &DeltaConstraint) -> (res: String)
    ensures
        res@ == render_delta(delta@),
{
    let mut out = String::new();
    out.append("delta(");
    out.append(delta.left().symbol());
    out.append(",");
    out.append(delta.right().symbol());
    out.append(")");
    out
}

fn render_delta_texts(deltas: &[DeltaConstraint]) -> (res: Vec<String>)
    ensures
        views(res@) == delta_texts(views(deltas@)),
{
    let mut out: Vec<String> = Vec::new();
    let mut i: usize = 0;
    while i < deltas.len()
        invariant
            i <= deltas.len(),
            views(out@) == delta_texts(views(deltas@)).take(i as int),
        decreases deltas.len() - i,
    {
        let text = render_delta_text(&deltas[i]);
        proof {
            lemma_views_index(deltas@, i as int);
        }
        assert(delta_texts(views(deltas@))[i as int] == render_delta(deltas@[i as int]@));
        proof {
            lemma_views_push(out@, text);
        }
        out.push(text);
        assert(views(out@) =~= delta_texts(views(deltas@)).take(i + 1));
        i = i + 1;
    }
    assert(delta_texts(views(deltas@)).take(i as int) =~= delta_texts(views(deltas@)));
    out
}

fn compare_delta_slices(left: &[DeltaConstraint], right: &[DeltaConstraint]) -> (res: Order)
    ensures
        res == delta_list_order(views(left@), views(right@)),
{
    proof {
        assert(views(left@).len() == left@.len());
        assert(views(right@).len() == right@.len());
    }
    if left.len() < right.len() {
        Order::Less
    } else if left.len() > right.len() {
        Order::Greater
    } else {
        compare_text_lists(&render_delta_texts(left), &render_delta_texts(right))
    }
}

fn compare_terms(left: &NormalOrderedTerm, right: &NormalOrderedTerm) -> (res: Order)
    ensures
        res == term_order(left@, right@),
{
    let lops = left.product().ops();
    let rops = right.product().ops();
    let ll = lops.len();
    let rl = rops.len();
    proof {
        lemma_views_len(lops@);
        lemma_views_len(rops@);
    }
    if ll < rl {
        Order::Less
    } else if ll > rl {
        Order::Greater
    } else {
        match compare_delta_slices(left.deltas(), right.deltas()) {
            Order::Equal => compare_text(
                left.product().to_string().as_str(),
                right.product().to_string().as_str(),
            ),
            o => o,
        }
    }
}

fn same_ops(a: &[FermionOp], b: &[FermionOp]) -> (res: bool)
    ensures
        res == (views(a@) == views(b@)),
{
    if a.len() != b.len() {
        proof {
            lemma_views_len(a@);
            lemma_views_len(b@);
        }
        return false;
    }
    let mut i: usize = 0;
    while i < a.len()
        invariant
            a.len() == b.len(),
            i <= a.len(),
            forall|j: int| 0 <= j < i ==> a@[j]@ == b@[j]@,
        decreases a.len() - i,
    {
        if !(a[i].kind() == b[i].kind() && same_index(a[i].index(), b[i].index())) {
            proof {
                lemma_views_index(a@, i as int);
                lemma_views_index(b@, i as int);
            }
            return false;
        }
        i = i + 1;
    }
    assert(views(a@) =~= views(b@));
    true
}

fn same_deltas(a: &[DeltaConstraint], b: &[DeltaConstraint]) -> (res: bool)
    ensures
        res == (views(a@) == views(b@)),
{
    if a.len() != b.len() {
        proof {
            lemma_views_len(a@);
            lemma_views_len(b@);
        }
        return false;
    }
    let mut i: usize = 0;
    while i < a.len()
        invariant
            a.len() == b.len(),
            i <= a.len(),
            forall|j: int| 0 <= j < i ==> a@[j]@ == b@[j]@,
        decreases a.len() - i,
    {
        if !(same_index(a[i].left(), b[i].left()) && same_index(a[i].right(), b[i].right())) {
            proof {
                lemma_views_index(a@, i as int);
                lemma_views_index(b@, i as int);
            }
            return false;
        }
        i = i + 1;
    }
    assert(views(a@) =~= views(b@));
    true
}

fn same_structure_terms(left: &NormalOrderedTerm, right: &NormalOrderedTerm) -> (res: bool)
    ensures
        res == same_structure(left@, right@),
{
    same_deltas(left.deltas(), right.deltas()) && same_ops(
        left.product().ops(),
        right.product().ops(),
    )
}

fn combine_like_terms(terms: &mut Vec<NormalOrderedTerm>)
    requires
        merge_fits(stable_sort::<NormalOrderedTerm>(views(old(terms)@))),
    ensures
        views(final(terms)@) == combine_like(views(old(terms)@)),
{
    let mut taken: Vec<NormalOrderedTerm> = Vec::new();
    std::mem::swap(&mut taken, terms);
    let sorted = sort_stable(taken);
    let ghost s = views(sorted@);
    let mut rest = sorted;
    let mut combined: Vec<NormalOrderedTerm> = Vec::new();
    let ghost mut i: int = 0;
    assert(s.take(0) =~= Seq::<SpecTerm>::empty());
    assert(views(combined@) =~= Seq::<SpecTerm>::empty());
    assert(views(rest@) =~= s.skip(0));
    while rest.len() > 0
        invariant
            0 <= i <= s.len(),
            merge_fits(s),
            views(combined@) == merge_like_terms(s.take(i)),
            views(rest@) == s.skip(i),
        decreases rest.len(),
    {
        let ghost old_rest = rest@;
        proof {
            lemma_views_index(old_rest, 0);
        }
        let term = rest.remove(0);
        let ghost t = s.take(i + 1);
        assert(t.drop_last() =~= s.take(i));
        assert(t.last() == term@);
        proof {
            lemma_merge_fits_prefix(s, i + 1);
            lemma_merge_like_len(t);
        }
        let n = combined.len();
        if n > 0 && same_structure_terms(&combined[n - 1], &term) {
            proof {
                lemma_views_index(combined@, n - 1);
            }
            let mut last = combined.pop().unwrap();
            let ghost last_view = last@;
            let sum = last.coefficient + term.coefficient;
            last.coefficient = sum;
            proof {
                lemma_views_push(combined@, last);
            }
            combined.push(last);
            assert(views(combined@) =~= merge_like_terms(t));
        } else {
            proof {
                lemma_views_push(combined@, term);
            }
            combined.push(term);
        }
        assert(views(rest@) =~= views(old_rest).drop_first());
        assert(views(rest@) =~= s.skip(i + 1));
        proof {
            i = i + 1;
        }
    }
    assert(s.take(i) =~= s);
    let ghost m = views(combined@);
    let mut kept: Vec<NormalOrderedTerm> = Vec::new();
    let mut k: usize = 0;
    let n = combined.len();
    assert(m.len() == n);
    assert(m.take(0) =~= Seq::<SpecTerm>::empty());
    assert(views(kept@) =~= Seq::<SpecTerm>::empty());
    while combined.len() > 0
        invariant
            m.len() == n,
            k + combined.len() == n,
            views(kept@) == drop_zero_terms(m.take(k as int)),
            views(combined@) == m.skip(k as int),
        decreases combined.len(),
    {
        let ghost old_c = combined@;
        proof {
            lemma_views_index(old_c, 0);
        }
        let term = combined.remove(0);
        assert(m.take(k + 1).drop_last() =~= m.take(k as int));
        assert(m.take(k + 1).last() == term@);
        if term.coefficient != 0 {
            proof {
                lemma_views_push(kept@, term);
            }
            kept.push(term);
        }
        assert(views(combined@) =~= views(old_c).drop_first());
        assert(views(combined@) =~= m.skip(k + 1));
        k = k + 1;
    }
    assert(m.take(k as int) =~= m);
    *terms = kept;
}

/// The last term of a merge has the deltas and string of the last term merged.
proof fn lemma_merge_last_structure(s: Seq<SpecTerm>)
    requires
        s.len() > 0,
    ensures
        merge_like_terms(s).len() > 0,
        merge_like_terms(s).last().deltas == s.last().deltas,
        merge_like_terms(s).last().product == s.last().product,
    decreases s.len(),
{
    lemma_merge_like_len(s);
    if s.len() > 1 {
        lemma_merge_last_structure(s.drop_last());
    }
}

/// Whether every running sum that merging the sorted terms forms fits in an `i8`.
fn merge_fits_check(terms: &Vec<NormalOrderedTerm>) -> (res: bool)
    ensures
        res == merge_fits(views(terms@)),
{
    let ghost s = views(terms@);
    let n = terms.len();
    proof {
        lemma_views_len(terms@);
    }
    let mut acc: i16 = 0;
    let mut i: usize = 0;
    assert(s.take(0) =~= Seq::<SpecTerm>::empty());
    while i < n
        invariant
            s == views(terms@),
            n == terms.len(),
            n == s.len(),
            i <= n,
            merge_fits(s.take(i as int)),
            i > 0 ==> acc as int == merge_like_terms(s.take(i as int)).last().coefficient,
        decreases n - i,
    {
        let ghost p = s.take(i as int);
        let ghost q = s.take(i + 1);
        assert(q.drop_last() =~= p);
        proof {
            lemma_views_index(terms@, i as int);
        }
        assert(q.last() == s[i as int]);
        let c = terms[i].coefficient() as i16;
        let ghost m = merge_like_terms(p);
        assert(merge_like_terms(q) == (if m.len() > 0 && same_structure(m.last(), s[i as int]) {
            m.update(
                m.len() - 1,
                SpecTerm { coefficient: m.last().coefficient + s[i as int].coefficient, ..m.last() },
            )
        } else {
            m.push(s[i as int])
        }));
        if i == 0 {
            assert(p =~= Seq::<SpecTerm>::empty());
            assert(m.len() == 0);
        }
        if i > 0 && same_structure_terms(&terms[i - 1], &terms[i]) {
            proof {
                lemma_views_index(terms@, i - 1);
                lemma_merge_last_structure(p);
                assert(p.last() == s[i - 1]);
            }
            acc = acc + c;
        } else {
            proof {
                if i > 0 {
                    lemma_views_index(terms@, i - 1);
                    lemma_merge_last_structure(p);
                    assert(p.last() == s[i - 1]);
                }
            }
            acc = c;
        }
        assert(acc as int == merge_like_terms(q).last().coefficient);
        if acc < -128 || acc > 127 {
            assert(!merge_fits(q));
            proof {
                if merge_fits(s) {
                    lemma_merge_fits_prefix(s, i + 1);
                }
            }
            return false;
        }
        i = i + 1;
    }
    assert(s.take(n as int) =~= s);
    true
}

/// Whether combining the like terms of the expansion of a string keeps every
/// coefficient in the range of `i8`: the condition of `normal_order_product`.
pub fn like_terms_fit_check(product: &OperatorProduct) -> (res: bool)
    ensures
        res == like_terms_fit(product@),
{
    let no_deltas: Vec<DeltaConstraint> = Vec::new();
    assert(views(no_deltas@) =~= Seq::<SpecDelta>::empty());
    let initial = NormalOrderedTerm::new(1, no_deltas, product.clone());
    let terms = normal_order_term(initial);
    let sorted = sort_stable(terms);
    merge_fits_check(&sorted)
}

/// Normal orders an operator string: rewrites it until every term is in normal order,
/// then combines like terms. An empty string is refused.
pub fn normal_order_product(product: OperatorProduct) -> (res: Result<
    NormalOrderedExpr,
    SimplifyError,
>)
    requires
        product@.len() == 0 || like_terms_fit(product@),
    ensures
        product@.len() == 0 ==> res == Err::<NormalOrderedExpr, SimplifyError>(
            SimplifyError::EmptyOperatorProduct,
        ),
        product@.len() > 0 ==> res is Ok && res->Ok_0@ == normal_ordered(product@),
{
    let ghost p = product@;
    let ops = product.ops();
    let n = ops.len();
    proof {
        lemma_views_len(ops@);
    }
    if n == 0 {
        return Err(SimplifyError::EmptyOperatorProduct);
    }
    let no_deltas: Vec<DeltaConstraint> = Vec::new();
    assert(views(no_deltas@) =~= Seq::<SpecDelta>::empty());
    let initial = NormalOrderedTerm::new(1, no_deltas, product);
    let mut terms = normal_order_term(initial);
    combine_like_terms(&mut terms);
    Ok(NormalOrderedExpr::new(terms))
}

/// Simplifies an operator string to its normal-ordered form.
pub fn simplify_operator_form(product: OperatorProduct, _config: SimplifyConfig) -> (res: Result<
    NormalOrderedExpr,
    SimplifyError,
>)
    requires
        product@.len() == 0 || like_terms_fit(product@),
    ensures
        product@.len() == 0 ==> res == Err::<NormalOrderedExpr, SimplifyError>(
            SimplifyError::EmptyOperatorProduct,
        ),
        product@.len() > 0 ==> res is Ok && res->Ok_0@ == normal_ordered(product@),
{
    normal_order_product(product)
}

// ---------------------------------------------------------------------------
// Text
// ---------------------------------------------------------------------------
/// The absolute value of an integer.
pub open spec fn abs_value(c: int) -> nat {
    if c < 0 {
        (-c) as nat
    } else {
        c as nat
    }
}

/// The factors of a term as texts: its deltas, then its string if that is not empty.
pub open spec fn term_factors(t: SpecTerm) -> Seq<Seq<char>> {
    if t.product.len() > 0 {
        delta_texts(t.deltas).push(render_product(t.product))
    } else {
        delta_texts(t.deltas)
    }
}

/// The body of a term: its factors joined by spaces, or `1` when it has none.
pub open spec fn term_body(t: SpecTerm) -> Seq<char> {
    if term_factors(t).len() == 0 {
        "1"@
    } else {
        join_spaced(term_factors(t))
    }
}

/// The sign of a term's text: `- ` in front, ` - ` or ` + ` between terms.
pub open spec fn sign_part(first: bool, negative: bool) -> Seq<char> {
    if first {
        if negative {
            "- "@
        } else {
            Seq::empty()
        }
    } else if negative {
        " - "@
    } else {
        " + "@
    }
}

/// The number of a term's text: the absolute coefficient, followed by a space unless
/// the body is `1`; nothing when the coefficient is 1 and the body is not `1`.
pub open spec fn number_part(abs: nat, body: Seq<char>) -> Seq<char> {
    if abs != 1 || body == "1"@ {
        decimal_text(abs) + (if body != "1"@ {
            " "@
        } else {
            Seq::empty()
        })
    } else {
        Seq::empty()
    }
}

/// The body of a term's text, unless the body is `1` and the coefficient is not 1.
pub open spec fn tail_part(abs: nat, body: Seq<char>) -> Seq<char> {
    if body != "1"@ || abs == 1 {
        body
    } else {
        Seq::empty()
    }
}

/// The text of one term of a sum: its sign, its number and its body.
pub open spec fn expr_term_text(first: bool, t: SpecTerm) -> Seq<char> {
    let abs = abs_value(t.coefficient);
    let body = term_body(t);
    sign_part(first, t.coefficient < 0) + number_part(abs, body) + tail_part(abs, body)
}

/// The text of a sum of terms.
pub open spec fn render_expr(terms: Seq<SpecTerm>) -> Seq<char>
    decreases terms.len(),
{
    if terms.len() == 0 {
        Seq::empty()
    } else {
        render_expr(terms.drop_last()) + expr_term_text(terms.len() == 1, terms.last())
    }
}

fn render_term_body(term: &NormalOrderedTerm) -> (res: String)
    ensures
        res@ == term_body(term@),
{
    let mut factors = render_delta_texts(term.deltas());
    let ops = term.product().ops();
    proof {
        lemma_views_len(ops@);
    }
    if ops.len() > 0 {
        let text = term.product().to_string();
        proof {
            lemma_views_push(factors@, text);
        }
        factors.push(text);
    }
    assert(views(factors@) == term_factors(term@));
    if factors.len() == 0 {
        String::from_str("1")
    } else {
        join_with_spaces(&factors)
    }
}

fn abs_coefficient(coefficient: i8) -> (res: u8)
    ensures
        res as nat == abs_value(coefficient as int),
{
    if coefficient < 0 {
        (-(coefficient as i16)) as u8
    } else {
        coefficient as u8
    }
}

fn append_sign(out: &mut String, first: bool, negative: bool)
    ensures
        final(out)@ == old(out)@ + sign_part(first, negative),
{
    if first {
        if negative {
            out.append("- ");
        }
    } else if negative {
        out.append(" - ");
    } else {
        out.append(" + ");
    }
    assert(final(out)@ =~= old(out)@ + sign_part(first, negative));
}

fn append_number(out: &mut String, abs: u8, body: &String)
    ensures
        final(out)@ == old(out)@ + number_part(abs as nat, body@),
{
    let body_is_one = same_text(body.as_str(), "1");
    if abs != 1 || body_is_one {
        append_decimal(out, abs as usize);
        if !body_is_one {
            out.append(" ");
        }
    }
    assert(final(out)@ =~= old(out)@ + number_part(abs as nat, body@));
}

fn append_tail(out: &mut String, abs: u8, body: &String)
    ensures
        final(out)@ == old(out)@ + tail_part(abs as nat, body@),
{
    let body_is_one = same_text(body.as_str(), "1");
    if !body_is_one || abs == 1 {
        out.append(body.as_str());
    }
    assert(final(out)@ =~= old(out)@ + tail_part(abs as nat, body@));
}

fn append_term_text(out: &mut String, first: bool, term: &NormalOrderedTerm)
    ensures
        final(out)@ == old(out)@ + expr_term_text(first, term@),
{
    let coefficient = term.coefficient();
    let abs = abs_coefficient(coefficient);
    let body = render_term_body(term);
    let ghost start = old(out)@;
    append_sign(out, first, coefficient < 0);
    append_number(out, abs, &body);
    append_tail(out, abs, &body);
    assert(out@ =~= start + expr_term_text(first, term@));
}

impl NormalOrderedExpr {
    /// The sum as text, for example `delta(p,q) - a†(q) a(p)`.
    pub fn to_string(&self) -> (res: String)
        ensures
            res@ == render_expr(self@),
    {
        let mut out = String::new();
        let ghost s = self@;
        let mut i: usize = 0;
        assert(s.take(0) =~= Seq::<SpecTerm>::empty());
        while i < self.terms.len()
            invariant
                s == self@,
                s == views(self.terms@),
                i <= self.terms.len(),
                out@ == render_expr(s.take(i as int)),
            decreases self.terms.len() - i,
        {
            proof {
                lemma_views_index(self.terms@, i as int);
            }
            append_term_text(&mut out, i == 0, &self.terms[i]);
            assert(s.take(i + 1).drop_last() =~= s.take(i as int));
            i = i + 1;
        }
        assert(s.take(i as int) =~= s);
        out
    }
}

} // verus!
