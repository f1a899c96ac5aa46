//! The canonical order of an operator string.
use vstd::prelude::*;

use crate::ast::{FermionOp, FermionOpKind, OperatorProduct, SpecOp};
use crate::sorting::{SortKey, sort_stable, stable_sort};
use crate::text::{Order, compare_text, int_order, lemma_lex_order_flip, lex_order, then_order};

verus! {

/// The rank of a kind: creators before annihilators.
pub open spec fn kind_rank(kind: FermionOpKind) -> int {
    match kind {
        FermionOpKind::Create => 0,
        FermionOpKind::Annihilate => 1,
    }
}

/// The canonical key order of operators: by kind, then by symbol; the space does
/// not take part.
pub open spec fn canonical_key_order(a: SpecOp, b: SpecOp) -> Order {
    then_order(int_order(kind_rank(a.kind), kind_rank(b.kind)), lex_order(a.index.symbol, b.index.symbol))
}

fn kind_rank_of(kind: FermionOpKind) -> (res: u8)
    ensures
        res == kind_rank(kind),
{
    match kind {
        FermionOpKind::Create => 0,
        FermionOpKind::Annihilate => 1,
    }
}

/// Compares two operators by their canonical key, kind then symbol.
fn sort_key_order(lhs: &FermionOp, rhs: &FermionOp) -> (res: Order)
    ensures
        res == canonical_key_order(lhs@, rhs@),
{
    let l = kind_rank_of(lhs.kind());
    let r = kind_rank_of(rhs.kind());
    if l < r {
        Order::Less
    } else if l > r {
        Order::Greater
    } else {
        compare_text(lhs.index().symbol(), rhs.index().symbol())
    }
}

impl SortKey for FermionOp {
    open spec fn spec_after(a: SpecOp, b: SpecOp) -> bool {
        canonical_key_order(a, b) == Order::Greater
    }

    fn after(&self, other: &Self) -> (res: bool) {
        match sort_key_order(self, other) {
            Order::Greater => true,
            _ => false,
        }
    }

    proof fn lemma_after_asymmetric(a: SpecOp, b: SpecOp) {
        lemma_lex_order_flip(a.index.symbol, b.index.symbol);
    }
}

/// The canonical order of an operator string: a stable sort by canonical key.
pub open spec fn canonical_order(ops: Seq<SpecOp>) -> Seq<SpecOp> {
    stable_sort::<FermionOp>(ops)
}

/// Sorts the operators stably, creators before annihilators, each kind by symbol.
pub fn canonicalize_operator_product(product: &OperatorProduct) -> (res: OperatorProduct)
    ensures
        res@ == canonical_order(product@),
{
    let ops = product.clone().into_ops();
    OperatorProduct::new(sort_stable(ops))
}

} // verus!
