//! Short constructors for indices, operators and expressions.
use vstd::prelude::*;

use crate::ast::{FermionOp, FermionOpKind, Index, IndexSpace, OperatorProduct, SpecIndex, SpecOp};
use crate::constraints::{DeltaConstraint, SpecDelta};
use crate::reference::{CasReference, Expectation, MatrixElement, SpecMatrixElement};
use crate::sorting::views;

verus! {

/// The name of this crate.
pub fn crate_name() -> (res: &'static str)
    ensures
        res@ == "symbolic_mr"@,
{
    "symbolic_mr"
}

/// A core index.
pub fn core_(symbol: &str) -> (res: Index)
    ensures
        res@ == (SpecIndex { symbol: symbol@, space: IndexSpace::Core }),
{
    Index::new(symbol, IndexSpace::Core)
}

/// An active index.
pub fn active(symbol: &str) -> (res: Index)
    ensures
        res@ == (SpecIndex { symbol: symbol@, space: IndexSpace::Active }),
{
    Index::new(symbol, IndexSpace::Active)
}

/// A virtual index.
pub fn virtual_(symbol: &str) -> (res: Index)
    ensures
        res@ == (SpecIndex { symbol: symbol@, space: IndexSpace::Virtual }),
{
    Index::new(symbol, IndexSpace::Virtual)
}

/// A general index, ranging over all orbitals.
pub fn general(symbol: &str) -> (res: Index)
    ensures
        res@ == (SpecIndex { symbol: symbol@, space: IndexSpace::General }),
{
    Index::new(symbol, IndexSpace::General)
}

/// The creation operator on an index.
pub fn create(index: Index) -> (res: FermionOp)
    ensures
        res@ == (SpecOp { kind: FermionOpKind::Create, index: index@ }),
{
    FermionOp::new(FermionOpKind::Create, index)
}

/// The annihilation operator on an index.
pub fn annihilate(index: Index) -> (res: FermionOp)
    ensures
        res@ == (SpecOp { kind: FermionOpKind::Annihilate, index: index@ }),
{
    FermionOp::new(FermionOpKind::Annihilate, index)
}

/// The expectation value of a string in a reference state.
pub fn expectation(product: OperatorProduct, reference: CasReference) -> (res: Expectation)
    ensures
        res@ == product@,
{
    Expectation::new(product, reference)
}

/// The string of the given operators, in order.
pub fn operator_string(ops: Vec<FermionOp>) -> (res: OperatorProduct)
    ensures
        res@ == views(ops@),
{
    OperatorProduct::new(ops)
}

/// The delta constraint between two indices.
pub fn delta(left: Index, right: Index) -> (res: DeltaConstraint)
    ensures
        res@ == (SpecDelta { left: left@, right: right@ }),
{
    DeltaConstraint::new(left, right)
}

/// The matrix element between two strings, with an optional Hamiltonian string.
pub fn matrix_element(
    left: OperatorProduct,
    hamiltonian: Option<OperatorProduct>,
    right: OperatorProduct,
    reference: CasReference,
) -> (res: MatrixElement)
    ensures
        res@ == (SpecMatrixElement {
            left: left@,
            hamiltonian: match hamiltonian {
                Some(h) => Some(h@),
                None => None,
            },
            right: right@,
        }),
{
    MatrixElement::new(left, hamiltonian, right, reference)
}

} // verus!
