//! Fermionic normal ordering and CAS-aware reduction of operator strings, verified.
pub mod api;
pub mod ast;
pub mod canonicalize;
pub mod constraints;
pub mod fixtures;
pub mod fock;
pub mod laws;
pub mod reference;
pub mod reference_model;
pub mod rewrite;
pub mod showcase;
pub mod sorting;
pub mod text;

pub use api::{
    active, annihilate, core_, create, delta, expectation, general, matrix_element, operator_string,
    virtual_,
};
pub use ast::{FermionOp, FermionOpKind, Index, IndexSpace, OperatorProduct};
pub use constraints::DeltaConstraint;
pub use fixtures::{FixtureCase, FixtureSuite};
pub use reference::{
    CasReference, Expectation, MatrixElement, SignedTensorTerm, SimplifiedTensorForm,
    TensorReductionTrace, TensorSimplifyError, TensorTerm, simplify_tensor_form, trace_expectation,
    trace_matrix_element,
};
pub use rewrite::{
    NormalOrderedExpr, NormalOrderedTerm, SimplifiedOperatorForm, SimplifyConfig, SimplifyError,
    normal_order_product, simplify_operator_form,
};
