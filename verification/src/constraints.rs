//! Kronecker-delta constraints between two indices.
use vstd::prelude::*;

use crate::ast::{Index, IndexSpace, SpecIndex};

verus! {

/// A delta constraint as a value: its two indices.
pub struct SpecDelta {
    pub left: SpecIndex,
    pub right: SpecIndex,
}

/// A delta between indices of two different fixed spaces can never be satisfied; a
/// General index can equal any index.
pub open spec fn spaces_contradict(left: IndexSpace, right: IndexSpace) -> bool {
    left != IndexSpace::General && right != IndexSpace::General && left != right
}

/// The text of a delta: `delta(p,q)`, by symbols only.
pub open spec fn render_delta(d: SpecDelta) -> Seq<char> {
    "delta("@ + d.left.symbol + ","@ + d.right.symbol + ")"@
}

/// The constraint that two indices denote the same orbital.
#[derive(Debug, PartialEq, Eq)]
pub struct DeltaConstraint {
    left: Index,
    right: Index,
}

impl View for DeltaConstraint {
    type V = SpecDelta;

    closed spec fn view(&self) -> SpecDelta {
        SpecDelta { left: self.left@, right: self.right@ }
    }
}

impl Clone for DeltaConstraint {
    fn clone(&self) -> (res: Self)
        ensures
            res == *self,
    {
        DeltaConstraint { left: self.left.clone(), right: self.right.clone() }
    }
}

impl DeltaConstraint {
    pub fn new(left: Index, right: Index) -> (res: Self)
        ensures
            res@ == (SpecDelta { left: left@, right: right@ }),
    {
        DeltaConstraint { left, right }
    }

    pub fn left(&self) -> (res: &Index)
        ensures
            res@ == self@.left,
    {
        &self.left
    }

    pub fn right(&self) -> (res: &Index)
        ensures
            res@ == self@.right,
    {
        &self.right
    }

    /// Whether the two indices lie in different fixed spaces.
    pub fn is_contradictory(&self) -> (res: bool)
        ensures
            res == spaces_contradict(self@.left.space, self@.right.space),
    {
        match (self.left.space(), self.right.space()) {
            (IndexSpace::General, _) | (_, IndexSpace::General) => false,
            (left, right) => left != right,
        }
    }
}

} // verus!
