//! Typed orbital indices, fermionic operators and operator strings.
use vstd::prelude::*;
use vstd::string::StringExecFns;

use crate::sorting::views;
use crate::text::{Order, flip, int_order, lemma_lex_order_flip, lex_order, same_text, then_order};

verus! {

/// The orbital space an index ranges over.
#[derive(Debug, Clone, Copy, PartialEq, Eq, Structural)]
pub enum IndexSpace {
    Core,
    Active,
    Virtual,
    General,
}

/// The rank of a space in the order Core, Active, Virtual, General.
pub open spec fn space_rank(space: IndexSpace) -> int {
    match space {
        IndexSpace::Core => 0,
        IndexSpace::Active => 1,
        IndexSpace::Virtual => 2,
        IndexSpace::General => 3,
    }
}

/// An index as a value: its symbol and its space.
pub struct SpecIndex {
    pub symbol: Seq<char>,
    pub space: IndexSpace,
}

/// Order of indices: by symbol, then by the rank of the space.
pub open spec fn index_order(a: SpecIndex, b: SpecIndex) -> Order {
    then_order(lex_order(a.symbol, b.symbol), int_order(space_rank(a.space), space_rank(b.space)))
}

/// Comparing indices the other way round flips the outcome.
pub proof fn lemma_index_order_flip(a: SpecIndex, b: SpecIndex)
    ensures
        index_order(b, a) == flip(index_order(a, b)),
{
    lemma_lex_order_flip(a.symbol, b.symbol);
}

/// A named orbital index in one of the four spaces.
#[derive(Debug, PartialEq, Eq)]
pub struct Index {
    symbol: String,
    space: IndexSpace,
}

impl View for Index {
    type V = SpecIndex;

    closed spec fn view(&self) -> SpecIndex {
        SpecIndex { symbol: self.symbol@, space: self.space }
    }
}

impl Clone for Index {
    fn clone(&self) -> (res: Self)
        ensures
            res == *self,
    {
        Index { symbol: self.symbol.clone(), space: self.space }
    }
}

impl Index {
    pub fn new(symbol: &str, space: IndexSpace) -> (res: Self)
        ensures
            res@ == (SpecIndex { symbol: symbol@, space }),
    {
        Index { symbol: String::from_str(symbol), space }
    }

    pub fn symbol(&self) -> (res: &str)
        ensures
            res@ == self@.symbol,
    {
        self.symbol.as_str()
    }

    pub fn space(&self) -> (res: IndexSpace)
        ensures
            res == self@.space,
    {
        self.space
    }
}

/// Whether two indices have the same symbol and the same space.
pub fn same_index(a: &Index, b: &Index) -> (res: bool)
    ensures
        res == (a@ == b@),
{
    same_text(a.symbol(), b.symbol()) && a.space() == b.space()
}

/// Whether an operator creates or annihilates.
#[derive(Debug, Clone, Copy, PartialEq, Eq, Structural)]
pub enum FermionOpKind {
    Create,
    Annihilate,
}

/// An operator as a value: its kind and its index.
pub struct SpecOp {
    pub kind: FermionOpKind,
    pub index: SpecIndex,
}

/// A creation or annihilation operator on one index.
#[derive(Debug, PartialEq, Eq)]
pub struct FermionOp {
    kind: FermionOpKind,
    index: Index,
}

impl View for FermionOp {
    type V = SpecOp;

    closed spec fn view(&self) -> SpecOp {
        SpecOp { kind: self.kind, index: self.index@ }
    }
}

impl Clone for FermionOp {
    fn clone(&self) -> (res: Self)
        ensures
            res == *self,
    {
        FermionOp { kind: self.kind, index: self.index.clone() }
    }
}

impl FermionOp {
    pub fn new(kind: FermionOpKind, index: Index) -> (res: Self)
        ensures
            res@ == (SpecOp { kind, index: index@ }),
    {
        FermionOp { kind, index }
    }

    pub fn kind(&self) -> (res: FermionOpKind)
        ensures
            res == self@.kind,
    {
        self.kind
    }

    pub fn index(&self) -> (res: &Index)
        ensures
            res@ == self@.index,
    {
        &self.index
    }
}

/// The text of one operator: `a†(p)` for a creator, `a(p)` for an annihilator.
pub open spec fn render_op(op: SpecOp) -> Seq<char> {
    match op.kind {
        FermionOpKind::Create => "a†("@ + op.index.symbol + ")"@,
        FermionOpKind::Annihilate => "a("@ + op.index.symbol + ")"@,
    }
}

/// The text of an operator string: the operators' texts separated by single spaces.
pub open spec fn render_product(ops: Seq<SpecOp>) -> Seq<char>
    decreases ops.len(),
{
    if ops.len() == 0 {
        Seq::empty()
    } else if ops.len() == 1 {
        render_op(ops[0])
    } else {
        render_product(ops.drop_last()) + " "@ + render_op(ops.last())
    }
}

/// An ordered string of fermionic operators.
#[derive(Debug, PartialEq, Eq)]
pub struct OperatorProduct {
    ops: Vec<FermionOp>,
}

impl View for OperatorProduct {
    type V = Seq<SpecOp>;

    closed spec fn view(&self) -> Seq<SpecOp> {
        views(self.ops@)
    }
}

impl Clone for OperatorProduct {
    fn clone(&self) -> (res: Self)
        ensures
            res@ == self@,
    {
        OperatorProduct { ops: self.ops.clone() }
    }
}

impl Default for OperatorProduct {
    fn default() -> (res: Self)
        ensures
            res@ == Seq::<SpecOp>::empty(),
    {
        let res = OperatorProduct { ops: Vec::new() };
        assert(res@ =~= Seq::<SpecOp>::empty());
        res
    }
}

/// Appends the text of `op` to `out`.
pub fn append_op_text(out: &mut String, op: &FermionOp)
    ensures
        final(out)@ == old(out)@ + render_op(op@),
{
    match op.kind() {
        FermionOpKind::Create => {
            out.append("a†(");
        },
        FermionOpKind::Annihilate => {
            out.append("a(");
        },
    }
    out.append(op.index().symbol());
    out.append(")");
}

impl OperatorProduct {
    pub fn new(ops: Vec<FermionOp>) -> (res: Self)
        ensures
            res@ == views(ops@),
    {
        OperatorProduct { ops }
    }

    /// The operators, taken out of the string.
    pub fn into_ops(self) -> (res: Vec<FermionOp>)
        ensures
            views(res@) == self@,
    {
        self.ops
    }

    pub fn ops(&self) -> (res: &[FermionOp])
        ensures
            views(res@) == self@,
    {
        self.ops.as_slice()
    }

    /// The operators sorted stably, creators first, each kind by symbol.
    pub fn canonicalize(&self) -> (res: Self)
        ensures
            res@ == crate::canonicalize::canonical_order(self@),
    {
        crate::canonicalize::canonicalize_operator_product(self)
    }

    /// The operators' texts separated by single spaces.
    pub fn to_string(&self) -> (res: String)
        ensures
            res@ == render_product(self@),
    {
        let mut out = String::new();
        let ghost s = self@;
        let mut i: usize = 0;
        assert(s.take(0) =~= Seq::<SpecOp>::empty());
        while i < self.ops.len()
            invariant
                s == self@,
                s == views(self.ops@),
                i <= self.ops.len(),
                out@ == render_product(s.take(i as int)),
            decreases self.ops.len() - i,
        {
            if i > 0 {
                out.append(" ");
            }
            append_op_text(&mut out, &self.ops[i]);
            assert(s.take(i + 1).drop_last() =~= s.take(i as int));
            if i == 0 {
                assert(s.take(1) =~= seq![s[0]]);
            }
            i = i + 1;
        }
        assert(s.take(i as int) =~= s);
        out
    }
}

impl core::ops::Mul<FermionOp> for FermionOp {
    type Output = OperatorProduct;

    fn mul(self, rhs: FermionOp) -> (res: OperatorProduct)
        ensures
            res@ == seq![self@, rhs@],
    {
        let res = OperatorProduct { ops: vec![self, rhs] };
        assert(res@ =~= seq![self@, rhs@]);
        res
    }
}

/// `*` on operators builds operator strings; its result is stated by the `ensures` of
/// `mul` over views, so no spec value is given here.
impl vstd::std_specs::ops::MulSpecImpl<FermionOp> for FermionOp {
    open spec fn obeys_mul_spec() -> bool {
        false
    }

    open spec fn mul_req(self, rhs: FermionOp) -> bool {
        true
    }

    open spec fn mul_spec(self, rhs: FermionOp) -> OperatorProduct {
        vstd::pervasive::arbitrary()
    }
}

impl core::ops::Mul<FermionOp> for OperatorProduct {
    type Output = OperatorProduct;

    fn mul(self, rhs: FermionOp) -> (res: OperatorProduct)
        ensures
            res@ == self@.push(rhs@),
    {
        let mut ops = self.ops;
        ops.push(rhs);
        let res = OperatorProduct { ops };
        assert(res@ =~= self@.push(rhs@));
        res
    }
}

/// `*` appends an operator to a string; its result is stated by the `ensures` of `mul`
/// over views, so no spec value is given here.
impl vstd::std_specs::ops::MulSpecImpl<FermionOp> for OperatorProduct {
    open spec fn obeys_mul_spec() -> bool {
        false
    }

    open spec fn mul_req(self, rhs: FermionOp) -> bool {
        true
    }

    open spec fn mul_spec(self, rhs: FermionOp) -> OperatorProduct {
        vstd::pervasive::arbitrary()
    }
}

} // verus!
