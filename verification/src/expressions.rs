//! Places, operands and the values that an assignment computes.

use crate::formatter::FieldId;
use crate::types::{RefKind, Ty, TypeDefId};
use crate::values::ScalarValue;
use std::sync::Arc;
use vstd::prelude::*;

verus! {

/// The index of a local in the locals table.
#[derive(Clone, Copy, Debug, PartialEq, Eq, Structural, Hash)]
pub struct VarId {
    pub index: usize,
}

/// The index of a function declaration.
#[derive(Clone, Copy, Debug, PartialEq, Eq, Structural, Hash)]
pub struct FunDeclId {
    pub index: usize,
}

/// The index of a variant of an enumeration.
#[derive(Clone, Copy, Debug, PartialEq, Eq, Structural, Hash)]
pub struct VariantId {
    pub index: usize,
}

/// `Arc::clone` of the standard library: a second handle on the same value.
#[verifier::external_body]
pub(crate) fn share<T>(a: &Arc<T>) -> (r: Arc<T>)
    ensures
        r == *a,
{
    Arc::clone(a)
}

/// What a field belongs to.
#[derive(Clone, Copy, Debug, PartialEq, Eq, Structural)]
pub enum FieldProjKind {
    /// A structure, or the variant of an enumeration.
    Adt(TypeDefId, Option<VariantId>),
    /// A tuple of so many parts.
    Tuple(usize),
    /// The state of a closure.
    ClosureState,
}

/// The place of an item in an array or a slice.
#[derive(Clone, Copy, Debug, PartialEq, Eq, Structural)]
pub enum IndexOffset {
    /// The value of a local.
    Local(VarId),
    Const(usize),
}

/// One step from a place to a place inside it.
#[derive(Clone, Copy, Debug, PartialEq, Eq, Structural)]
pub enum ProjectionElem {
    Deref,
    Field(FieldProjKind, FieldId),
    Index { offset: IndexOffset, from_end: bool },
    Subslice { from: usize, to: usize, from_end: bool },
}

impl ProjectionElem {
    /// Whether the local that the step names lies below `n`.
    pub open spec fn local_below(self, n: int) -> bool {
        match self {
            ProjectionElem::Index { offset: IndexOffset::Local(v), from_end } => v.index < n,
            _ => true,
        }
    }

    pub fn check_local_below(&self, n: usize) -> (b: bool)
        ensures
            b == self.local_below(n as int),
    {
        match self {
            ProjectionElem::Index { offset, from_end } => match offset {
                IndexOffset::Local(v) => v.index < n,
                IndexOffset::Const(_) => true,
            },
            _ => true,
        }
    }
}

/// Whether every local that the steps name lies below `n`.
pub open spec fn steps_below(steps: Seq<ProjectionElem>, n: int) -> bool {
    forall|i: int| 0 <= i < steps.len() ==> (#[trigger] steps[i]).local_below(n)
}

/// A place: a local, and the steps from it to the place meant.
#[derive(Clone, Debug, PartialEq, Eq)]
pub struct Place {
    pub var_id: VarId,
    pub projection: Arc<Vec<ProjectionElem>>,
}

impl Place {
    /// The place of a local itself.
    pub fn new(var_id: VarId) -> (p: Place)
        ensures
            p.var_id == var_id,
            p.projection@.len() == 0,
    {
        Place { var_id, projection: Arc::new(Vec::new()) }
    }

    /// Whether every local that the place names lies below `n`.
    pub open spec fn locals_below(self, n: int) -> bool {
        self.var_id.index < n && steps_below(self.projection@, n)
    }

    pub fn check_locals_below(&self, n: usize) -> (b: bool)
        ensures
            b == self.locals_below(n as int),
    {
        if !(self.var_id.index < n) {
            return false;
        }
        let mut i: usize = 0;
        while i < self.projection.len()
            invariant
                i <= self.projection@.len(),
                forall|k: int| 0 <= k < i ==> (#[trigger] self.projection@[k]).local_below(n as int),
            decreases self.projection@.len() - i,
        {
            if !self.projection[i].check_local_below(n) {
                return false;
            }
            i = i + 1;
        }
        true
    }

    /// A second place equal to this one, which shares its steps.
    pub fn duplicate(&self) -> (r: Place)
        ensures
            r == *self,
    {
        Place { var_id: self.var_id, projection: share(&self.projection) }
    }
}

/// A constant that an operand may be.
#[derive(Clone, Copy, Debug, PartialEq, Eq, Structural)]
pub enum Constant {
    Scalar(ScalarValue),
    Bool(bool),
    Char(char),
    /// A function, as a value.
    Fun(FunDeclId),
    /// Any other constant.
    Opaque,
}

/// What a statement or a branch reads.
#[derive(Clone, Debug, PartialEq, Eq)]
pub enum Operand {
    Copy(Place),
    Move(Place),
    Const(Constant),
}

impl Operand {
    /// Whether every local that the operand names lies below `n`.
    pub open spec fn locals_below(self, n: int) -> bool {
        match self {
            Operand::Copy(p) => p.locals_below(n),
            Operand::Move(p) => p.locals_below(n),
            Operand::Const(_) => true,
        }
    }

    pub fn check_locals_below(&self, n: usize) -> (b: bool)
        ensures
            b == self.locals_below(n as int),
    {
        match self {
            Operand::Copy(p) => p.check_locals_below(n),
            Operand::Move(p) => p.check_locals_below(n),
            Operand::Const(_) => true,
        }
    }

    /// A second operand equal to this one.
    pub fn duplicate(&self) -> (r: Operand)
        ensures
            r == *self,
    {
        match self {
            Operand::Copy(p) => Operand::Copy(p.duplicate()),
            Operand::Move(p) => Operand::Move(p.duplicate()),
            Operand::Const(c) => Operand::Const(*c),
        }
    }
}

/// Whether every local that the operands name lies below `n`.
pub open spec fn operands_below(ops: Seq<Operand>, n: int) -> bool {
    forall|i: int| 0 <= i < ops.len() ==> (#[trigger] ops[i]).locals_below(n)
}

/// Tests whether every local that the operands name lies below `n`.
pub fn check_operands_below(ops: &Vec<Operand>, n: usize) -> (b: bool)
    ensures
        b == operands_below(ops@, n as int),
{
    let mut i: usize = 0;
    while i < ops.len()
        invariant
            i <= ops@.len(),
            forall|k: int| 0 <= k < i ==> (#[trigger] ops@[k]).locals_below(n as int),
        decreases ops@.len() - i,
    {
        if !ops[i].check_locals_below(n) {
            return false;
        }
        i = i + 1;
    }
    true
}

/// How a borrow borrows.
#[derive(Clone, Copy, Debug, PartialEq, Eq, Structural)]
pub enum BorrowKind {
    Shared,
    Mut,
    TwoPhaseMut,
    UniqueImmutable,
    Shallow,
}

/// A binary operation.
#[derive(Clone, Copy, Debug, PartialEq, Eq, Structural)]
pub enum BinOp {
    BitXor,
    BitAnd,
    BitOr,
    Eq,
    Lt,
    Le,
    Ne,
    Ge,
    Gt,
    Div,
    Rem,
    Add,
    Sub,
    Mul,
    CheckedAdd,
    CheckedSub,
    CheckedMul,
    Shl,
    Shr,
}

/// How a cast changes a value.
#[derive(Clone, Copy, Debug, PartialEq, Eq, Structural)]
pub enum CastKind {
    /// Between numbers, booleans and characters.
    Scalar(Ty, Ty),
    RawPtr(Ty, Ty),
    FnPtr(Ty, Ty),
    Transmute(Ty, Ty),
    Unsize(Ty, Ty),
}

/// An operation on one operand.
#[derive(Clone, Copy, Debug, PartialEq, Eq, Structural)]
pub enum UnOp {
    Not,
    Neg,
    Cast(CastKind),
    /// From a reference to an array of the given length to a reference to a slice.
    ArrayToSlice(RefKind, usize),
}

/// An operation on no operand.
#[derive(Clone, Copy, Debug, PartialEq, Eq, Structural)]
pub enum NullOp {
    SizeOf,
    AlignOf,
    OffsetOf,
    UbChecks,
}

/// What an aggregate builds.
#[derive(Clone, Copy, Debug, PartialEq, Eq, Structural)]
pub enum AggregateKind {
    /// An array of the given type of items and the given length.
    Array(Ty, usize),
    Tuple,
    /// A value of a declared type: of the variant, for an enumeration, or with the one
    /// field, for a union.
    Adt(TypeDefId, Option<VariantId>, Option<FieldId>),
    Closure(FunDeclId),
}

/// What an assignment computes.
#[derive(Clone, Debug, PartialEq, Eq)]
pub enum Rvalue {
    Use(Operand),
    Ref(Place, BorrowKind),
    RawPtr(Place, RefKind),
    BinaryOp(BinOp, Operand, Operand),
    UnaryOp(UnOp, Operand),
    NullaryOp(NullOp, Ty),
    Discriminant(Place, TypeDefId),
    Aggregate(AggregateKind, Vec<Operand>),
    /// The length of an array or of a slice; of an array the length is known.
    Len(Place, Ty, Option<usize>),
    /// So many times the operand.
    Repeat(Operand, Ty, usize),
    ShallowInitBox(Operand, Ty),
}

impl Rvalue {
    /// Whether every local that the value names lies below `n`.
    pub open spec fn locals_below(self, n: int) -> bool {
        match self {
            Rvalue::Use(op) => op.locals_below(n),
            Rvalue::Ref(p, _) => p.locals_below(n),
            Rvalue::RawPtr(p, _) => p.locals_below(n),
            Rvalue::BinaryOp(_, a, b) => a.locals_below(n) && b.locals_below(n),
            Rvalue::UnaryOp(_, op) => op.locals_below(n),
            Rvalue::NullaryOp(_, _) => true,
            Rvalue::Discriminant(p, _) => p.locals_below(n),
            Rvalue::Aggregate(_, ops) => operands_below(ops@, n),
            Rvalue::Len(p, _, _) => p.locals_below(n),
            Rvalue::Repeat(op, _, _) => op.locals_below(n),
            Rvalue::ShallowInitBox(op, _) => op.locals_below(n),
        }
    }

    pub fn check_locals_below(&self, n: usize) -> (b: bool)
        ensures
            b == self.locals_below(n as int),
    {
        match self {
            Rvalue::Use(op) => op.check_locals_below(n),
            Rvalue::Ref(p, _) => p.check_locals_below(n),
            Rvalue::RawPtr(p, _) => p.check_locals_below(n),
            Rvalue::BinaryOp(_, a, b) => a.check_locals_below(n) && b.check_locals_below(n),
            Rvalue::UnaryOp(_, op) => op.check_locals_below(n),
            Rvalue::NullaryOp(_, _) => true,
            Rvalue::Discriminant(p, _) => p.check_locals_below(n),
            Rvalue::Aggregate(_, ops) => check_operands_below(ops, n),
            Rvalue::Len(p, _, _) => p.check_locals_below(n),
            Rvalue::Repeat(op, _, _) => op.check_locals_below(n),
            Rvalue::ShallowInitBox(op, _) => op.check_locals_below(n),
        }
    }
}

/// A function that is built in.
#[derive(Clone, Copy, Debug, PartialEq, Eq, Structural)]
pub enum BuiltinFunId {
    BoxNew,
}

/// A function: declared, or built in.
#[derive(Clone, Copy, Debug, PartialEq, Eq, Structural)]
pub enum FunId {
    Regular(FunDeclId),
    Builtin(BuiltinFunId),
}

/// A function, or a method of a trait reached through an implementation.
#[derive(Clone, Debug, PartialEq, Eq)]
pub enum FunIdOrTraitMethodRef {
    Fun(FunId),
    /// The implementation, the name of the method, and its declaration.
    Trait(crate::krate::TraitImplId, String, FunDeclId),
}

impl FunIdOrTraitMethodRef {
    /// The built-in function as a function.
    pub fn mk_assumed(aid: BuiltinFunId) -> (r: Self)
        ensures
            r == FunIdOrTraitMethodRef::Fun(FunId::Builtin(aid)),
    {
        FunIdOrTraitMethodRef::Fun(FunId::Builtin(aid))
    }
}

/// What a call calls.
#[derive(Clone, Debug, PartialEq, Eq)]
pub enum FnOperand {
    /// A function known by name.
    Regular(FunIdOrTraitMethodRef),
    /// A function pointer held in a place.
    Move(Place),
}

impl FnOperand {
    /// Whether every local that the callee names lies below `n`.
    pub open spec fn locals_below(self, n: int) -> bool {
        match self {
            FnOperand::Regular(_) => true,
            FnOperand::Move(p) => p.locals_below(n),
        }
    }

    pub fn check_locals_below(&self, n: usize) -> (b: bool)
        ensures
            b == self.locals_below(n as int),
    {
        match self {
            FnOperand::Regular(_) => true,
            FnOperand::Move(p) => p.check_locals_below(n),
        }
    }
}

} // verus!
