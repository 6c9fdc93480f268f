//! The compiler's view of a body, as far as lowering reads it: every part is a plain value.

use crate::expressions::{Constant, FunDeclId};
use crate::gast::Span;
use crate::krate::TraitImplId;
use crate::types::{Ty, TypeDefId};
use crate::values::IntegerTy;
use vstd::prelude::*;

verus! {

/// The field that a step to a field names.
#[derive(Clone, Copy, Debug, PartialEq, Eq, Structural)]
pub enum MirFieldKind {
    /// A part of a tuple.
    Tuple(usize),
    /// A field of a structure, of a union or of a variant of an enumeration.
    Adt { variant: Option<usize>, index: usize },
    /// A captured value of a closure.
    ClosureState(usize),
}

/// One step into a place.
#[derive(Clone, Copy, Debug, PartialEq, Eq, Structural)]
pub enum MirProjectionElem {
    Deref,
    Field(MirFieldKind),
    /// The item at the index that a local holds.
    Index(usize),
    Downcast,
    ConstantIndex { offset: usize, from_end: bool },
    Subslice { from: usize, to: usize, from_end: bool },
    OpaqueCast,
}

/// One step into a place, with the type of the place that the step starts from.
#[derive(Clone, Copy, Debug, PartialEq, Eq, Structural)]
pub struct MirStep {
    pub ty: Ty,
    pub kind: MirProjectionElem,
}

/// A place: a local, the steps from it in their order, and the type of the place.
#[derive(Debug)]
pub struct MirPlace {
    pub local: usize,
    pub steps: Vec<MirStep>,
    pub ty: Ty,
}

/// What a statement or a terminator of the compiler reads.
#[derive(Debug)]
pub enum MirOperand {
    Copy(MirPlace),
    Move(MirPlace),
    /// A constant, with its type.
    Constant(Constant, Ty),
}

/// How a borrow of the compiler borrows.
#[derive(Clone, Copy, Debug, PartialEq, Eq, Structural)]
pub enum MirBorrowKind {
    Shared,
    MutDefault,
    MutTwoPhase,
    MutClosureCapture,
    FakeShallow,
    FakeDeep,
}

/// A binary operation of the compiler.
#[derive(Clone, Copy, Debug, PartialEq, Eq, Structural)]
pub enum MirBinOp {
    BitXor,
    BitAnd,
    BitOr,
    Eq,
    Lt,
    Le,
    Ne,
    Ge,
    Gt,
    Div,
    Rem,
    Add,
    Sub,
    Mul,
    AddWithOverflow,
    SubWithOverflow,
    MulWithOverflow,
    Shl,
    Shr,
    ThreeWay,
    Offset,
}

/// An operation of the compiler on one operand.
#[derive(Clone, Copy, Debug, PartialEq, Eq, Structural)]
pub enum MirUnOp {
    Not,
    Neg,
    PtrMetadata,
}

/// An operation of the compiler on no operand.
#[derive(Clone, Copy, Debug, PartialEq, Eq, Structural)]
pub enum MirNullOp {
    SizeOf,
    AlignOf,
    OffsetOf,
    UbChecks,
}

/// How a cast of the compiler changes a value.
#[derive(Clone, Copy, Debug, PartialEq, Eq, Structural)]
pub enum MirCastKind {
    IntToInt,
    IntToFloat,
    FloatToInt,
    FloatToFloat,
    PtrToPtr,
    MutToConstPointer,
    ArrayToPointer,
    DynStar,
    FnPtrToPtr,
    PointerExposeProvenance,
    PointerWithExposedProvenance,
    ClosureFnPointer,
    UnsafeFnPointer,
    ReifyFnPointer,
    Transmute,
    Unsize,
}

/// The three kinds of declared types.
#[derive(Clone, Copy, Debug, PartialEq, Eq, Structural)]
pub enum MirAdtKind {
    Struct,
    Union,
    Enum,
}

/// What an aggregate of the compiler builds.
#[derive(Clone, Copy, Debug, PartialEq, Eq, Structural)]
pub enum MirAggregateKind {
    /// An array with items of the given type.
    Array(Ty),
    Tuple,
    Adt { adt_id: TypeDefId, variant_idx: usize, kind: MirAdtKind, field_index: Option<usize> },
    Closure(FunDeclId),
    RawPtr,
    Coroutine,
    CoroutineClosure,
}

/// What an assignment of the compiler computes.
#[derive(Debug)]
pub enum MirRvalue {
    Use(MirOperand),
    CopyForDeref(MirPlace),
    /// So many times the operand.
    Repeat(MirOperand, usize),
    Ref(MirBorrowKind, MirPlace),
    ThreadLocalRef,
    /// A raw pointer to the place, mutable or not.
    RawPtr(bool, MirPlace),
    Len(MirPlace),
    /// A cast of the operand to the type.
    Cast(MirCastKind, MirOperand, Ty),
    BinaryOp(MirBinOp, MirOperand, MirOperand),
    NullaryOp(MirNullOp, Ty),
    UnaryOp(MirUnOp, MirOperand),
    Discriminant(MirPlace),
    Aggregate(MirAggregateKind, Vec<MirOperand>),
    ShallowInitBox(MirOperand, Ty),
}

/// A statement of the compiler.
#[derive(Debug)]
pub enum MirStatementKind {
    Assign(MirPlace, MirRvalue),
    FakeRead(MirPlace),
    PlaceMention(MirPlace),
    SetDiscriminant { place: MirPlace, variant_index: usize },
    StorageLive(usize),
    StorageDead(usize),
    Deinit(MirPlace),
    /// The operand is true, on pain of undefined behaviour.
    Assume(MirOperand),
    CopyNonOverlapping,
    Retag,
    AscribeUserType,
    Coverage,
    ConstEvalCounter,
    Nop,
}

/// A statement of the compiler, with the stretch of the source that it comes from.
#[derive(Debug)]
pub struct MirStatement {
    pub span: Span,
    pub kind: MirStatementKind,
}

/// What the compiler says of a function that is called.
#[derive(Debug)]
pub struct MirFunDef {
    /// The path of the function, from the crate down.
    pub name: Vec<String>,
    /// The name under which the compiler's diagnostics know the function.
    pub diagnostic_item: Option<String>,
    /// The name under which the language knows the function.
    pub lang_item: Option<String>,
    /// The declaration of the function.
    pub fun_id: FunDeclId,
    /// For a method called through a trait: the implementation, and the name of the method.
    pub trait_info: Option<(TraitImplId, String)>,
}

/// What a call of the compiler calls.
#[derive(Debug)]
pub enum MirFunOperand {
    /// A function known by name.
    Id(MirFunDef),
    /// A function pointer held in a place.
    Move(MirPlace),
}

/// Where a branch of the compiler may go.
#[derive(Debug)]
pub enum MirSwitchTargets {
    /// A two-way split: the block for `true`, then the block for `false`.
    If(usize, usize),
    /// A split on an integer of the given kind: the arms, each with the bits of its
    /// value, then the block taken when no arm matches.
    SwitchInt(IntegerTy, Vec<(u128, usize)>, usize),
}

/// A terminator of the compiler.
#[derive(Debug)]
pub enum MirTerminatorKind {
    Goto { target: usize },
    SwitchInt { discr: MirOperand, targets: MirSwitchTargets },
    UnwindResume,
    UnwindTerminate,
    Return,
    Unreachable,
    Drop { place: MirPlace, target: usize },
    Call { fun: MirFunOperand, args: Vec<MirOperand>, destination: MirPlace, target: Option<usize> },
    Assert { cond: MirOperand, expected: bool, target: usize },
    FalseEdge { real_target: usize, imaginary_target: usize },
    FalseUnwind { real_target: usize },
    InlineAsm,
    CoroutineDrop,
    TailCall,
    Yield,
}

/// A terminator of the compiler, with the stretch of the source that it comes from.
#[derive(Debug)]
pub struct MirTerminator {
    pub span: Span,
    pub kind: MirTerminatorKind,
}

/// A basic block of the compiler.
#[derive(Debug)]
pub struct MirBlock {
    pub statements: Vec<MirStatement>,
    pub terminator: Option<MirTerminator>,
}

/// A local of the compiler, with its type as translated.
#[derive(Debug)]
pub struct MirLocal {
    pub name: Option<String>,
    pub ty: Ty,
}

/// A body of the compiler. Control starts at the first block.
#[derive(Debug)]
pub struct MirBody {
    pub span: Span,
    pub local_decls: Vec<MirLocal>,
    pub basic_blocks: Vec<MirBlock>,
    /// The text of the body in the source, where it is at hand.
    pub source_text: Option<String>,
}

} // verus!
