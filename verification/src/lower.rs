//! Lowering: from the compiler's statements and terminators to those of a graph.

use crate::expressions::{
    AggregateKind, BinOp, BorrowKind, BuiltinFunId, CastKind, Constant, FieldProjKind, FunId,
    FunIdOrTraitMethodRef, IndexOffset, NullOp, ProjectionElem, UnOp,
};
use crate::formatter::FieldId;
use crate::gast::Span;
use crate::mir::{
    MirAdtKind, MirAggregateKind, MirBinOp, MirBorrowKind, MirCastKind, MirFieldKind, MirFunDef,
    MirFunOperand, MirNullOp, MirOperand, MirPlace, MirProjectionElem, MirRvalue, MirStatement,
    MirStatementKind, MirStep, MirSwitchTargets, MirTerminator, MirTerminatorKind, MirUnOp,
};
use crate::strings::{join, joined, same_text, texts};
use crate::types::{Pointee, RefKind, Ty};
use crate::mir::MirBlock;
use crate::ullbc::{
    AbortKind, Assert, BlockData, BlockId, Call, FnOperand, Operand, Place, RawStatement, Rvalue, Statement,
    SwitchTargets, Terminator, VarId, VariantId,
};
use crate::values::{IntegerTy, ScalarValue};
use std::sync::Arc;
use vstd::prelude::*;
use vstd::string::StringExecFns;

verus! {

/// Why a body cannot be lowered.
#[derive(Clone, Copy, Debug, PartialEq, Eq, Structural)]
pub enum LowerError {
    /// A statement that copies memory that does not overlap.
    CopyNonOverlapping,
    /// A terminator that resumes unwinding.
    UnwindResume,
    /// A terminator that ends unwinding.
    UnwindTerminate,
    /// Inline assembly.
    InlineAsm,
    /// A terminator that drops a coroutine.
    CoroutineDrop,
    /// A tail call.
    TailCall,
    /// A terminator that yields.
    Yield,
    /// The three-way comparison.
    BinOpCmp,
    /// The pointer offset.
    BinOpOffset,
    /// A step into a place through an opaque cast.
    OpaqueCast,
    /// A step to a field of a type that has no fields.
    UnexpectedField,
    /// A reference to a thread local.
    ThreadLocalRef,
    /// The metadata of a pointer.
    PtrMetadata,
    /// The discriminant of a value that is of no declared type.
    Discriminant,
    /// A wide raw pointer.
    WideRawPtr,
    /// A coroutine.
    Coroutine,
    /// The text of the body has more lines than lie above the end of its span.
    SourceSpan,
    /// A constructor taken as a function.
    Constructor,
    /// The body holds something that lowering has no answer for at all.
    Panic,
}

impl LowerError {
    /// What is said of the error.
    pub open spec fn text(self) -> Seq<char> {
        match self {
            LowerError::CopyNonOverlapping => "Unsupported statement kind: CopyNonOverlapping"@,
            LowerError::UnwindResume => "Unexpected terminator: UnwindResume"@,
            LowerError::UnwindTerminate => "Unexpected terminator: UnwindTerminate"@,
            LowerError::InlineAsm => "Inline assembly is not supported"@,
            LowerError::CoroutineDrop => "Unsupported terminator: CoroutineDrop"@,
            LowerError::TailCall => "Unsupported terminator: TailCall"@,
            LowerError::Yield => "Unsupported terminator: Yield"@,
            LowerError::BinOpCmp => "Unsupported binary operation: Cmp"@,
            LowerError::BinOpOffset => "Unsupported binary operation: offset"@,
            LowerError::OpaqueCast => "Unexpected ProjectionElem::OpaqueCast"@,
            LowerError::UnexpectedField => "Unexpected field projection"@,
            LowerError::ThreadLocalRef => "charon does not support thread local references"@,
            LowerError::PtrMetadata => "Unsupported operation: PtrMetadata"@,
            LowerError::Discriminant => "Unexpected scrutinee type for ReadDiscriminant"@,
            LowerError::WideRawPtr => "Wide raw pointers are not supported"@,
            LowerError::Coroutine => "Coroutines are not supported"@,
            LowerError::SourceSpan => "The text of the body does not fit its span"@,
            LowerError::Constructor => "Casting constructors to function pointers is not supported"@,
            LowerError::Panic => "Thread panicked when extracting body."@,
        }
    }

    /// What is said of the error.
    pub fn message(&self) -> (s: String)
        ensures
            s@ == self.text(),
    {
        match self {
            LowerError::CopyNonOverlapping => String::from_str(
                "Unsupported statement kind: CopyNonOverlapping",
            ),
            LowerError::UnwindResume => String::from_str("Unexpected terminator: UnwindResume"),
            LowerError::UnwindTerminate => String::from_str("Unexpected terminator: UnwindTerminate"),
            LowerError::InlineAsm => String::from_str("Inline assembly is not supported"),
            LowerError::CoroutineDrop => String::from_str("Unsupported terminator: CoroutineDrop"),
            LowerError::TailCall => String::from_str("Unsupported terminator: TailCall"),
            LowerError::Yield => String::from_str("Unsupported terminator: Yield"),
            LowerError::BinOpCmp => String::from_str("Unsupported binary operation: Cmp"),
            LowerError::BinOpOffset => String::from_str("Unsupported binary operation: offset"),
            LowerError::OpaqueCast => String::from_str("Unexpected ProjectionElem::OpaqueCast"),
            LowerError::UnexpectedField => String::from_str("Unexpected field projection"),
            LowerError::ThreadLocalRef => String::from_str(
                "charon does not support thread local references",
            ),
            LowerError::PtrMetadata => String::from_str("Unsupported operation: PtrMetadata"),
            LowerError::Discriminant => String::from_str(
                "Unexpected scrutinee type for ReadDiscriminant",
            ),
            LowerError::WideRawPtr => String::from_str("Wide raw pointers are not supported"),
            LowerError::Coroutine => String::from_str("Coroutines are not supported"),
            LowerError::SourceSpan => String::from_str("The text of the body does not fit its span"),
            LowerError::Constructor => String::from_str(
                "Casting constructors to function pointers is not supported",
            ),
            LowerError::Panic => String::from_str("Thread panicked when extracting body."),
        }
    }
}

/// The variant with the compiler's index.
pub fn translate_variant_id(id: usize) -> (r: VariantId)
    ensures
        r.index == id,
{
    VariantId { index: id }
}

/// The field with the compiler's index.
pub fn translate_field_id(id: usize) -> (r: FieldId)
    ensures
        r.index == id,
{
    FieldId { index: id }
}

/// The kind of a borrow. The deep fake borrow, which only patterns that dereference
/// bring about, is not taken.
pub fn translate_borrow_kind(borrow_kind: MirBorrowKind) -> (r: BorrowKind)
    requires
        !(borrow_kind is FakeDeep),
    ensures
        r == lowered_borrow_kind(borrow_kind),
{
    match borrow_kind {
        MirBorrowKind::Shared => BorrowKind::Shared,
        MirBorrowKind::MutDefault => BorrowKind::Mut,
        MirBorrowKind::MutTwoPhase => BorrowKind::TwoPhaseMut,
        MirBorrowKind::MutClosureCapture => BorrowKind::UniqueImmutable,
        _ => BorrowKind::Shallow,
    }
}

/// The kind of a borrow, lowered.
pub open spec fn lowered_borrow_kind(borrow_kind: MirBorrowKind) -> BorrowKind {
    match borrow_kind {
        MirBorrowKind::Shared => BorrowKind::Shared,
        MirBorrowKind::MutDefault => BorrowKind::Mut,
        MirBorrowKind::MutTwoPhase => BorrowKind::TwoPhaseMut,
        MirBorrowKind::MutClosureCapture => BorrowKind::UniqueImmutable,
        _ => BorrowKind::Shallow,
    }
}

/// The binary operation, or why there is none.
pub open spec fn lowered_binop(binop: MirBinOp) -> Result<BinOp, LowerError> {
    match binop {
        MirBinOp::BitXor => Ok(BinOp::BitXor),
        MirBinOp::BitAnd => Ok(BinOp::BitAnd),
        MirBinOp::BitOr => Ok(BinOp::BitOr),
        MirBinOp::Eq => Ok(BinOp::Eq),
        MirBinOp::Lt => Ok(BinOp::Lt),
        MirBinOp::Le => Ok(BinOp::Le),
        MirBinOp::Ne => Ok(BinOp::Ne),
        MirBinOp::Ge => Ok(BinOp::Ge),
        MirBinOp::Gt => Ok(BinOp::Gt),
        MirBinOp::Div => Ok(BinOp::Div),
        MirBinOp::Rem => Ok(BinOp::Rem),
        MirBinOp::Add => Ok(BinOp::Add),
        MirBinOp::Sub => Ok(BinOp::Sub),
        MirBinOp::Mul => Ok(BinOp::Mul),
        MirBinOp::AddWithOverflow => Ok(BinOp::CheckedAdd),
        MirBinOp::SubWithOverflow => Ok(BinOp::CheckedSub),
        MirBinOp::MulWithOverflow => Ok(BinOp::CheckedMul),
        MirBinOp::Shl => Ok(BinOp::Shl),
        MirBinOp::Shr => Ok(BinOp::Shr),
        MirBinOp::ThreeWay => Err(LowerError::BinOpCmp),
        MirBinOp::Offset => Err(LowerError::BinOpOffset),
    }
}

/// The binary operation: the operations with overflow become the checked ones, and
/// the three-way comparison and the pointer offset are refused.
pub fn translate_binaryop_kind(binop: MirBinOp) -> (r: Result<BinOp, LowerError>)
    ensures
        r == lowered_binop(binop),
{
    Ok(
        match binop {
            MirBinOp::BitXor => BinOp::BitXor,
            MirBinOp::BitAnd => BinOp::BitAnd,
            MirBinOp::BitOr => BinOp::BitOr,
            MirBinOp::Eq => BinOp::Eq,
            MirBinOp::Lt => BinOp::Lt,
            MirBinOp::Le => BinOp::Le,
            MirBinOp::Ne => BinOp::Ne,
            MirBinOp::Ge => BinOp::Ge,
            MirBinOp::Gt => BinOp::Gt,
            MirBinOp::Div => BinOp::Div,
            MirBinOp::Rem => BinOp::Rem,
            MirBinOp::Add => BinOp::Add,
            MirBinOp::Sub => BinOp::Sub,
            MirBinOp::Mul => BinOp::Mul,
            MirBinOp::AddWithOverflow => BinOp::CheckedAdd,
            MirBinOp::SubWithOverflow => BinOp::CheckedSub,
            MirBinOp::MulWithOverflow => BinOp::CheckedMul,
            MirBinOp::Shl => BinOp::Shl,
            MirBinOp::Shr => BinOp::Shr,
            MirBinOp::ThreeWay => {
                return Err(LowerError::BinOpCmp);
            },
            MirBinOp::Offset => {
                return Err(LowerError::BinOpOffset);
            },
        },
    )
}

/// What lowering needs to know of the run.
#[derive(Clone, Copy, Debug, PartialEq, Eq, Structural)]
pub struct Setting {
    /// Whether the compiler has replaced boxes by the pointers inside them.
    pub boxes_are_desugared: bool,
    /// The number of locals of the body.
    pub locals: usize,
}

/// Whether lowering has an answer for the step: a dereference starts from a reference,
/// a raw pointer or a box, a part of a tuple from a tuple, and a box is stepped into
/// only where boxes are kept, through its first field.
pub open spec fn step_admitted(step: MirStep, setting: Setting) -> bool {
    match step.kind {
        MirProjectionElem::Deref => step.ty is Ref || step.ty is RawPtr || (step.ty is Boxed
            && !setting.boxes_are_desugared),
        MirProjectionElem::Field(MirFieldKind::Tuple(_)) => step.ty is Tuple,
        MirProjectionElem::Field(MirFieldKind::Adt { variant, index }) => match step.ty {
            Ty::Tuple(_) => variant is None,
            Ty::Boxed => !setting.boxes_are_desugared && variant is None && index == 0,
            _ => true,
        },
        MirProjectionElem::Index(local) => local < setting.locals,
        _ => true,
    }
}

/// What a step becomes: a step, nothing, or an error.
pub open spec fn lowered_step(step: MirStep) -> Result<Option<ProjectionElem>, LowerError> {
    match step.kind {
        MirProjectionElem::Deref => Ok(Some(ProjectionElem::Deref)),
        MirProjectionElem::Field(MirFieldKind::Tuple(id)) => Ok(
            Some(
                ProjectionElem::Field(
                    FieldProjKind::Tuple(step.ty->Tuple_0),
                    FieldId { index: id },
                ),
            ),
        ),
        MirProjectionElem::Field(MirFieldKind::Adt { variant, index }) => match step.ty {
            Ty::Adt(type_id) => Ok(
                Some(
                    ProjectionElem::Field(
                        FieldProjKind::Adt(
                            type_id,
                            match variant {
                                Some(v) => Some(VariantId { index: v }),
                                None => None,
                            },
                        ),
                        FieldId { index },
                    ),
                ),
            ),
            Ty::Tuple(n) => Ok(
                Some(ProjectionElem::Field(FieldProjKind::Tuple(n), FieldId { index })),
            ),
            Ty::Boxed => Ok(Some(ProjectionElem::Deref)),
            _ => Err(LowerError::UnexpectedField),
        },
        MirProjectionElem::Field(MirFieldKind::ClosureState(index)) => Ok(
            Some(ProjectionElem::Field(FieldProjKind::ClosureState, FieldId { index })),
        ),
        MirProjectionElem::Index(local) => Ok(
            Some(
                ProjectionElem::Index {
                    offset: IndexOffset::Local(VarId { index: local }),
                    from_end: false,
                },
            ),
        ),
        MirProjectionElem::Downcast => Ok(None),
        MirProjectionElem::ConstantIndex { offset, from_end } => Ok(
            Some(ProjectionElem::Index { offset: IndexOffset::Const(offset), from_end }),
        ),
        MirProjectionElem::Subslice { from, to, from_end } => Ok(
            Some(ProjectionElem::Subslice { from, to, from_end }),
        ),
        MirProjectionElem::OpaqueCast => Err(LowerError::OpaqueCast),
    }
}

/// Lowers one step. A step into a box is a dereference, a downcast is no step.
pub fn translate_step(step: &MirStep, setting: Setting) -> (r: Result<
    Option<ProjectionElem>,
    LowerError,
>)
    requires
        step_admitted(*step, setting),
    ensures
        r == lowered_step(*step),
{
    match step.kind {
        MirProjectionElem::Deref => Ok(Some(ProjectionElem::Deref)),
        MirProjectionElem::Field(field_kind) => {
            let proj_elem = match field_kind {
                MirFieldKind::Tuple(id) => {
                    let n = match step.ty {
                        Ty::Tuple(n) => n,
                        _ => 0,
                    };
                    ProjectionElem::Field(FieldProjKind::Tuple(n), translate_field_id(id))
                },
                MirFieldKind::Adt { variant, index } => {
                    let field_id = translate_field_id(index);
                    let variant_id = match variant {
                        Some(v) => Some(translate_variant_id(v)),
                        None => None,
                    };
                    match step.ty {
                        Ty::Adt(type_id) => ProjectionElem::Field(
                            FieldProjKind::Adt(type_id, variant_id),
                            field_id,
                        ),
                        Ty::Tuple(n) => ProjectionElem::Field(FieldProjKind::Tuple(n), field_id),
                        Ty::Boxed => ProjectionElem::Deref,
                        _ => {
                            return Err(LowerError::UnexpectedField);
                        },
                    }
                },
                MirFieldKind::ClosureState(index) => ProjectionElem::Field(
                    FieldProjKind::ClosureState,
                    translate_field_id(index),
                ),
            };
            Ok(Some(proj_elem))
        },
        MirProjectionElem::Index(local) => Ok(
            Some(
                ProjectionElem::Index {
                    offset: IndexOffset::Local(VarId { index: local }),
                    from_end: false,
                },
            ),
        ),
        MirProjectionElem::Downcast => Ok(None),
        MirProjectionElem::ConstantIndex { offset, from_end } => Ok(
            Some(ProjectionElem::Index { offset: IndexOffset::Const(offset), from_end }),
        ),
        MirProjectionElem::Subslice { from, to, from_end } => Ok(
            Some(ProjectionElem::Subslice { from, to, from_end }),
        ),
        MirProjectionElem::OpaqueCast => Err(LowerError::OpaqueCast),
    }
}

/// The steps that the first `n` steps become, in their order.
pub open spec fn lowered_steps(steps: Seq<MirStep>, n: int) -> Seq<ProjectionElem>
    decreases n,
{
    if n <= 0 {
        seq![]
    } else {
        let before = lowered_steps(steps, n - 1);
        match lowered_step(steps[n - 1]) {
            Ok(Some(s)) => before.push(s),
            _ => before,
        }
    }
}

/// The error of the first step at or after `k` that cannot be lowered.
pub open spec fn steps_error(steps: Seq<MirStep>, k: int) -> Option<LowerError>
    decreases steps.len() - k,
{
    if k < 0 || k >= steps.len() {
        None
    } else {
        match lowered_step(steps[k]) {
            Err(e) => Some(e),
            Ok(_) => steps_error(steps, k + 1),
        }
    }
}

impl MirPlace {
    /// Whether lowering has an answer for the place: its local is a local of the body,
    /// and lowering has an answer for every step.
    pub open spec fn admitted(self, setting: Setting) -> bool {
        &&& self.local < setting.locals
        &&& forall|i: int|
            0 <= i < self.steps@.len() ==> step_admitted(#[trigger] self.steps@[i], setting)
    }

    /// Why the place cannot be lowered, if it cannot.
    pub open spec fn error(self) -> Option<LowerError> {
        steps_error(self.steps@, 0)
    }

    /// Whether `p` is what the place becomes.
    pub open spec fn lowers_to(self, p: Place) -> bool {
        p.var_id.index == self.local && p.projection@ == lowered_steps(
            self.steps@,
            self.steps@.len() as int,
        )
    }

    pub fn check_admitted(&self, setting: Setting) -> (b: bool)
        ensures
            b == self.admitted(setting),
    {
        if !(self.local < setting.locals) {
            return false;
        }
        let mut i: usize = 0;
        while i < self.steps.len()
            invariant
                i <= self.steps@.len(),
                forall|k: int| 0 <= k < i ==> step_admitted(#[trigger] self.steps@[k], setting),
            decreases self.steps@.len() - i,
        {
            if !check_step_admitted(&self.steps[i], setting) {
                return false;
            }
            i = i + 1;
        }
        true
    }
}

/// Tests whether lowering has an answer for the step.
pub fn check_step_admitted(step: &MirStep, setting: Setting) -> (b: bool)
    ensures
        b == step_admitted(*step, setting),
{
    match step.kind {
        MirProjectionElem::Deref => match step.ty {
            Ty::Ref(_, _) => true,
            Ty::RawPtr(_, _) => true,
            Ty::Boxed => !setting.boxes_are_desugared,
            _ => false,
        },
        MirProjectionElem::Field(kind) => match kind {
            MirFieldKind::Tuple(_) => match step.ty {
                Ty::Tuple(_) => true,
                _ => false,
            },
            MirFieldKind::Adt { variant, index } => match step.ty {
                Ty::Tuple(_) => variant.is_none(),
                Ty::Boxed => !setting.boxes_are_desugared && variant.is_none() && index == 0,
                _ => true,
            },
            MirFieldKind::ClosureState(_) => true,
        },
        MirProjectionElem::Index(local) => local < setting.locals,
        _ => true,
    }
}

/// Lowers the steps of a place: the local that the place starts from, and the steps.
pub fn translate_projection(place: &MirPlace, setting: Setting) -> (r: Result<
    (VarId, Vec<ProjectionElem>),
    LowerError,
>)
    requires
        place.admitted(setting),
    ensures
        match r {
            Ok((var_id, projection)) => {
                &&& place.error() is None
                &&& var_id.index == place.local
                &&& projection@ == lowered_steps(place.steps@, place.steps@.len() as int)
            },
            Err(e) => place.error() == Some(e),
        },
{
    let mut projection: Vec<ProjectionElem> = Vec::new();
    let mut i: usize = 0;
    while i < place.steps.len()
        invariant
            i <= place.steps@.len(),
            place.admitted(setting),
            projection@ == lowered_steps(place.steps@, i as int),
            steps_error(place.steps@, 0) == steps_error(place.steps@, i as int),
        decreases place.steps@.len() - i,
    {
        match translate_step(&place.steps[i], setting) {
            Err(e) => {
                return Err(e);
            },
            Ok(Some(elem)) => {
                projection.push(elem);
            },
            Ok(None) => {},
        }
        i = i + 1;
    }
    Ok((VarId { index: place.local }, projection))
}

/// Lowers a place, and gives its type.
pub fn translate_place_with_type(place: &MirPlace, setting: Setting) -> (r: Result<
    (Place, Ty),
    LowerError,
>)
    requires
        place.admitted(setting),
    ensures
        match r {
            Ok((p, ty)) => place.error() is None && place.lowers_to(p) && ty == place.ty,
            Err(e) => place.error() == Some(e),
        },
{
    match translate_projection(place, setting) {
        Ok((var_id, projection)) => Ok((Place { var_id, projection: Arc::new(projection) }, place.ty)),
        Err(e) => Err(e),
    }
}

/// Lowers a place.
pub fn translate_place(place: &MirPlace, setting: Setting) -> (r: Result<Place, LowerError>)
    requires
        place.admitted(setting),
    ensures
        match r {
            Ok(p) => place.error() is None && place.lowers_to(p),
            Err(e) => place.error() == Some(e),
        },
{
    match translate_place_with_type(place, setting) {
        Ok((p, _)) => Ok(p),
        Err(e) => Err(e),
    }
}

impl MirOperand {
    /// Whether lowering has an answer for the operand.
    pub open spec fn admitted(self, setting: Setting) -> bool {
        match self {
            MirOperand::Copy(p) => p.admitted(setting),
            MirOperand::Move(p) => p.admitted(setting),
            MirOperand::Constant(_, _) => true,
        }
    }

    /// Why the operand cannot be lowered, if it cannot.
    pub open spec fn error(self) -> Option<LowerError> {
        match self {
            MirOperand::Copy(p) => p.error(),
            MirOperand::Move(p) => p.error(),
            MirOperand::Constant(_, _) => None,
        }
    }

    /// The type of the operand.
    pub open spec fn ty(self) -> Ty {
        match self {
            MirOperand::Copy(p) => p.ty,
            MirOperand::Move(p) => p.ty,
            MirOperand::Constant(_, ty) => ty,
        }
    }

    /// Whether `o` is what the operand becomes.
    pub open spec fn lowers_to(self, o: Operand) -> bool {
        match self {
            MirOperand::Copy(p) => o is Copy && p.lowers_to(o->Copy_0),
            MirOperand::Move(p) => o is Move && p.lowers_to(o->Move_0),
            MirOperand::Constant(c, _) => o == Operand::Const(c),
        }
    }

    pub fn check_admitted(&self, setting: Setting) -> (b: bool)
        ensures
            b == self.admitted(setting),
    {
        match self {
            MirOperand::Copy(p) => p.check_admitted(setting),
            MirOperand::Move(p) => p.check_admitted(setting),
            MirOperand::Constant(_, _) => true,
        }
    }
}

/// Lowers an operand, and gives its type.
pub fn translate_operand_with_type(operand: &MirOperand, setting: Setting) -> (r: Result<
    (Operand, Ty),
    LowerError,
>)
    requires
        operand.admitted(setting),
    ensures
        match r {
            Ok((o, ty)) => operand.error() is None && operand.lowers_to(o) && ty == operand.ty(),
            Err(e) => operand.error() == Some(e),
        },
{
    match operand {
        MirOperand::Copy(place) => match translate_place_with_type(place, setting) {
            Ok((p, ty)) => Ok((Operand::Copy(p), ty)),
            Err(e) => Err(e),
        },
        MirOperand::Move(place) => match translate_place_with_type(place, setting) {
            Ok((p, ty)) => Ok((Operand::Move(p), ty)),
            Err(e) => Err(e),
        },
        MirOperand::Constant(constant, ty) => Ok((Operand::Const(*constant), *ty)),
    }
}

/// Lowers an operand.
pub fn translate_operand(operand: &MirOperand, setting: Setting) -> (r: Result<Operand, LowerError>)
    requires
        operand.admitted(setting),
    ensures
        match r {
            Ok(o) => operand.error() is None && operand.lowers_to(o),
            Err(e) => operand.error() == Some(e),
        },
{
    match translate_operand_with_type(operand, setting) {
        Ok((o, _)) => Ok(o),
        Err(e) => Err(e),
    }
}

/// Whether lowering has an answer for every operand.
pub open spec fn operands_admitted(ops: Seq<MirOperand>, setting: Setting) -> bool {
    forall|i: int| 0 <= i < ops.len() ==> (#[trigger] ops[i]).admitted(setting)
}

/// The error of the first operand at or after `k` that cannot be lowered.
pub open spec fn operands_error(ops: Seq<MirOperand>, k: int) -> Option<LowerError>
    decreases ops.len() - k,
{
    if k < 0 || k >= ops.len() {
        None
    } else if ops[k].error() is Some {
        ops[k].error()
    } else {
        operands_error(ops, k + 1)
    }
}

/// Whether `out` are what the operands become, in their order.
pub open spec fn lower_operands(ops: Seq<MirOperand>, out: Seq<Operand>) -> bool {
    &&& out.len() == ops.len()
    &&& forall|i: int| 0 <= i < ops.len() ==> (#[trigger] ops[i]).lowers_to(out[i])
}

/// Tests whether lowering has an answer for every operand.
pub fn check_operands_admitted(ops: &Vec<MirOperand>, setting: Setting) -> (b: bool)
    ensures
        b == operands_admitted(ops@, setting),
{
    let mut i: usize = 0;
    while i < ops.len()
        invariant
            i <= ops@.len(),
            forall|k: int| 0 <= k < i ==> (#[trigger] ops@[k]).admitted(setting),
        decreases ops@.len() - i,
    {
        if !ops[i].check_admitted(setting) {
            return false;
        }
        i = i + 1;
    }
    true
}

/// The arguments of a call, each lowered, in their order.
pub fn translate_arguments(args: &Vec<MirOperand>, setting: Setting) -> (r: Result<
    Vec<Operand>,
    LowerError,
>)
    requires
        operands_admitted(args@, setting),
    ensures
        match r {
            Ok(out) => operands_error(args@, 0) is None && lower_operands(args@, out@),
            Err(e) => operands_error(args@, 0) == Some(e),
        },
{
    let mut t_args: Vec<Operand> = Vec::new();
    let mut i: usize = 0;
    while i < args.len()
        invariant
            i <= args@.len(),
            operands_admitted(args@, setting),
            t_args@.len() == i,
            forall|k: int| 0 <= k < i ==> (#[trigger] args@[k]).lowers_to(t_args@[k]),
            operands_error(args@, 0) == operands_error(args@, i as int),
        decreases args@.len() - i,
    {
        match translate_operand(&args[i], setting) {
            Ok(op) => {
                t_args.push(op);
            },
            Err(e) => {
                return Err(e);
            },
        }
        i = i + 1;
    }
    Ok(t_args)
}

impl Ty {
    /// Whether the type is one of numbers, booleans or characters.
    pub open spec fn literal(self) -> bool {
        self is Integer || self is Float || self is Bool || self is Char
    }

    pub fn is_literal(&self) -> (b: bool)
        ensures
            b == self.literal(),
    {
        match self {
            Ty::Integer(_) => true,
            Ty::Float(_) => true,
            Ty::Bool => true,
            Ty::Char => true,
            _ => false,
        }
    }
}

/// What a cast from `src` to `tgt` becomes.
pub open spec fn lowered_cast(kind: MirCastKind, src: Ty, tgt: Ty) -> UnOp {
    match kind {
        MirCastKind::IntToInt | MirCastKind::IntToFloat | MirCastKind::FloatToInt
        | MirCastKind::FloatToFloat => UnOp::Cast(CastKind::Scalar(src, tgt)),
        MirCastKind::PtrToPtr | MirCastKind::MutToConstPointer | MirCastKind::ArrayToPointer
        | MirCastKind::DynStar | MirCastKind::FnPtrToPtr | MirCastKind::PointerExposeProvenance
        | MirCastKind::PointerWithExposedProvenance => UnOp::Cast(CastKind::RawPtr(src, tgt)),
        MirCastKind::ClosureFnPointer | MirCastKind::UnsafeFnPointer
        | MirCastKind::ReifyFnPointer => UnOp::Cast(CastKind::FnPtr(src, tgt)),
        MirCastKind::Transmute => UnOp::Cast(CastKind::Transmute(src, tgt)),
        MirCastKind::Unsize => match (src, tgt) {
            (Ty::Ref(kind, Pointee::Array(n)), Ty::Ref(_, Pointee::Slice)) => UnOp::ArrayToSlice(
                kind,
                n,
            ),
            _ => UnOp::Cast(CastKind::Unsize(src, tgt)),
        },
    }
}

/// Whether lowering has an answer for a cast from `src` to `tgt`: a cast between
/// numbers has types of numbers, booleans or characters, and a cast from a reference
/// to an array to one to a slice keeps the kind of the reference.
pub open spec fn cast_admitted(kind: MirCastKind, src: Ty, tgt: Ty) -> bool {
    match kind {
        MirCastKind::IntToInt | MirCastKind::IntToFloat | MirCastKind::FloatToInt
        | MirCastKind::FloatToFloat => src.literal() && tgt.literal(),
        MirCastKind::Unsize => match (src, tgt) {
            (Ty::Ref(k1, Pointee::Array(_)), Ty::Ref(k2, Pointee::Slice)) => k1 == k2,
            _ => true,
        },
        _ => true,
    }
}

/// Lowers a cast.
pub fn translate_cast(kind: MirCastKind, src: Ty, tgt: Ty) -> (r: UnOp)
    requires
        cast_admitted(kind, src, tgt),
    ensures
        r == lowered_cast(kind, src, tgt),
{
    match kind {
        MirCastKind::IntToInt | MirCastKind::IntToFloat | MirCastKind::FloatToInt
        | MirCastKind::FloatToFloat => UnOp::Cast(CastKind::Scalar(src, tgt)),
        MirCastKind::PtrToPtr | MirCastKind::MutToConstPointer | MirCastKind::ArrayToPointer
        | MirCastKind::DynStar | MirCastKind::FnPtrToPtr | MirCastKind::PointerExposeProvenance
        | MirCastKind::PointerWithExposedProvenance => UnOp::Cast(CastKind::RawPtr(src, tgt)),
        MirCastKind::ClosureFnPointer | MirCastKind::UnsafeFnPointer
        | MirCastKind::ReifyFnPointer => UnOp::Cast(CastKind::FnPtr(src, tgt)),
        MirCastKind::Transmute => UnOp::Cast(CastKind::Transmute(src, tgt)),
        MirCastKind::Unsize => match (src, tgt) {
            (Ty::Ref(kind, Pointee::Array(n)), Ty::Ref(_, Pointee::Slice)) => UnOp::ArrayToSlice(
                kind,
                n,
            ),
            _ => UnOp::Cast(CastKind::Unsize(src, tgt)),
        },
    }
}

/// The operation on no operand, lowered.
pub open spec fn lowered_nullop(op: MirNullOp) -> NullOp {
    match op {
        MirNullOp::SizeOf => NullOp::SizeOf,
        MirNullOp::AlignOf => NullOp::AlignOf,
        MirNullOp::OffsetOf => NullOp::OffsetOf,
        MirNullOp::UbChecks => NullOp::UbChecks,
    }
}

/// What an aggregate of `len` operands builds, or why it cannot be lowered.
pub open spec fn lowered_aggregate(kind: MirAggregateKind, len: usize) -> Result<
    AggregateKind,
    LowerError,
> {
    match kind {
        MirAggregateKind::Array(ty) => Ok(AggregateKind::Array(ty, len)),
        MirAggregateKind::Tuple => Ok(AggregateKind::Tuple),
        MirAggregateKind::Adt { adt_id, variant_idx, kind, field_index } => Ok(
            AggregateKind::Adt(
                adt_id,
                if kind is Enum {
                    Some(VariantId { index: variant_idx })
                } else {
                    None
                },
                if kind is Union {
                    Some(FieldId { index: field_index->0 })
                } else {
                    None
                },
            ),
        ),
        MirAggregateKind::Closure(def_id) => Ok(AggregateKind::Closure(def_id)),
        MirAggregateKind::RawPtr => Err(LowerError::WideRawPtr),
        MirAggregateKind::Coroutine => Err(LowerError::Coroutine),
        MirAggregateKind::CoroutineClosure => Err(LowerError::Coroutine),
    }
}

/// Whether lowering has an answer for the aggregate: a value of a union names its field.
pub open spec fn aggregate_admitted(kind: MirAggregateKind) -> bool {
    kind matches MirAggregateKind::Adt { kind: MirAdtKind::Union, field_index, .. }
        ==> field_index is Some
}

/// Lowers what an aggregate builds. A value of an enumeration keeps its variant, a
/// value of a union its field.
pub fn translate_aggregate_kind(kind: MirAggregateKind, len: usize) -> (r: Result<
    AggregateKind,
    LowerError,
>)
    requires
        aggregate_admitted(kind),
    ensures
        r == lowered_aggregate(kind, len),
{
    match kind {
        MirAggregateKind::Array(ty) => Ok(AggregateKind::Array(ty, len)),
        MirAggregateKind::Tuple => Ok(AggregateKind::Tuple),
        MirAggregateKind::Adt { adt_id, variant_idx, kind, field_index } => {
            let variant_id = match kind {
                MirAdtKind::Struct => None,
                MirAdtKind::Union => None,
                MirAdtKind::Enum => Some(translate_variant_id(variant_idx)),
            };
            let field_id = match kind {
                MirAdtKind::Struct => None,
                MirAdtKind::Enum => None,
                MirAdtKind::Union => match field_index {
                    Some(i) => Some(translate_field_id(i)),
                    None => None,
                },
            };
            Ok(AggregateKind::Adt(adt_id, variant_id, field_id))
        },
        MirAggregateKind::Closure(def_id) => Ok(AggregateKind::Closure(def_id)),
        MirAggregateKind::RawPtr => Err(LowerError::WideRawPtr),
        MirAggregateKind::Coroutine => Err(LowerError::Coroutine),
        MirAggregateKind::CoroutineClosure => Err(LowerError::Coroutine),
    }
}

impl MirRvalue {
    /// Whether lowering has an answer for the value.
    pub open spec fn admitted(self, setting: Setting) -> bool {
        match self {
            MirRvalue::Use(op) => op.admitted(setting),
            MirRvalue::CopyForDeref(p) => p.admitted(setting),
            MirRvalue::Repeat(op, _) => op.admitted(setting),
            MirRvalue::Ref(kind, p) => !(kind is FakeDeep) && p.admitted(setting),
            MirRvalue::ThreadLocalRef => true,
            MirRvalue::RawPtr(_, p) => p.admitted(setting),
            MirRvalue::Len(p) => p.admitted(setting) && (p.ty is Array || p.ty is Slice),
            MirRvalue::Cast(kind, op, tgt) => op.admitted(setting) && cast_admitted(
                kind,
                op.ty(),
                tgt,
            ),
            MirRvalue::BinaryOp(_, a, b) => a.admitted(setting) && b.admitted(setting),
            MirRvalue::NullaryOp(_, _) => true,
            MirRvalue::UnaryOp(_, op) => op.admitted(setting),
            MirRvalue::Discriminant(p) => p.admitted(setting),
            MirRvalue::Aggregate(kind, ops) => operands_admitted(ops@, setting)
                && aggregate_admitted(kind),
            MirRvalue::ShallowInitBox(op, _) => op.admitted(setting),
        }
    }

    /// Why the value cannot be lowered, if it cannot.
    pub open spec fn error(self) -> Option<LowerError> {
        match self {
            MirRvalue::Use(op) => op.error(),
            MirRvalue::CopyForDeref(p) => p.error(),
            MirRvalue::Repeat(op, _) => op.error(),
            MirRvalue::Ref(_, p) => p.error(),
            MirRvalue::ThreadLocalRef => Some(LowerError::ThreadLocalRef),
            MirRvalue::RawPtr(_, p) => p.error(),
            MirRvalue::Len(p) => p.error(),
            MirRvalue::Cast(_, op, _) => op.error(),
            MirRvalue::BinaryOp(binop, a, b) => match lowered_binop(binop) {
                Err(e) => Some(e),
                Ok(_) => if a.error() is Some {
                    a.error()
                } else {
                    b.error()
                },
            },
            MirRvalue::NullaryOp(_, _) => None,
            MirRvalue::UnaryOp(unop, op) => if unop is PtrMetadata {
                Some(LowerError::PtrMetadata)
            } else {
                op.error()
            },
            MirRvalue::Discriminant(p) => if p.error() is Some {
                p.error()
            } else if p.ty is Adt {
                None
            } else {
                Some(LowerError::Discriminant)
            },
            MirRvalue::Aggregate(kind, ops) => if operands_error(ops@, 0) is Some {
                operands_error(ops@, 0)
            } else {
                match lowered_aggregate(kind, ops@.len() as usize) {
                    Err(e) => Some(e),
                    Ok(_) => None,
                }
            },
            MirRvalue::ShallowInitBox(op, _) => op.error(),
        }
    }

    /// Whether `r` is what the value becomes.
    pub open spec fn lowers_to(self, r: Rvalue) -> bool {
        match self {
            MirRvalue::Use(op) => r is Use && op.lowers_to(r->Use_0),
            MirRvalue::CopyForDeref(p) => r is Use && r->Use_0 is Copy && p.lowers_to(
                r->Use_0->Copy_0,
            ),
            MirRvalue::Repeat(op, count) => r is Repeat && op.lowers_to(r->Repeat_0) && r->Repeat_1
                == op.ty() && r->Repeat_2 == count,
            MirRvalue::Ref(kind, p) => r is Ref && p.lowers_to(r->Ref_0) && r->Ref_1
                == lowered_borrow_kind(kind),
            MirRvalue::ThreadLocalRef => false,
            MirRvalue::RawPtr(mutable, p) => r is RawPtr && p.lowers_to(r->RawPtr_0) && r->RawPtr_1
                == if mutable {
                RefKind::Mut
            } else {
                RefKind::Shared
            },
            MirRvalue::Len(p) => r is Len && p.lowers_to(r->Len_0) && r->Len_1 == p.ty && r->Len_2
                == match p.ty {
                Ty::Array(n) => Some(n),
                _ => None,
            },
            MirRvalue::Cast(kind, op, tgt) => r is UnaryOp && r->UnaryOp_0 == lowered_cast(
                kind,
                op.ty(),
                tgt,
            ) && op.lowers_to(r->UnaryOp_1),
            MirRvalue::BinaryOp(binop, a, b) => r is BinaryOp && Ok::<BinOp, LowerError>(
                r->BinaryOp_0,
            ) == lowered_binop(binop) && a.lowers_to(r->BinaryOp_1) && b.lowers_to(r->BinaryOp_2),
            MirRvalue::NullaryOp(op, ty) => r == Rvalue::NullaryOp(lowered_nullop(op), ty),
            MirRvalue::UnaryOp(unop, op) => r is UnaryOp && r->UnaryOp_0 == match unop {
                MirUnOp::Not => UnOp::Not,
                _ => UnOp::Neg,
            } && op.lowers_to(r->UnaryOp_1),
            MirRvalue::Discriminant(p) => r is Discriminant && p.lowers_to(r->Discriminant_0)
                && p.ty == Ty::Adt(r->Discriminant_1),
            MirRvalue::Aggregate(kind, ops) => r is Aggregate && Ok::<AggregateKind, LowerError>(
                r->Aggregate_0,
            ) == lowered_aggregate(kind, ops@.len() as usize) && lower_operands(
                ops@,
                r->Aggregate_1@,
            ),
            MirRvalue::ShallowInitBox(op, ty) => r is ShallowInitBox && op.lowers_to(
                r->ShallowInitBox_0,
            ) && r->ShallowInitBox_1 == ty,
        }
    }

    pub fn check_admitted(&self, setting: Setting) -> (b: bool)
        ensures
            b == self.admitted(setting),
    {
        match self {
            MirRvalue::Use(op) => op.check_admitted(setting),
            MirRvalue::CopyForDeref(p) => p.check_admitted(setting),
            MirRvalue::Repeat(op, _) => op.check_admitted(setting),
            MirRvalue::Ref(kind, p) => {
                let deep = match kind {
                    MirBorrowKind::FakeDeep => true,
                    _ => false,
                };
                !deep && p.check_admitted(setting)
            },
            MirRvalue::ThreadLocalRef => true,
            MirRvalue::RawPtr(_, p) => p.check_admitted(setting),
            MirRvalue::Len(p) => {
                let sized = match p.ty {
                    Ty::Array(_) => true,
                    Ty::Slice => true,
                    _ => false,
                };
                p.check_admitted(setting) && sized
            },
            MirRvalue::Cast(kind, op, tgt) => op.check_admitted(setting) && check_cast_admitted(
                *kind,
                operand_ty(op),
                *tgt,
            ),
            MirRvalue::BinaryOp(_, a, b) => a.check_admitted(setting) && b.check_admitted(setting),
            MirRvalue::NullaryOp(_, _) => true,
            MirRvalue::UnaryOp(_, op) => op.check_admitted(setting),
            MirRvalue::Discriminant(p) => p.check_admitted(setting),
            MirRvalue::Aggregate(kind, ops) => {
                let named = match kind {
                    MirAggregateKind::Adt { adt_id, variant_idx, kind, field_index } => match kind {
                        MirAdtKind::Union => field_index.is_some(),
                        _ => true,
                    },
                    _ => true,
                };
                check_operands_admitted(ops, setting) && named
            },
            MirRvalue::ShallowInitBox(op, _) => op.check_admitted(setting),
        }
    }
}

/// The type of an operand.
pub fn operand_ty(op: &MirOperand) -> (ty: Ty)
    ensures
        ty == op.ty(),
{
    match op {
        MirOperand::Copy(p) => p.ty,
        MirOperand::Move(p) => p.ty,
        MirOperand::Constant(_, ty) => *ty,
    }
}

/// Tests whether lowering has an answer for a cast.
pub fn check_cast_admitted(kind: MirCastKind, src: Ty, tgt: Ty) -> (b: bool)
    ensures
        b == cast_admitted(kind, src, tgt),
{
    match kind {
        MirCastKind::IntToInt | MirCastKind::IntToFloat | MirCastKind::FloatToInt
        | MirCastKind::FloatToFloat => src.is_literal() && tgt.is_literal(),
        MirCastKind::Unsize => match (src, tgt) {
            (Ty::Ref(k1, Pointee::Array(_)), Ty::Ref(k2, Pointee::Slice)) => match (k1, k2) {
                (RefKind::Mut, RefKind::Mut) => true,
                (RefKind::Shared, RefKind::Shared) => true,
                _ => false,
            },
            _ => true,
        },
        _ => true,
    }
}

/// Lowers what an assignment computes.
pub fn translate_rvalue(rvalue: &MirRvalue, setting: Setting) -> (r: Result<Rvalue, LowerError>)
    requires
        rvalue.admitted(setting),
    ensures
        match r {
            Ok(out) => rvalue.error() is None && rvalue.lowers_to(out),
            Err(e) => rvalue.error() == Some(e),
        },
{
    match rvalue {
        MirRvalue::Use(operand) => match translate_operand(operand, setting) {
            Ok(op) => Ok(Rvalue::Use(op)),
            Err(e) => Err(e),
        },
        MirRvalue::CopyForDeref(place) => match translate_place(place, setting) {
            Ok(p) => Ok(Rvalue::Use(Operand::Copy(p))),
            Err(e) => Err(e),
        },
        MirRvalue::Repeat(operand, count) => match translate_operand_with_type(operand, setting) {
            Ok((op, t)) => Ok(Rvalue::Repeat(op, t, *count)),
            Err(e) => Err(e),
        },
        MirRvalue::Ref(borrow_kind, place) => match translate_place(place, setting) {
            Ok(p) => Ok(Rvalue::Ref(p, translate_borrow_kind(*borrow_kind))),
            Err(e) => Err(e),
        },
        MirRvalue::ThreadLocalRef => Err(LowerError::ThreadLocalRef),
        MirRvalue::RawPtr(mutable, place) => {
            let kind = if *mutable {
                RefKind::Mut
            } else {
                RefKind::Shared
            };
            match translate_place(place, setting) {
                Ok(p) => Ok(Rvalue::RawPtr(p, kind)),
                Err(e) => Err(e),
            }
        },
        MirRvalue::Len(place) => match translate_place_with_type(place, setting) {
            Ok((p, ty)) => {
                let cg = match ty {
                    Ty::Array(n) => Some(n),
                    _ => None,
                };
                Ok(Rvalue::Len(p, ty, cg))
            },
            Err(e) => Err(e),
        },
        MirRvalue::Cast(cast_kind, operand, tgt_ty) => {
            match translate_operand_with_type(operand, setting) {
                Ok((op, src_ty)) => Ok(
                    Rvalue::UnaryOp(translate_cast(*cast_kind, src_ty, *tgt_ty), op),
                ),
                Err(e) => Err(e),
            }
        },
        MirRvalue::BinaryOp(binop, left, right) => {
            let op = match translate_binaryop_kind(*binop) {
                Ok(op) => op,
                Err(e) => {
                    return Err(e);
                },
            };
            let l = match translate_operand(left, setting) {
                Ok(l) => l,
                Err(e) => {
                    return Err(e);
                },
            };
            match translate_operand(right, setting) {
                Ok(r) => Ok(Rvalue::BinaryOp(op, l, r)),
                Err(e) => Err(e),
            }
        },
        MirRvalue::NullaryOp(nullop, ty) => {
            let op = match nullop {
                MirNullOp::SizeOf => NullOp::SizeOf,
                MirNullOp::AlignOf => NullOp::AlignOf,
                MirNullOp::OffsetOf => NullOp::OffsetOf,
                MirNullOp::UbChecks => NullOp::UbChecks,
            };
            Ok(Rvalue::NullaryOp(op, *ty))
        },
        MirRvalue::UnaryOp(unop, operand) => {
            let unop = match unop {
                MirUnOp::Not => UnOp::Not,
                MirUnOp::Neg => UnOp::Neg,
                MirUnOp::PtrMetadata => {
                    return Err(LowerError::PtrMetadata);
                },
            };
            match translate_operand(operand, setting) {
                Ok(op) => Ok(Rvalue::UnaryOp(unop, op)),
                Err(e) => Err(e),
            }
        },
        MirRvalue::Discriminant(place) => match translate_place_with_type(place, setting) {
            Ok((p, ty)) => match ty {
                Ty::Adt(adt_id) => Ok(Rvalue::Discriminant(p, adt_id)),
                _ => Err(LowerError::Discriminant),
            },
            Err(e) => Err(e),
        },
        MirRvalue::Aggregate(aggregate_kind, operands) => {
            let operands_t = match translate_arguments(operands, setting) {
                Ok(ops) => ops,
                Err(e) => {
                    return Err(e);
                },
            };
            match translate_aggregate_kind(*aggregate_kind, operands_t.len()) {
                Ok(akind) => Ok(Rvalue::Aggregate(akind, operands_t)),
                Err(e) => Err(e),
            }
        },
        MirRvalue::ShallowInitBox(op, ty) => match translate_operand(op, setting) {
            Ok(op) => Ok(Rvalue::ShallowInitBox(op, *ty)),
            Err(e) => Err(e),
        },
    }
}

impl MirStatement {
    /// Whether lowering has an answer for the statement.
    pub open spec fn admitted(self, setting: Setting) -> bool {
        match self.kind {
            MirStatementKind::Assign(p, v) => p.admitted(setting) && v.admitted(setting),
            MirStatementKind::FakeRead(p) => p.admitted(setting),
            MirStatementKind::PlaceMention(p) => p.admitted(setting),
            MirStatementKind::SetDiscriminant { place, variant_index } => place.admitted(setting),
            MirStatementKind::StorageDead(local) => local < setting.locals,
            MirStatementKind::Deinit(p) => p.admitted(setting),
            MirStatementKind::Assume(op) => op.admitted(setting),
            _ => true,
        }
    }

    /// Whether the statement is left out: it has no effect on a run.
    pub open spec fn skipped(self) -> bool {
        match self.kind {
            MirStatementKind::StorageLive(_) => true,
            MirStatementKind::Retag => true,
            MirStatementKind::AscribeUserType => true,
            MirStatementKind::Coverage => true,
            MirStatementKind::ConstEvalCounter => true,
            MirStatementKind::Nop => true,
            _ => false,
        }
    }

    /// Why the statement cannot be lowered, if it cannot.
    pub open spec fn error(self) -> Option<LowerError> {
        match self.kind {
            MirStatementKind::Assign(p, v) => if p.error() is Some {
                p.error()
            } else {
                v.error()
            },
            MirStatementKind::FakeRead(p) => p.error(),
            MirStatementKind::PlaceMention(p) => p.error(),
            MirStatementKind::SetDiscriminant { place, variant_index } => place.error(),
            MirStatementKind::Deinit(p) => p.error(),
            MirStatementKind::Assume(op) => op.error(),
            MirStatementKind::CopyNonOverlapping => Some(LowerError::CopyNonOverlapping),
            _ => None,
        }
    }

    /// Whether `s` is what the statement becomes. A mention of a place becomes a fake
    /// read, and an assumption an assertion.
    pub open spec fn lowers_to(self, s: Statement) -> bool {
        &&& s.span == self.span
        &&& match self.kind {
            MirStatementKind::Assign(p, v) => *s.content is Assign && p.lowers_to(
                s.content->Assign_0,
            ) && v.lowers_to(s.content->Assign_1),
            MirStatementKind::FakeRead(p) => *s.content is FakeRead && p.lowers_to(
                s.content->FakeRead_0,
            ),
            MirStatementKind::PlaceMention(p) => *s.content is FakeRead && p.lowers_to(
                s.content->FakeRead_0,
            ),
            MirStatementKind::SetDiscriminant { place, variant_index } => *s.content
                is SetDiscriminant && place.lowers_to(s.content->SetDiscriminant_0)
                && s.content->SetDiscriminant_1.index == variant_index,
            MirStatementKind::StorageDead(local) => *s.content == RawStatement::StorageDead(
                VarId { index: local },
            ),
            MirStatementKind::Deinit(p) => *s.content is Deinit && p.lowers_to(s.content->Deinit_0),
            MirStatementKind::Assume(op) => *s.content is Assert && op.lowers_to(
                s.content->Assert_0.cond,
            ) && s.content->Assert_0.expected,
            _ => false,
        }
    }

    pub fn check_admitted(&self, setting: Setting) -> (b: bool)
        ensures
            b == self.admitted(setting),
    {
        match &self.kind {
            MirStatementKind::Assign(p, v) => p.check_admitted(setting) && v.check_admitted(setting),
            MirStatementKind::FakeRead(p) => p.check_admitted(setting),
            MirStatementKind::PlaceMention(p) => p.check_admitted(setting),
            MirStatementKind::SetDiscriminant { place, variant_index } => place.check_admitted(
                setting,
            ),
            MirStatementKind::StorageDead(local) => *local < setting.locals,
            MirStatementKind::Deinit(p) => p.check_admitted(setting),
            MirStatementKind::Assume(op) => op.check_admitted(setting),
            _ => true,
        }
    }
}

/// Lowers a statement. What has no effect on a run is left out.
pub fn translate_statement(statement: &MirStatement, setting: Setting) -> (r: Result<
    Option<Statement>,
    LowerError,
>)
    requires
        statement.admitted(setting),
    ensures
        match r {
            Ok(Some(s)) => statement.error() is None && !statement.skipped() && statement.lowers_to(
                s,
            ),
            Ok(None) => statement.error() is None && statement.skipped(),
            Err(e) => statement.error() == Some(e),
        },
{
    let span = statement.span;
    let t_statement: Option<RawStatement> = match &statement.kind {
        MirStatementKind::Assign(place, rvalue) => {
            let t_place = match translate_place(place, setting) {
                Ok(p) => p,
                Err(e) => {
                    return Err(e);
                },
            };
            match translate_rvalue(rvalue, setting) {
                Ok(t_rvalue) => Some(RawStatement::Assign(t_place, t_rvalue)),
                Err(e) => {
                    return Err(e);
                },
            }
        },
        MirStatementKind::FakeRead(place) => match translate_place(place, setting) {
            Ok(p) => Some(RawStatement::FakeRead(p)),
            Err(e) => {
                return Err(e);
            },
        },
        MirStatementKind::PlaceMention(place) => match translate_place(place, setting) {
            Ok(p) => Some(RawStatement::FakeRead(p)),
            Err(e) => {
                return Err(e);
            },
        },
        MirStatementKind::SetDiscriminant { place, variant_index } => {
            match translate_place(place, setting) {
                Ok(p) => Some(RawStatement::SetDiscriminant(p, translate_variant_id(*variant_index))),
                Err(e) => {
                    return Err(e);
                },
            }
        },
        MirStatementKind::StorageLive(_) => None,
        MirStatementKind::StorageDead(local) => Some(
            RawStatement::StorageDead(VarId { index: *local }),
        ),
        MirStatementKind::Deinit(place) => match translate_place(place, setting) {
            Ok(p) => Some(RawStatement::Deinit(p)),
            Err(e) => {
                return Err(e);
            },
        },
        MirStatementKind::Assume(op) => match translate_operand(op, setting) {
            Ok(op) => Some(RawStatement::Assert(Assert { cond: op, expected: true })),
            Err(e) => {
                return Err(e);
            },
        },
        MirStatementKind::CopyNonOverlapping => {
            return Err(LowerError::CopyNonOverlapping);
        },
        MirStatementKind::Retag => None,
        MirStatementKind::AscribeUserType => None,
        MirStatementKind::Coverage => None,
        MirStatementKind::ConstEvalCounter => None,
        MirStatementKind::Nop => None,
    };
    match t_statement {
        Some(kind) => Ok(Some(Statement::new(span, kind))),
        None => Ok(None),
    }
}

impl ScalarValue {
    /// The scalar of kind `ty` whose bits are the low bits of `bits`.
    pub fn from_bits(ty: IntegerTy, bits: u128) -> (s: ScalarValue)
        ensures
            s.ty() == ty,
            s.value() == ty.wrap(bits as int),
    {
        match ty {
            IntegerTy::Isize => ScalarValue::Isize(#[verifier::truncate] (bits as isize)),
            IntegerTy::I8 => ScalarValue::I8(#[verifier::truncate] (bits as i8)),
            IntegerTy::I16 => ScalarValue::I16(#[verifier::truncate] (bits as i16)),
            IntegerTy::I32 => ScalarValue::I32(#[verifier::truncate] (bits as i32)),
            IntegerTy::I64 => ScalarValue::I64(#[verifier::truncate] (bits as i64)),
            IntegerTy::I128 => ScalarValue::I128(#[verifier::truncate] (bits as i128)),
            _ => ScalarValue::from_unchecked_uint(ty, bits),
        }
    }
}

/// A function that lowering treats in a way of its own.
#[derive(Clone, Copy, Debug, PartialEq, Eq, Structural)]
pub enum BuiltinFun {
    BoxNew,
    Panic,
}

/// Whether the language knows a function that panics under the name.
pub open spec fn panic_lang_item(name: Seq<char>) -> bool {
    name == "panic"@ || name == "panic_fmt"@ || name == "begin_panic"@
}

/// Whether the path is that of a function that panics.
pub open spec fn panic_name(path: Seq<Seq<char>>) -> bool {
    ||| path == seq!["core"@, "panicking"@, "assert_failed"@]
    ||| path == seq!["core"@, "panicking"@, "panic_explicit"@]
}

/// What lowering takes the function for: `box_new` by its name in the diagnostics, a
/// function that panics by its name in the language or by its path, or nothing special.
pub open spec fn builtin_of(def: MirFunDef) -> Option<BuiltinFun> {
    if def.diagnostic_item is Some && def.diagnostic_item->0@ == "box_new"@ {
        Some(BuiltinFun::BoxNew)
    } else if (def.lang_item is Some && panic_lang_item(def.lang_item->0@)) || panic_name(
        texts(def.name@),
    ) {
        Some(BuiltinFun::Panic)
    } else {
        None
    }
}

/// Whether the path has the three parts given.
pub fn path_is(path: &Vec<String>, a: &str, b: &str, c: &str) -> (r: bool)
    ensures
        r == (texts(path@) == seq![a@, b@, c@]),
{
    if path.len() != 3 {
        proof {
            assert(texts(path@).len() != seq![a@, b@, c@].len());
        }
        return false;
    }
    let r = same_text(path[0].as_str(), a) && same_text(path[1].as_str(), b) && same_text(
        path[2].as_str(),
        c,
    );
    proof {
        if r {
            assert(texts(path@) =~= seq![a@, b@, c@]);
        } else {
            if texts(path@) == seq![a@, b@, c@] {
                assert(texts(path@)[0] == a@);
                assert(texts(path@)[1] == b@);
                assert(texts(path@)[2] == c@);
            }
        }
    }
    r
}

/// `itertools::Itertools::contains` on the three names: whether one of them is
/// the name asked for.
#[verifier::external_body]
fn names_contain(names: &[&str; 3], name: &str) -> (b: bool)
    ensures
        b == (names@[0]@ == name@ || names@[1]@ == name@ || names@[2]@ == name@),
{
    itertools::Itertools::contains(&mut names.iter(), &name)
}

/// Tells whether the function is one that lowering treats in a way of its own.
pub fn recognize_builtin_fun(def: &MirFunDef) -> (r: Option<BuiltinFun>)
    ensures
        r == builtin_of(*def),
{
    let is_box_new = match &def.diagnostic_item {
        Some(item) => same_text(item.as_str(), "box_new"),
        None => false,
    };
    if is_box_new {
        return Some(BuiltinFun::BoxNew);
    }
    let panic_lang_items = ["panic", "panic_fmt", "begin_panic"];
    let by_lang_item = match &def.lang_item {
        Some(item) => names_contain(&panic_lang_items, item.as_str()),
        None => false,
    };
    if by_lang_item || path_is(&def.name, "core", "panicking", "assert_failed") || path_is(
        &def.name,
        "core",
        "panicking",
        "panic_explicit",
    ) {
        Some(BuiltinFun::Panic)
    } else {
        None
    }
}

/// A function to call with its arguments, or a panic.
#[derive(Debug)]
pub enum SubstFunIdOrPanic {
    /// A function that panics, with its path.
    Panic(String),
    /// A function, and the arguments where there are any.
    Fun(FunIdOrTraitMethodRef, Option<Vec<Operand>>),
}

impl MirFunDef {
    /// Whether lowering has an answer for a call of the function: a function that is
    /// built in is not called through a trait.
    pub open spec fn admitted(self) -> bool {
        builtin_of(self) == Some(BuiltinFun::BoxNew) ==> self.trait_info is None
    }

    /// The function as a callee: built in, declared, or a method of a trait.
    pub open spec fn callee(self) -> FunIdOrTraitMethodRef {
        if builtin_of(self) is Some {
            FunIdOrTraitMethodRef::Fun(FunId::Builtin(BuiltinFunId::BoxNew))
        } else {
            match self.trait_info {
                None => FunIdOrTraitMethodRef::Fun(FunId::Regular(self.fun_id)),
                Some((impl_id, method)) => FunIdOrTraitMethodRef::Trait(
                    impl_id,
                    method,
                    self.fun_id,
                ),
            }
        }
    }

    pub fn check_admitted(&self) -> (b: bool)
        ensures
            b == self.admitted(),
    {
        match recognize_builtin_fun(self) {
            Some(BuiltinFun::BoxNew) => self.trait_info.is_none(),
            _ => true,
        }
    }
}

/// Lowers a function that is named, with the arguments where there are any: a
/// function that panics becomes a panic with the path of the function, whatever the
/// arguments; another function becomes a callee with the arguments lowered.
pub fn translate_fun_decl_id_with_args(
    def: &MirFunDef,
    args: Option<&Vec<MirOperand>>,
    setting: Setting,
) -> (r: Result<SubstFunIdOrPanic, LowerError>)
    requires
        def.admitted(),
        args is Some ==> operands_admitted(args->0@, setting),
    ensures
        match r {
            Ok(SubstFunIdOrPanic::Panic(name)) => builtin_of(*def) == Some(BuiltinFun::Panic)
                && name@ == joined(texts(def.name@), "::"@),
            Ok(SubstFunIdOrPanic::Fun(func, t_args)) => {
                &&& builtin_of(*def) != Some(BuiltinFun::Panic)
                &&& func == def.callee()
                &&& match args {
                    Some(given) => operands_error(given@, 0) is None && t_args is Some
                        && lower_operands(given@, t_args->0@),
                    None => t_args is None,
                }
            },
            Err(e) => builtin_of(*def) != Some(BuiltinFun::Panic) && args is Some
                && operands_error(args->0@, 0) == Some(e),
        },
{
    let builtin_fun = recognize_builtin_fun(def);
    match builtin_fun {
        Some(BuiltinFun::Panic) => {
            return Ok(SubstFunIdOrPanic::Panic(join(&def.name, "::")));
        },
        _ => {},
    }
    let args = match args {
        Some(args) => match translate_arguments(args, setting) {
            Ok(t) => Some(t),
            Err(e) => {
                return Err(e);
            },
        },
        None => None,
    };
    let func = match builtin_fun {
        Some(_) => FunIdOrTraitMethodRef::mk_assumed(BuiltinFunId::BoxNew),
        None => match &def.trait_info {
            None => FunIdOrTraitMethodRef::Fun(FunId::Regular(def.fun_id)),
            Some((impl_id, method_name)) => FunIdOrTraitMethodRef::Trait(
                *impl_id,
                method_name.clone(),
                def.fun_id,
            ),
        },
    };
    Ok(SubstFunIdOrPanic::Fun(func, args))
}

impl MirFunOperand {
    /// Whether the callee is a function that panics.
    pub open spec fn panics(self) -> bool {
        self matches MirFunOperand::Id(def) && builtin_of(def) == Some(BuiltinFun::Panic)
    }
}

impl MirTerminatorKind {
    /// The blocks that lowering follows from the terminator, in the order in which it
    /// meets them: none behind a terminator that it refuses, and of a false edge the
    /// real target alone.
    pub open spec fn successors(self) -> Seq<usize> {
        match self {
            MirTerminatorKind::Goto { target } => seq![target],
            MirTerminatorKind::SwitchInt { discr, targets } => match targets {
                MirSwitchTargets::If(a, b) => seq![a, b],
                MirSwitchTargets::SwitchInt(_, arms, otherwise) => Seq::new(
                    arms@.len(),
                    |i: int| arms@[i].1,
                ).push(otherwise),
            },
            MirTerminatorKind::Drop { place, target } => seq![target],
            MirTerminatorKind::Call { fun, args, destination, target } => match target {
                Some(t) => seq![t],
                None => seq![],
            },
            MirTerminatorKind::Assert { cond, expected, target } => seq![target],
            MirTerminatorKind::FalseEdge { real_target, imaginary_target } => seq![real_target],
            MirTerminatorKind::FalseUnwind { real_target } => seq![real_target],
            _ => seq![],
        }
    }

    /// The successors as a list.
    pub fn successor_list(&self) -> (r: Vec<usize>)
        ensures
            r@ == self.successors(),
    {
        let mut r: Vec<usize> = Vec::new();
        match self {
            MirTerminatorKind::Goto { target } => {
                r.push(*target);
            },
            MirTerminatorKind::SwitchInt { discr, targets } => match targets {
                MirSwitchTargets::If(a, b) => {
                    r.push(*a);
                    r.push(*b);
                },
                MirSwitchTargets::SwitchInt(_, arms, otherwise) => {
                    let mut i: usize = 0;
                    while i < arms.len()
                        invariant
                            i <= arms@.len(),
                            r@ == Seq::new(i as nat, |k: int| arms@[k].1),
                        decreases arms@.len() - i,
                    {
                        r.push(arms[i].1);
                        i = i + 1;
                        assert(r@ =~= Seq::new(i as nat, |k: int| arms@[k].1));
                    }
                    r.push(*otherwise);
                },
            },
            MirTerminatorKind::Drop { place, target } => {
                r.push(*target);
            },
            MirTerminatorKind::Call { fun, args, destination, target } => match target {
                Some(t) => {
                    r.push(*t);
                },
                None => {},
            },
            MirTerminatorKind::Assert { cond, expected, target } => {
                r.push(*target);
            },
            MirTerminatorKind::FalseEdge { real_target, imaginary_target } => {
                r.push(*real_target);
            },
            MirTerminatorKind::FalseUnwind { real_target } => {
                r.push(*real_target);
            },
            _ => {},
        }
        assert(r@ =~= self.successors());
        r
    }

    /// Whether lowering has an answer for the terminator: for every place and operand
    /// in it, and a call of a function that panics names no block to return to.
    pub open spec fn admitted(self, setting: Setting) -> bool {
        match self {
            MirTerminatorKind::SwitchInt { discr, targets } => discr.admitted(setting),
            MirTerminatorKind::Drop { place, target } => place.admitted(setting),
            MirTerminatorKind::Call { fun, args, destination, target } => {
                &&& destination.admitted(setting)
                &&& operands_admitted(args@, setting)
                &&& match fun {
                    MirFunOperand::Id(def) => def.admitted() && (builtin_of(def) == Some(
                        BuiltinFun::Panic,
                    ) ==> target is None),
                    MirFunOperand::Move(p) => p.admitted(setting),
                }
            },
            MirTerminatorKind::Assert { cond, expected, target } => cond.admitted(setting),
            _ => true,
        }
    }

    pub fn check_admitted(&self, setting: Setting) -> (b: bool)
        ensures
            b == self.admitted(setting),
    {
        match self {
            MirTerminatorKind::SwitchInt { discr, targets } => discr.check_admitted(setting),
            MirTerminatorKind::Drop { place, target } => place.check_admitted(setting),
            MirTerminatorKind::Call { fun, args, destination, target } => {
                let callee = match fun {
                    MirFunOperand::Id(def) => {
                        let panics = match recognize_builtin_fun(def) {
                            Some(BuiltinFun::Panic) => true,
                            _ => false,
                        };
                        def.check_admitted() && (!panics || target.is_none())
                    },
                    MirFunOperand::Move(p) => p.check_admitted(setting),
                };
                destination.check_admitted(setting) && check_operands_admitted(args, setting)
                    && callee
            },
            MirTerminatorKind::Assert { cond, expected, target } => cond.check_admitted(setting),
            _ => true,
        }
    }
}

/// Whether the compiler's block `m` has the name `b`.
pub open spec fn named(names: Seq<Option<BlockId>>, m: usize, b: BlockId) -> bool {
    m < names.len() && names[m as int] == Some(b)
}

/// Whether every block that the terminator leads to has a name.
pub open spec fn targets_named(term: MirTerminatorKind, names: Seq<Option<BlockId>>) -> bool {
    forall|k: int|
        0 <= k < term.successors().len() ==> {
            &&& (#[trigger] term.successors()[k]) < names.len()
            &&& names[term.successors()[k] as int] is Some
        }
}

/// The name of a block of the compiler.
pub fn translate_basic_block_id(names: &Vec<Option<BlockId>>, block_id: usize) -> (r: BlockId)
    requires
        block_id < names@.len(),
        names@[block_id as int] is Some,
    ensures
        named(names@, block_id, r),
{
    match names[block_id] {
        Some(id) => id,
        None => 0,
    }
}

/// Whether `out` is the branch that the compiler's branch becomes under the names.
pub open spec fn lowers_targets(
    targets: MirSwitchTargets,
    names: Seq<Option<BlockId>>,
    out: SwitchTargets,
) -> bool {
    match targets {
        MirSwitchTargets::If(a, b) => out is If && named(names, a, out->If_0) && named(
            names,
            b,
            out->If_1,
        ),
        MirSwitchTargets::SwitchInt(ty, arms, otherwise) => {
            &&& out is SwitchInt
            &&& out->SwitchInt_0 == ty
            &&& out->SwitchInt_1@.len() == arms@.len()
            &&& forall|i: int|
                0 <= i < arms@.len() ==> {
                    &&& (#[trigger] out->SwitchInt_1@[i]).0.ty() == ty
                    &&& out->SwitchInt_1@[i].0.value() == ty.wrap(arms@[i].0 as int)
                    &&& named(names, arms@[i].1, out->SwitchInt_1@[i].1)
                }
            &&& named(names, otherwise, out->SwitchInt_2)
        },
    }
}

/// The blocks that a branch leads to.
pub open spec fn branch_successors(targets: MirSwitchTargets) -> Seq<usize> {
    match targets {
        MirSwitchTargets::If(a, b) => seq![a, b],
        MirSwitchTargets::SwitchInt(_, arms, otherwise) => Seq::new(
            arms@.len(),
            |i: int| arms@[i].1,
        ).push(otherwise),
    }
}

/// Lowers the targets of a branch: the blocks get their names, and the bits of an
/// arm become a scalar of the kind of the branch.
pub fn translate_switch_targets(names: &Vec<Option<BlockId>>, targets: &MirSwitchTargets) -> (r:
    SwitchTargets)
    requires
        forall|k: int|
            0 <= k < branch_successors(*targets).len() ==> {
                &&& (#[trigger] branch_successors(*targets)[k]) < names@.len()
                &&& names@[branch_successors(*targets)[k] as int] is Some
            },
    ensures
        lowers_targets(*targets, names@, r),
{
    match targets {
        MirSwitchTargets::If(if_block, then_block) => {
            assert(branch_successors(*targets)[0] == *if_block);
            assert(branch_successors(*targets)[1] == *then_block);
            let a = translate_basic_block_id(names, *if_block);
            let b = translate_basic_block_id(names, *then_block);
            SwitchTargets::If(a, b)
        },
        MirSwitchTargets::SwitchInt(ty, arms, otherwise) => {
            let mut out: Vec<(ScalarValue, BlockId)> = Vec::new();
            let mut i: usize = 0;
            while i < arms.len()
                invariant
                    i <= arms@.len(),
                    *targets == MirSwitchTargets::SwitchInt(*ty, *arms, *otherwise),
                    forall|k: int|
                        0 <= k < branch_successors(*targets).len() ==> {
                            &&& (#[trigger] branch_successors(*targets)[k]) < names@.len()
                            &&& names@[branch_successors(*targets)[k] as int] is Some
                        },
                    out@.len() == i,
                    forall|k: int|
                        0 <= k < i ==> {
                            &&& (#[trigger] out@[k]).0.ty() == *ty
                            &&& out@[k].0.value() == ty.wrap(arms@[k].0 as int)
                            &&& named(names@, arms@[k].1, out@[k].1)
                        },
                decreases arms@.len() - i,
            {
                assert(branch_successors(*targets)[i as int] == arms@[i as int].1);
                let v = ScalarValue::from_bits(*ty, arms[i].0);
                let t = translate_basic_block_id(names, arms[i].1);
                out.push((v, t));
                i = i + 1;
            }
            assert(branch_successors(*targets)[arms@.len() as int] == *otherwise);
            let o = translate_basic_block_id(names, *otherwise);
            SwitchTargets::SwitchInt(*ty, out, o)
        },
    }
}

/// Why the call cannot be lowered, if it cannot: the error of the place that takes
/// the result, or else, unless the callee panics, that of the callee or of the
/// first argument that has one.
pub open spec fn call_error(
    fun: MirFunOperand,
    args: Seq<MirOperand>,
    destination: MirPlace,
) -> Option<LowerError> {
    if destination.error() is Some {
        destination.error()
    } else {
        match fun {
            MirFunOperand::Id(def) => if builtin_of(def) == Some(BuiltinFun::Panic) {
                None
            } else {
                operands_error(args, 0)
            },
            MirFunOperand::Move(p) => if p.error() is Some {
                p.error()
            } else {
                operands_error(args, 0)
            },
        }
    }
}

/// Whether `out` and `pushed` are what a call becomes under the names: a call of a
/// function that panics becomes an abort with the path of the function, and any
/// other call a statement, followed by a jump to where the call returns, or by an
/// abort where it does not return.
pub open spec fn lowers_call(
    span: Span,
    fun: MirFunOperand,
    args: Seq<MirOperand>,
    destination: MirPlace,
    target: Option<usize>,
    names: Seq<Option<BlockId>>,
    out: Terminator,
    pushed: Seq<Statement>,
) -> bool {
    if fun.panics() {
        &&& pushed.len() == 0
        &&& out is Abort
        &&& out->Abort_0 is Panic
        &&& out->Abort_0->Panic_0@ == joined(texts(fun->Id_0.name@), "::"@)
    } else {
        &&& pushed.len() == 1
        &&& pushed[0].span == span
        &&& *pushed[0].content is Call
        &&& destination.lowers_to(pushed[0].content->Call_0.dest)
        &&& pushed[0].content->Call_0.trait_and_method_generic_args is None
        &&& lower_operands(args, pushed[0].content->Call_0.args@)
        &&& match fun {
            MirFunOperand::Id(def) => pushed[0].content->Call_0.func == FnOperand::Regular(
                def.callee(),
            ),
            MirFunOperand::Move(p) => pushed[0].content->Call_0.func is Move && p.lowers_to(
                pushed[0].content->Call_0.func->Move_0,
            ),
        }
        &&& match target {
            Some(t) => out is Goto && named(names, t, out->target),
            None => out == Terminator::Abort(AbortKind::UndefinedBehavior),
        }
    }
}

/// Lowers a call. A call of a function that panics becomes an abort with the path
/// of the function; any other call becomes a statement at the end of `statements`,
/// followed by a jump to the block where the call returns, or by an abort where
/// it does not return.
pub fn translate_function_call(
    names: &Vec<Option<BlockId>>,
    statements: &mut Vec<Statement>,
    span: Span,
    fun: &MirFunOperand,
    args: &Vec<MirOperand>,
    destination: &MirPlace,
    target: &Option<usize>,
    setting: Setting,
) -> (r: Result<Terminator, LowerError>)
    requires
        (MirTerminatorKind::Call {
            fun: *fun,
            args: *args,
            destination: *destination,
            target: *target,
        }).admitted(setting),
        target is Some ==> target->0 < names@.len() && names@[target->0 as int] is Some,
    ensures
        old(statements)@.is_prefix_of(final(statements)@),
        match r {
            Ok(out) => call_error(*fun, args@, *destination) is None && lowers_call(
                span,
                *fun,
                args@,
                *destination,
                *target,
                names@,
                out,
                final(statements)@.skip(old(statements)@.len() as int),
            ),
            Err(e) => call_error(*fun, args@, *destination) == Some(e) && final(statements)@ == old(
                statements,
            )@,
        },
{
    let ghost before = statements@;
    proof {
        assert(statements@.skip(before.len() as int) =~= seq![]);
    }
    let lval = match translate_place(destination, setting) {
        Ok(p) => p,
        Err(e) => {
            return Err(e);
        },
    };
    let next_block = match target {
        Some(t) => Some(translate_basic_block_id(names, *t)),
        None => None,
    };
    let (fn_operand, args) = match fun {
        MirFunOperand::Id(def) => {
            match translate_fun_decl_id_with_args(def, Some(args), setting) {
                Ok(SubstFunIdOrPanic::Panic(name)) => {
                    return Ok(Terminator::Abort(AbortKind::Panic(name)));
                },
                Ok(SubstFunIdOrPanic::Fun(func, t_args)) => match t_args {
                    Some(t_args) => (FnOperand::Regular(func), t_args),
                    None => (FnOperand::Regular(func), Vec::new()),
                },
                Err(e) => {
                    return Err(e);
                },
            }
        },
        MirFunOperand::Move(p) => {
            let p = match translate_place(p, setting) {
                Ok(p) => p,
                Err(e) => {
                    return Err(e);
                },
            };
            match translate_arguments(args, setting) {
                Ok(t_args) => (FnOperand::Move(p), t_args),
                Err(e) => {
                    return Err(e);
                },
            }
        },
    };
    let call = Call { func: fn_operand, trait_and_method_generic_args: None, args, dest: lval };
    statements.push(Statement::new(span, RawStatement::Call(call)));
    proof {
        assert(statements@.skip(before.len() as int) =~= seq![statements@[before.len() as int]]);
    }
    Ok(
        match next_block {
            Some(target) => Terminator::Goto { target },
            None => Terminator::Abort(AbortKind::UndefinedBehavior),
        },
    )
}

impl MirTerminator {
    /// Why the terminator cannot be lowered, if it cannot.
    pub open spec fn error(self) -> Option<LowerError> {
        match self.kind {
            MirTerminatorKind::SwitchInt { discr, targets } => discr.error(),
            MirTerminatorKind::UnwindResume => Some(LowerError::UnwindResume),
            MirTerminatorKind::UnwindTerminate => Some(LowerError::UnwindTerminate),
            MirTerminatorKind::Drop { place, target } => place.error(),
            MirTerminatorKind::Call { fun, args, destination, target } => call_error(
                fun,
                args@,
                destination,
            ),
            MirTerminatorKind::Assert { cond, expected, target } => cond.error(),
            MirTerminatorKind::InlineAsm => Some(LowerError::InlineAsm),
            MirTerminatorKind::CoroutineDrop => Some(LowerError::CoroutineDrop),
            MirTerminatorKind::TailCall => Some(LowerError::TailCall),
            MirTerminatorKind::Yield => Some(LowerError::Yield),
            _ => None,
        }
    }

    /// Whether `out` and `pushed` are what the terminator becomes under the names: the
    /// terminator, and the statements that go before it. A drop, an assertion and a
    /// call become statements followed by a jump, a false edge a jump to its real target.
    pub open spec fn lowers_to(
        self,
        names: Seq<Option<BlockId>>,
        out: Terminator,
        pushed: Seq<Statement>,
    ) -> bool {
        match self.kind {
            MirTerminatorKind::Goto { target } => pushed.len() == 0 && out is Goto && named(
                names,
                target,
                out->target,
            ),
            MirTerminatorKind::SwitchInt { discr, targets } => {
                &&& pushed.len() == 0
                &&& out is Switch
                &&& discr.lowers_to(out->discr)
                &&& lowers_targets(targets, names, out->targets)
            },
            MirTerminatorKind::Return => pushed.len() == 0 && out == Terminator::Return,
            MirTerminatorKind::Unreachable => pushed.len() == 0 && out == Terminator::Abort(
                AbortKind::UndefinedBehavior,
            ),
            MirTerminatorKind::Drop { place, target } => {
                &&& pushed.len() == 1
                &&& pushed[0].span == self.span
                &&& *pushed[0].content is Drop
                &&& place.lowers_to(pushed[0].content->Drop_0)
                &&& out is Goto
                &&& named(names, target, out->target)
            },
            MirTerminatorKind::Call { fun, args, destination, target } => lowers_call(
                self.span,
                fun,
                args@,
                destination,
                target,
                names,
                out,
                pushed,
            ),
            MirTerminatorKind::Assert { cond, expected, target } => {
                &&& pushed.len() == 1
                &&& pushed[0].span == self.span
                &&& *pushed[0].content is Assert
                &&& cond.lowers_to(pushed[0].content->Assert_0.cond)
                &&& pushed[0].content->Assert_0.expected == expected
                &&& out is Goto
                &&& named(names, target, out->target)
            },
            MirTerminatorKind::FalseEdge { real_target, imaginary_target } => pushed.len() == 0
                && out is Goto && named(names, real_target, out->target),
            MirTerminatorKind::FalseUnwind { real_target } => pushed.len() == 0 && out is Goto
                && named(names, real_target, out->target),
            _ => false,
        }
    }
}

/// Lowers a terminator. What it has to run before control goes on is put at the end
/// of `statements`.
pub fn translate_terminator(
    names: &Vec<Option<BlockId>>,
    terminator: &MirTerminator,
    statements: &mut Vec<Statement>,
    setting: Setting,
) -> (r: Result<Terminator, LowerError>)
    requires
        terminator.kind.admitted(setting),
        targets_named(terminator.kind, names@),
    ensures
        old(statements)@.is_prefix_of(final(statements)@),
        match r {
            Ok(out) => terminator.error() is None && terminator.lowers_to(
                names@,
                out,
                final(statements)@.skip(old(statements)@.len() as int),
            ),
            Err(e) => terminator.error() == Some(e) && final(statements)@ == old(statements)@,
        },
{
    let ghost before = statements@;
    let span = terminator.span;
    proof {
        assert(statements@.skip(before.len() as int) =~= seq![]);
    }
    let t = match &terminator.kind {
        MirTerminatorKind::Goto { target } => {
            assert(terminator.kind.successors()[0] == *target);
            Terminator::Goto { target: translate_basic_block_id(names, *target) }
        },
        MirTerminatorKind::SwitchInt { discr, targets } => {
            let discr = match translate_operand(discr, setting) {
                Ok(d) => d,
                Err(e) => {
                    return Err(e);
                },
            };
            assert(branch_successors(*targets) == terminator.kind.successors());
            let targets = translate_switch_targets(names, targets);
            Terminator::Switch { discr, targets }
        },
        MirTerminatorKind::UnwindResume => {
            return Err(LowerError::UnwindResume);
        },
        MirTerminatorKind::UnwindTerminate => {
            return Err(LowerError::UnwindTerminate);
        },
        MirTerminatorKind::Return => Terminator::Return,
        MirTerminatorKind::Unreachable => Terminator::Abort(AbortKind::UndefinedBehavior),
        MirTerminatorKind::Drop { place, target } => {
            assert(terminator.kind.successors()[0] == *target);
            let place = match translate_place(place, setting) {
                Ok(p) => p,
                Err(e) => {
                    return Err(e);
                },
            };
            statements.push(Statement::new(span, RawStatement::Drop(place)));
            proof {
                assert(statements@.skip(before.len() as int) =~= seq![
                    statements@[before.len() as int],
                ]);
            }
            Terminator::Goto { target: translate_basic_block_id(names, *target) }
        },
        MirTerminatorKind::Call { fun, args, destination, target } => {
            proof {
                if target is Some {
                    assert(terminator.kind.successors()[0] == target->0);
                }
            }
            match translate_function_call(
                names,
                statements,
                span,
                fun,
                args,
                destination,
                target,
                setting,
            ) {
                Ok(t) => t,
                Err(e) => {
                    return Err(e);
                },
            }
        },
        MirTerminatorKind::Assert { cond, expected, target } => {
            assert(terminator.kind.successors()[0] == *target);
            let cond = match translate_operand(cond, setting) {
                Ok(c) => c,
                Err(e) => {
                    return Err(e);
                },
            };
            statements.push(
                Statement::new(span, RawStatement::Assert(Assert { cond, expected: *expected })),
            );
            proof {
                assert(statements@.skip(before.len() as int) =~= seq![
                    statements@[before.len() as int],
                ]);
            }
            Terminator::Goto { target: translate_basic_block_id(names, *target) }
        },
        MirTerminatorKind::FalseEdge { real_target, imaginary_target } => {
            assert(terminator.kind.successors()[0] == *real_target);
            Terminator::Goto { target: translate_basic_block_id(names, *real_target) }
        },
        MirTerminatorKind::FalseUnwind { real_target } => {
            assert(terminator.kind.successors()[0] == *real_target);
            Terminator::Goto { target: translate_basic_block_id(names, *real_target) }
        },
        MirTerminatorKind::InlineAsm => {
            return Err(LowerError::InlineAsm);
        },
        MirTerminatorKind::CoroutineDrop => {
            return Err(LowerError::CoroutineDrop);
        },
        MirTerminatorKind::TailCall => {
            return Err(LowerError::TailCall);
        },
        MirTerminatorKind::Yield => {
            return Err(LowerError::Yield);
        },
    };
    Ok(t)
}

/// Whether `out` are what the first `n` statements become, in their order: every
/// statement but those that are left out.
pub open spec fn lower_statements(stmts: Seq<MirStatement>, n: int, out: Seq<Statement>) -> bool
    decreases n,
{
    if n <= 0 {
        out.len() == 0
    } else if stmts[n - 1].skipped() {
        lower_statements(stmts, n - 1, out)
    } else {
        out.len() > 0 && stmts[n - 1].lowers_to(out.last()) && lower_statements(
            stmts,
            n - 1,
            out.drop_last(),
        )
    }
}

/// The error of the first statement at or after `k` that cannot be lowered.
pub open spec fn statements_error(stmts: Seq<MirStatement>, k: int) -> Option<LowerError>
    decreases stmts.len() - k,
{
    if k < 0 || k >= stmts.len() {
        None
    } else if stmts[k].error() is Some {
        stmts[k].error()
    } else {
        statements_error(stmts, k + 1)
    }
}

impl MirBlock {
    /// Whether lowering has an answer for the block: it has a terminator, its targets
    /// are among the `blocks` blocks of the body, and lowering has an answer for its
    /// statements and its terminator.
    pub open spec fn admitted(self, blocks: int, setting: Setting) -> bool {
        &&& self.terminator is Some
        &&& forall|k: int|
            0 <= k < self.terminator->0.kind.successors().len() ==> (
            #[trigger] self.terminator->0.kind.successors()[k]) < blocks
        &&& self.terminator->0.kind.admitted(setting)
        &&& forall|k: int|
            0 <= k < self.statements@.len() ==> (#[trigger] self.statements@[k]).admitted(setting)
    }

    /// Why the block cannot be lowered, if it cannot: the error of its first statement
    /// that has one, or else that of its terminator.
    pub open spec fn error(self) -> Option<LowerError> {
        if statements_error(self.statements@, 0) is Some {
            statements_error(self.statements@, 0)
        } else {
            self.terminator->0.error()
        }
    }

    /// Whether `out` is what the block becomes under the names: its statements lowered,
    /// then what its terminator has to run, then the terminator, which stands where
    /// it stood.
    pub open spec fn lowers_to(self, names: Seq<Option<BlockId>>, out: BlockData) -> bool {
        exists|own: int|
            {
                &&& 0 <= own <= out.statements@.len()
                &&& #[trigger] lower_statements(
                    self.statements@,
                    self.statements@.len() as int,
                    out.statements@.take(own),
                )
                &&& self.terminator->0.lowers_to(names, out.terminator, out.statements@.skip(own))
                &&& out.terminator_span == self.terminator->0.span
            }
    }

    pub fn check_admitted(&self, blocks: usize, setting: Setting) -> (b: bool)
        ensures
            b == self.admitted(blocks as int, setting),
    {
        let ok = match &self.terminator {
            Some(t) => {
                let list = t.kind.successor_list();
                let mut k: usize = 0;
                let mut below = true;
                while k < list.len()
                    invariant
                        k <= list@.len(),
                        below == forall|i: int| 0 <= i < k ==> (#[trigger] list@[i]) < blocks,
                    decreases list@.len() - k,
                {
                    if !(list[k] < blocks) {
                        below = false;
                    }
                    k = k + 1;
                }
                below && t.kind.check_admitted(setting)
            },
            None => false,
        };
        if !ok {
            return false;
        }
        let mut k: usize = 0;
        while k < self.statements.len()
            invariant
                k <= self.statements@.len(),
                forall|i: int| 0 <= i < k ==> (#[trigger] self.statements@[i]).admitted(setting),
            decreases self.statements@.len() - k,
        {
            if !self.statements[k].check_admitted(setting) {
                return false;
            }
            k = k + 1;
        }
        true
    }
}

/// Whether every block that the terminator leads to has a name.
pub fn check_targets_named(term: &MirTerminatorKind, names: &Vec<Option<BlockId>>) -> (b: bool)
    ensures
        b == targets_named(*term, names@),
{
    let list = term.successor_list();
    let mut k: usize = 0;
    while k < list.len()
        invariant
            k <= list@.len(),
            list@ == term.successors(),
            forall|i: int|
                0 <= i < k ==> {
                    &&& (#[trigger] term.successors()[i]) < names@.len()
                    &&& names@[term.successors()[i] as int] is Some
                },
        decreases list@.len() - k,
    {
        let x = list[k];
        if x >= names.len() {
            return false;
        }
        match names[x] {
            Some(_) => {},
            None => {
                return false;
            },
        }
        k = k + 1;
    }
    true
}

impl MirBlock {
    /// Whether the block can be handed to lowering under the names: lowering has an
    /// answer for it, and every block that it leads to has a name.
    pub open spec fn fit(self, names: Seq<Option<BlockId>>, setting: Setting) -> bool {
        self.admitted(names.len() as int, setting) && targets_named(
            self.terminator->0.kind,
            names,
        )
    }

    /// Why the block is not lowered under the names, if it is not: a block that
    /// cannot be handed to lowering is refused as a whole, another has the error of
    /// its first statement that has one, or else that of its terminator.
    pub open spec fn failure(self, names: Seq<Option<BlockId>>, setting: Setting) -> Option<
        LowerError,
    > {
        if !self.fit(names, setting) {
            Some(LowerError::Panic)
        } else {
            self.error()
        }
    }
}

/// Lowers a block. A block without a terminator, or with anything else that
/// lowering has no answer for, is refused.
pub fn translate_basic_block(names: &Vec<Option<BlockId>>, block: &MirBlock, setting: Setting) -> (r:
    Result<BlockData, LowerError>)
    ensures
        match r {
            Ok(out) => block.failure(names@, setting) is None && block.lowers_to(names@, out),
            Err(e) => block.failure(names@, setting) == Some(e),
        },
{
    if !block.check_admitted(names.len(), setting) {
        return Err(LowerError::Panic);
    }
    let named = match &block.terminator {
        Some(t) => check_targets_named(&t.kind, names),
        None => false,
    };
    if !named {
        return Err(LowerError::Panic);
    }
    let mut statements: Vec<Statement> = Vec::new();
    let mut i: usize = 0;
    while i < block.statements.len()
        invariant
            i <= block.statements@.len(),
            forall|k: int|
                0 <= k < block.statements@.len() ==> (#[trigger] block.statements@[k]).admitted(
                    setting,
                ),
            block.fit(names@, setting),
            lower_statements(block.statements@, i as int, statements@),
            statements_error(block.statements@, 0) == statements_error(block.statements@, i as int),
        decreases block.statements@.len() - i,
    {
        let ghost before = statements@;
        match translate_statement(&block.statements[i], setting) {
            Err(e) => {
                return Err(e);
            },
            Ok(Some(statement)) => {
                statements.push(statement);
                proof {
                    assert(statements@.drop_last() =~= before);
                }
            },
            Ok(None) => {},
        }
        i = i + 1;
    }
    let terminator = match &block.terminator {
        Some(t) => t,
        None => {
            return Err(LowerError::Panic);
        },
    };
    let ghost own = statements@;
    let span = terminator.span;
    match translate_terminator(names, terminator, &mut statements, setting) {
        Ok(terminator) => {
            let out = BlockData { statements, terminator, terminator_span: span };
            proof {
                assert(out.statements@.take(own.len() as int) =~= own);
                assert(lower_statements(
                    block.statements@,
                    block.statements@.len() as int,
                    out.statements@.take(own.len() as int),
                ));
            }
            Ok(out)
        },
        Err(e) => Err(e),
    }
}

} // verus!
