use charon::comments::{gather_comments, line_notes, strip_blank, strip_slashes};
use charon::driver::MirLevel;
use charon::expressions::{
    AggregateKind, BinOp, BorrowKind, BuiltinFunId, CastKind, Constant, FieldProjKind, FunId,
    FunIdOrTraitMethodRef, IndexOffset, NullOp, ProjectionElem, UnOp,
};
use charon::formatter::FieldId;
use charon::gast::{ClosureKind, GenericParams, ItemKind, ItemMeta, ParamsInfo, Span};
use charon::krate::{GlobalDeclId, TraitDeclId, TraitImplId};
use charon::llbc::Tree;
use charon::lower::{
    recognize_builtin_fun, translate_basic_block, translate_binaryop_kind, translate_borrow_kind,
    translate_cast, translate_field_id, translate_fun_decl_id_with_args, translate_operand,
    translate_place, translate_place_with_type, translate_rvalue, translate_statement,
    translate_terminator, translate_variant_id, BuiltinFun, LowerError, Setting, SubstFunIdOrPanic,
};
use charon::lower_body::{
    block_names, boxes_are_desugared, gather_body_comments, get_item_kind, translate_body,
    translate_body_locals, translate_function_signature, translate_transparent_expression_body,
    BodyTransCtx, MirAssocItem, MirContainer, MirDef, MirDefKind, MirSig,
};
use charon::mir::{
    MirAdtKind, MirAggregateKind, MirBinOp, MirBlock, MirBody, MirBorrowKind, MirCastKind,
    MirFieldKind, MirFunDef, MirFunOperand, MirLocal, MirNullOp, MirOperand, MirPlace,
    MirProjectionElem, MirRvalue, MirStatement, MirStatementKind, MirStep, MirSwitchTargets,
    MirTerminator, MirTerminatorKind, MirUnOp,
};
use charon::reach::discover;
use charon::translate::{structure_shaped, StructureError};
use charon::types::{Pointee, RefKind, Ty, TypeDefId};
use charon::ullbc::{
    AbortKind, Assert, Call, FnOperand, FunDeclId, Operand, Place, RawStatement, Rvalue, Statement,
    SwitchTargets, Terminator, VarId, VariantId,
};
use charon::values::{FloatTy, IntegerTy, ScalarValue};
use std::sync::Arc;

fn span(end_line: usize) -> Span {
    Span { file: 0, begin_line: 1, begin_col: 0, end_line, end_col: 1 }
}

fn setting() -> Setting {
    Setting { boxes_are_desugared: false, locals: 4 }
}

fn local(i: usize) -> MirPlace {
    MirPlace { local: i, steps: vec![], ty: Ty::Bool }
}

fn place(i: usize) -> Place {
    Place::new(VarId { index: i })
}

fn stepped(i: usize, steps: Vec<MirStep>, ty: Ty) -> MirPlace {
    MirPlace { local: i, steps, ty }
}

fn step(ty: Ty, kind: MirProjectionElem) -> MirStep {
    MirStep { ty, kind }
}

fn copy(i: usize) -> MirOperand {
    MirOperand::Copy(local(i))
}

fn locals(n: usize) -> Vec<MirLocal> {
    (0..n).map(|i| MirLocal { name: if i == 1 { Some("x".to_string()) } else { None }, ty: Ty::Bool }).collect()
}

fn stmt(kind: MirStatementKind) -> MirStatement {
    MirStatement { span: span(3), kind }
}

fn term(kind: MirTerminatorKind) -> MirTerminator {
    MirTerminator { span: span(4), kind }
}

fn block(statements: Vec<MirStatementKind>, terminator: MirTerminatorKind) -> MirBlock {
    MirBlock { statements: statements.into_iter().map(stmt).collect(), terminator: Some(term(terminator)) }
}

fn body(blocks: Vec<MirBlock>) -> MirBody {
    MirBody { span: span(10), local_decls: locals(4), basic_blocks: blocks, source_text: None }
}

fn def(body: MirBody) -> MirDef {
    MirDef { kind: MirDefKind::Fn { sig: sig(0) }, assoc_item: None, opaque: false, body: Some(body) }
}

fn fun(name: &[&str]) -> MirFunDef {
    MirFunDef {
        name: name.iter().map(|s| s.to_string()).collect(),
        diagnostic_item: None,
        lang_item: None,
        fun_id: FunDeclId { index: 3 },
        trait_info: None,
    }
}

fn show(t: &Tree) -> String {
    match t {
        Tree::Leaf(s) => match s.content.as_ref() {
            RawStatement::StorageDead(v) => format!("dead{}", v.index),
            RawStatement::Drop(p) => format!("drop{}", p.var_id.index),
            RawStatement::Assert(a) => format!("assert{}", a.expected),
            RawStatement::Call(c) => format!("call{}", c.args.len()),
            _ => "stmt".to_string(),
        },
        Tree::Sequence(items) => {
            format!("[{}]", items.iter().map(show).collect::<Vec<_>>().join(" "))
        }
        Tree::If(_, a, b) => format!("if({},{})", show(a), show(b)),
        Tree::Switch(_, _, arms, d) => format!(
            "switch({};{})",
            arms.iter().map(|(v, t)| format!("{}=>{}", v.to_string(), show(t))).collect::<Vec<_>>().join(","),
            show(d)
        ),
        Tree::Loop(b) => format!("loop({})", show(b)),
        Tree::Break(n) => format!("break{}", n),
        Tree::Continue(n) => format!("continue{}", n),
        Tree::Return => "return".to_string(),
        Tree::Abort(AbortKind::UndefinedBehavior) => "ub".to_string(),
        Tree::Abort(AbortKind::Panic(n)) => format!("panic({})", n),
    }
}

#[test]
fn search_finds_nodes_in_order_of_first_mention() {
    // 0 -> 3, 1; 3 -> 2, 1; 1 -> 0; 2 -> (); 4 is not reached
    let adj = vec![vec![3, 1], vec![0], vec![], vec![2, 1], vec![0]];
    assert_eq!(discover(&adj, 0), vec![0, 3, 1, 2]);
    assert_eq!(discover(&adj, 4), vec![4, 0, 3, 1, 2]);
    assert_eq!(discover(&adj, 2), vec![2]);
    assert_eq!(discover(&vec![vec![0, 0]], 0), vec![0]);
}

#[test]
fn names_follow_the_order() {
    assert_eq!(block_names(&vec![0, 3, 1], 5), vec![Some(0), Some(2), None, Some(1), None]);
    assert_eq!(block_names(&vec![], 2), vec![None, None]);
}

#[test]
fn kinds_are_carried_over() {
    assert_eq!(translate_variant_id(7), VariantId { index: 7 });
    assert_eq!(translate_field_id(2), FieldId { index: 2 });
    assert_eq!(translate_borrow_kind(MirBorrowKind::Shared), BorrowKind::Shared);
    assert_eq!(translate_borrow_kind(MirBorrowKind::MutDefault), BorrowKind::Mut);
    assert_eq!(translate_borrow_kind(MirBorrowKind::MutTwoPhase), BorrowKind::TwoPhaseMut);
    assert_eq!(translate_borrow_kind(MirBorrowKind::MutClosureCapture), BorrowKind::UniqueImmutable);
    assert_eq!(translate_borrow_kind(MirBorrowKind::FakeShallow), BorrowKind::Shallow);
    assert_eq!(translate_binaryop_kind(MirBinOp::Add), Ok(BinOp::Add));
    assert_eq!(translate_binaryop_kind(MirBinOp::AddWithOverflow), Ok(BinOp::CheckedAdd));
    assert_eq!(translate_binaryop_kind(MirBinOp::SubWithOverflow), Ok(BinOp::CheckedSub));
    assert_eq!(translate_binaryop_kind(MirBinOp::MulWithOverflow), Ok(BinOp::CheckedMul));
    assert_eq!(translate_binaryop_kind(MirBinOp::Shr), Ok(BinOp::Shr));
    assert_eq!(translate_binaryop_kind(MirBinOp::ThreeWay), Err(LowerError::BinOpCmp));
    assert_eq!(translate_binaryop_kind(MirBinOp::Offset), Err(LowerError::BinOpOffset));
    assert_eq!(LowerError::BinOpCmp.message(), "Unsupported binary operation: Cmp");
    assert_eq!(LowerError::InlineAsm.message(), "Inline assembly is not supported");
    assert_eq!(LowerError::OpaqueCast.message(), "Unexpected ProjectionElem::OpaqueCast");
    assert!(!boxes_are_desugared(MirLevel::Built));
    assert!(!boxes_are_desugared(MirLevel::Promoted));
    assert!(boxes_are_desugared(MirLevel::Optimized));
}

#[test]
fn places_are_lowered() {
    let adt = Ty::Adt(TypeDefId { index: 9 });
    let p = stepped(
        2,
        vec![
            step(Ty::Ref(RefKind::Mut, Pointee::Other), MirProjectionElem::Deref),
            step(adt, MirProjectionElem::Downcast),
            step(adt, MirProjectionElem::Field(MirFieldKind::Adt { variant: Some(1), index: 3 })),
            step(Ty::Tuple(2), MirProjectionElem::Field(MirFieldKind::Tuple(1))),
            step(Ty::Tuple(3), MirProjectionElem::Field(MirFieldKind::Adt { variant: None, index: 2 })),
            step(Ty::Boxed, MirProjectionElem::Field(MirFieldKind::Adt { variant: None, index: 0 })),
            step(Ty::Boxed, MirProjectionElem::Deref),
            step(Ty::Other, MirProjectionElem::Field(MirFieldKind::ClosureState(4))),
            step(Ty::Slice, MirProjectionElem::Index(3)),
            step(Ty::Array(8), MirProjectionElem::ConstantIndex { offset: 2, from_end: true }),
            step(Ty::Slice, MirProjectionElem::Subslice { from: 1, to: 2, from_end: false }),
        ],
        Ty::Char,
    );
    assert!(p.check_admitted(setting()));
    let (out, ty) = translate_place_with_type(&p, setting()).unwrap();
    assert_eq!(ty, Ty::Char);
    assert_eq!(out.var_id, VarId { index: 2 });
    assert_eq!(
        *out.projection,
        vec![
            ProjectionElem::Deref,
            ProjectionElem::Field(
                FieldProjKind::Adt(TypeDefId { index: 9 }, Some(VariantId { index: 1 })),
                FieldId { index: 3 }
            ),
            ProjectionElem::Field(FieldProjKind::Tuple(2), FieldId { index: 1 }),
            ProjectionElem::Field(FieldProjKind::Tuple(3), FieldId { index: 2 }),
            ProjectionElem::Deref,
            ProjectionElem::Deref,
            ProjectionElem::Field(FieldProjKind::ClosureState, FieldId { index: 4 }),
            ProjectionElem::Index { offset: IndexOffset::Local(VarId { index: 3 }), from_end: false },
            ProjectionElem::Index { offset: IndexOffset::Const(2), from_end: true },
            ProjectionElem::Subslice { from: 1, to: 2, from_end: false },
        ]
    );
    assert_eq!(translate_place(&local(1), setting()), Ok(place(1)));
}

#[test]
fn places_that_cannot_be_lowered() {
    let cast = stepped(1, vec![step(Ty::Other, MirProjectionElem::OpaqueCast)], Ty::Bool);
    assert_eq!(translate_place(&cast, setting()), Err(LowerError::OpaqueCast));
    let field = stepped(
        1,
        vec![step(Ty::Bool, MirProjectionElem::Field(MirFieldKind::Adt { variant: None, index: 0 }))],
        Ty::Bool,
    );
    assert_eq!(translate_place(&field, setting()), Err(LowerError::UnexpectedField));
    // the first error in the order of the steps wins
    let both = stepped(
        1,
        vec![
            step(Ty::Bool, MirProjectionElem::Field(MirFieldKind::Adt { variant: None, index: 0 })),
            step(Ty::Other, MirProjectionElem::OpaqueCast),
        ],
        Ty::Bool,
    );
    assert_eq!(translate_place(&both, setting()), Err(LowerError::UnexpectedField));
}

#[test]
fn places_without_an_answer_are_told_apart() {
    let desugared = Setting { boxes_are_desugared: true, locals: 4 };
    let deref_box = stepped(1, vec![step(Ty::Boxed, MirProjectionElem::Deref)], Ty::Bool);
    assert!(deref_box.check_admitted(setting()));
    assert!(!deref_box.check_admitted(desugared));
    let deref_bool = stepped(1, vec![step(Ty::Bool, MirProjectionElem::Deref)], Ty::Bool);
    assert!(!deref_bool.check_admitted(setting()));
    let part = stepped(1, vec![step(Ty::Bool, MirProjectionElem::Field(MirFieldKind::Tuple(0)))], Ty::Bool);
    assert!(!part.check_admitted(setting()));
    let variant_of_tuple = stepped(
        1,
        vec![step(Ty::Tuple(2), MirProjectionElem::Field(MirFieldKind::Adt { variant: Some(0), index: 0 }))],
        Ty::Bool,
    );
    assert!(!variant_of_tuple.check_admitted(setting()));
    let second_of_box = stepped(
        1,
        vec![step(Ty::Boxed, MirProjectionElem::Field(MirFieldKind::Adt { variant: None, index: 1 }))],
        Ty::Bool,
    );
    assert!(!second_of_box.check_admitted(setting()));
    assert!(!local(4).check_admitted(setting()));
    assert!(!stepped(1, vec![step(Ty::Slice, MirProjectionElem::Index(4))], Ty::Bool).check_admitted(setting()));
}

#[test]
fn operands_are_lowered() {
    assert_eq!(translate_operand(&copy(2), setting()), Ok(Operand::Copy(place(2))));
    assert_eq!(translate_operand(&MirOperand::Move(local(3)), setting()), Ok(Operand::Move(place(3))));
    assert_eq!(
        translate_operand(&MirOperand::Constant(Constant::Scalar(ScalarValue::U8(3)), Ty::Integer(IntegerTy::U8)), setting()),
        Ok(Operand::Const(Constant::Scalar(ScalarValue::U8(3))))
    );
}

#[test]
fn casts_are_lowered() {
    let int = Ty::Integer(IntegerTy::I32);
    let float = Ty::Float(FloatTy::Double);
    assert_eq!(translate_cast(MirCastKind::IntToFloat, int, float), UnOp::Cast(CastKind::Scalar(int, float)));
    assert_eq!(translate_cast(MirCastKind::FloatToInt, float, int), UnOp::Cast(CastKind::Scalar(float, int)));
    let ptr = Ty::RawPtr(RefKind::Shared, Pointee::Other);
    for kind in [
        MirCastKind::PtrToPtr,
        MirCastKind::MutToConstPointer,
        MirCastKind::ArrayToPointer,
        MirCastKind::DynStar,
        MirCastKind::FnPtrToPtr,
        MirCastKind::PointerExposeProvenance,
        MirCastKind::PointerWithExposedProvenance,
    ] {
        assert_eq!(translate_cast(kind, ptr, int), UnOp::Cast(CastKind::RawPtr(ptr, int)));
    }
    for kind in [MirCastKind::ClosureFnPointer, MirCastKind::UnsafeFnPointer, MirCastKind::ReifyFnPointer] {
        assert_eq!(translate_cast(kind, Ty::Other, ptr), UnOp::Cast(CastKind::FnPtr(Ty::Other, ptr)));
    }
    assert_eq!(translate_cast(MirCastKind::Transmute, int, float), UnOp::Cast(CastKind::Transmute(int, float)));
    let array = Ty::Ref(RefKind::Mut, Pointee::Array(4));
    let slice = Ty::Ref(RefKind::Mut, Pointee::Slice);
    assert_eq!(translate_cast(MirCastKind::Unsize, array, slice), UnOp::ArrayToSlice(RefKind::Mut, 4));
    assert_eq!(translate_cast(MirCastKind::Unsize, slice, array), UnOp::Cast(CastKind::Unsize(slice, array)));
    assert_eq!(translate_cast(MirCastKind::Unsize, Ty::Boxed, Ty::Boxed), UnOp::Cast(CastKind::Unsize(Ty::Boxed, Ty::Boxed)));
}

#[test]
fn rvalues_are_lowered() {
    let s = setting();
    assert_eq!(translate_rvalue(&MirRvalue::Use(copy(1)), s), Ok(Rvalue::Use(Operand::Copy(place(1)))));
    assert_eq!(translate_rvalue(&MirRvalue::CopyForDeref(local(2)), s), Ok(Rvalue::Use(Operand::Copy(place(2)))));
    assert_eq!(
        translate_rvalue(&MirRvalue::Repeat(copy(1), 16), s),
        Ok(Rvalue::Repeat(Operand::Copy(place(1)), Ty::Bool, 16))
    );
    assert_eq!(
        translate_rvalue(&MirRvalue::Ref(MirBorrowKind::MutTwoPhase, local(1)), s),
        Ok(Rvalue::Ref(place(1), BorrowKind::TwoPhaseMut))
    );
    assert_eq!(translate_rvalue(&MirRvalue::RawPtr(true, local(1)), s), Ok(Rvalue::RawPtr(place(1), RefKind::Mut)));
    assert_eq!(translate_rvalue(&MirRvalue::RawPtr(false, local(1)), s), Ok(Rvalue::RawPtr(place(1), RefKind::Shared)));
    assert_eq!(
        translate_rvalue(&MirRvalue::Len(MirPlace { local: 1, steps: vec![], ty: Ty::Array(5) }), s),
        Ok(Rvalue::Len(place(1), Ty::Array(5), Some(5)))
    );
    assert_eq!(
        translate_rvalue(&MirRvalue::Len(MirPlace { local: 1, steps: vec![], ty: Ty::Slice }), s),
        Ok(Rvalue::Len(place(1), Ty::Slice, None))
    );
    assert_eq!(
        translate_rvalue(&MirRvalue::Cast(MirCastKind::Transmute, copy(1), Ty::Char), s),
        Ok(Rvalue::UnaryOp(UnOp::Cast(CastKind::Transmute(Ty::Bool, Ty::Char)), Operand::Copy(place(1))))
    );
    assert_eq!(
        translate_rvalue(&MirRvalue::BinaryOp(MirBinOp::MulWithOverflow, copy(1), copy(2)), s),
        Ok(Rvalue::BinaryOp(BinOp::CheckedMul, Operand::Copy(place(1)), Operand::Copy(place(2))))
    );
    assert_eq!(
        translate_rvalue(&MirRvalue::NullaryOp(MirNullOp::AlignOf, Ty::Char), s),
        Ok(Rvalue::NullaryOp(NullOp::AlignOf, Ty::Char))
    );
    assert_eq!(
        translate_rvalue(&MirRvalue::UnaryOp(MirUnOp::Neg, copy(1)), s),
        Ok(Rvalue::UnaryOp(UnOp::Neg, Operand::Copy(place(1))))
    );
    assert_eq!(
        translate_rvalue(&MirRvalue::UnaryOp(MirUnOp::Not, copy(1)), s),
        Ok(Rvalue::UnaryOp(UnOp::Not, Operand::Copy(place(1))))
    );
    let scrutinee = MirPlace { local: 1, steps: vec![], ty: Ty::Adt(TypeDefId { index: 6 }) };
    assert_eq!(
        translate_rvalue(&MirRvalue::Discriminant(scrutinee), s),
        Ok(Rvalue::Discriminant(place(1), TypeDefId { index: 6 }))
    );
    assert_eq!(
        translate_rvalue(&MirRvalue::ShallowInitBox(copy(1), Ty::Char), s),
        Ok(Rvalue::ShallowInitBox(Operand::Copy(place(1)), Ty::Char))
    );
}

#[test]
fn aggregates_are_lowered() {
    let s = setting();
    let two = || vec![copy(1), copy(2)];
    let ops = vec![Operand::Copy(place(1)), Operand::Copy(place(2))];
    assert_eq!(
        translate_rvalue(&MirRvalue::Aggregate(MirAggregateKind::Array(Ty::Bool), two()), s),
        Ok(Rvalue::Aggregate(AggregateKind::Array(Ty::Bool, 2), ops.clone()))
    );
    assert_eq!(
        translate_rvalue(&MirRvalue::Aggregate(MirAggregateKind::Tuple, vec![]), s),
        Ok(Rvalue::Aggregate(AggregateKind::Tuple, vec![]))
    );
    let adt = |kind, field_index| MirAggregateKind::Adt { adt_id: TypeDefId { index: 1 }, variant_idx: 2, kind, field_index };
    assert_eq!(
        translate_rvalue(&MirRvalue::Aggregate(adt(MirAdtKind::Struct, None), two()), s),
        Ok(Rvalue::Aggregate(AggregateKind::Adt(TypeDefId { index: 1 }, None, None), ops.clone()))
    );
    assert_eq!(
        translate_rvalue(&MirRvalue::Aggregate(adt(MirAdtKind::Enum, Some(7)), two()), s),
        Ok(Rvalue::Aggregate(AggregateKind::Adt(TypeDefId { index: 1 }, Some(VariantId { index: 2 }), None), ops.clone()))
    );
    assert_eq!(
        translate_rvalue(&MirRvalue::Aggregate(adt(MirAdtKind::Union, Some(7)), two()), s),
        Ok(Rvalue::Aggregate(AggregateKind::Adt(TypeDefId { index: 1 }, None, Some(FieldId { index: 7 })), ops.clone()))
    );
    assert!(!MirRvalue::Aggregate(adt(MirAdtKind::Union, None), two()).check_admitted(s));
    assert_eq!(
        translate_rvalue(&MirRvalue::Aggregate(MirAggregateKind::Closure(FunDeclId { index: 4 }), two()), s),
        Ok(Rvalue::Aggregate(AggregateKind::Closure(FunDeclId { index: 4 }), ops))
    );
    assert_eq!(
        translate_rvalue(&MirRvalue::Aggregate(MirAggregateKind::RawPtr, vec![]), s),
        Err(LowerError::WideRawPtr)
    );
    assert_eq!(
        translate_rvalue(&MirRvalue::Aggregate(MirAggregateKind::Coroutine, vec![]), s),
        Err(LowerError::Coroutine)
    );
    assert_eq!(
        translate_rvalue(&MirRvalue::Aggregate(MirAggregateKind::CoroutineClosure, vec![]), s),
        Err(LowerError::Coroutine)
    );
}

#[test]
fn rvalues_that_cannot_be_lowered() {
    let s = setting();
    let bad = || MirOperand::Copy(stepped(1, vec![step(Ty::Other, MirProjectionElem::OpaqueCast)], Ty::Bool));
    assert_eq!(translate_rvalue(&MirRvalue::ThreadLocalRef, s), Err(LowerError::ThreadLocalRef));
    assert_eq!(
        translate_rvalue(&MirRvalue::UnaryOp(MirUnOp::PtrMetadata, bad()), s),
        Err(LowerError::PtrMetadata)
    );
    assert_eq!(translate_rvalue(&MirRvalue::UnaryOp(MirUnOp::Not, bad()), s), Err(LowerError::OpaqueCast));
    assert_eq!(translate_rvalue(&MirRvalue::Discriminant(local(1)), s), Err(LowerError::Discriminant));
    // the operation is looked at before the operands, the left operand before the right
    assert_eq!(
        translate_rvalue(&MirRvalue::BinaryOp(MirBinOp::Offset, bad(), copy(1)), s),
        Err(LowerError::BinOpOffset)
    );
    assert_eq!(
        translate_rvalue(&MirRvalue::BinaryOp(MirBinOp::Add, copy(1), bad()), s),
        Err(LowerError::OpaqueCast)
    );
    // the operands of an aggregate are looked at before its kind
    assert_eq!(
        translate_rvalue(&MirRvalue::Aggregate(MirAggregateKind::RawPtr, vec![bad()]), s),
        Err(LowerError::OpaqueCast)
    );
    assert!(!MirRvalue::Ref(MirBorrowKind::FakeDeep, local(1)).check_admitted(s));
    assert!(!MirRvalue::Len(local(1)).check_admitted(s));
    assert!(!MirRvalue::Cast(MirCastKind::IntToInt, copy(1), Ty::Str).check_admitted(s));
    assert!(MirRvalue::Cast(MirCastKind::IntToInt, copy(1), Ty::Char).check_admitted(s));
    let array = MirOperand::Copy(MirPlace { local: 1, steps: vec![], ty: Ty::Ref(RefKind::Mut, Pointee::Array(2)) });
    assert!(!MirRvalue::Cast(MirCastKind::Unsize, array, Ty::Ref(RefKind::Shared, Pointee::Slice)).check_admitted(s));
}

#[test]
fn statements_are_lowered() {
    let s = setting();
    let lowered = |kind| translate_statement(&stmt(kind), s).map(|o| o.map(|st| (st.span, (*st.content).clone())));
    assert_eq!(
        lowered(MirStatementKind::Assign(local(1), MirRvalue::Use(MirOperand::Move(local(2))))),
        Ok(Some((span(3), RawStatement::Assign(place(1), Rvalue::Use(Operand::Move(place(2)))))))
    );
    assert_eq!(lowered(MirStatementKind::PlaceMention(local(3))), Ok(Some((span(3), RawStatement::FakeRead(place(3))))));
    assert_eq!(lowered(MirStatementKind::FakeRead(local(3))), Ok(Some((span(3), RawStatement::FakeRead(place(3))))));
    assert_eq!(
        lowered(MirStatementKind::SetDiscriminant { place: local(1), variant_index: 4 }),
        Ok(Some((span(3), RawStatement::SetDiscriminant(place(1), VariantId { index: 4 }))))
    );
    assert_eq!(lowered(MirStatementKind::StorageLive(1)), Ok(None));
    assert_eq!(
        lowered(MirStatementKind::StorageDead(1)),
        Ok(Some((span(3), RawStatement::StorageDead(VarId { index: 1 }))))
    );
    assert_eq!(lowered(MirStatementKind::Deinit(local(2))), Ok(Some((span(3), RawStatement::Deinit(place(2))))));
    assert_eq!(
        lowered(MirStatementKind::Assume(copy(1))),
        Ok(Some((span(3), RawStatement::Assert(Assert { cond: Operand::Copy(place(1)), expected: true }))))
    );
    assert_eq!(lowered(MirStatementKind::CopyNonOverlapping), Err(LowerError::CopyNonOverlapping));
    assert_eq!(
        lowered(MirStatementKind::Assign(local(1), MirRvalue::ThreadLocalRef)),
        Err(LowerError::ThreadLocalRef)
    );
    for kind in [
        MirStatementKind::Retag,
        MirStatementKind::AscribeUserType,
        MirStatementKind::Coverage,
        MirStatementKind::ConstEvalCounter,
        MirStatementKind::Nop,
    ] {
        assert_eq!(lowered(kind), Ok(None));
    }
    assert!(!stmt(MirStatementKind::StorageDead(4)).check_admitted(s));
    assert!(stmt(MirStatementKind::StorageLive(99)).check_admitted(s));
}

#[test]
fn bits_become_scalars() {
    assert_eq!(ScalarValue::from_bits(IntegerTy::U8, 255), ScalarValue::U8(255));
    assert_eq!(ScalarValue::from_bits(IntegerTy::I8, 255), ScalarValue::I8(-1));
    assert_eq!(ScalarValue::from_bits(IntegerTy::I32, 0xffff_fffe), ScalarValue::I32(-2));
    assert_eq!(ScalarValue::from_bits(IntegerTy::I128, u128::MAX), ScalarValue::I128(-1));
    assert_eq!(ScalarValue::from_bits(IntegerTy::U64, 9), ScalarValue::U64(9));
    assert_eq!(ScalarValue::from_bits(IntegerTy::Isize, 5), ScalarValue::Isize(5));
}

#[test]
fn builtin_functions_are_recognized() {
    assert_eq!(recognize_builtin_fun(&fun(&["std", "mem", "swap"])), None);
    assert_eq!(recognize_builtin_fun(&fun(&["core", "panicking", "assert_failed"])), Some(BuiltinFun::Panic));
    assert_eq!(recognize_builtin_fun(&fun(&["core", "panicking", "panic_explicit"])), Some(BuiltinFun::Panic));
    assert_eq!(recognize_builtin_fun(&fun(&["core", "panicking"])), None);
    assert_eq!(recognize_builtin_fun(&fun(&["core", "panicking", "assert_failed", "x"])), None);
    for item in ["panic", "panic_fmt", "begin_panic"] {
        let mut f = fun(&["a"]);
        f.lang_item = Some(item.to_string());
        assert_eq!(recognize_builtin_fun(&f), Some(BuiltinFun::Panic));
    }
    let mut f = fun(&["a"]);
    f.lang_item = Some("panic_nounwind".to_string());
    assert_eq!(recognize_builtin_fun(&f), None);
    f.diagnostic_item = Some("box_new".to_string());
    assert_eq!(recognize_builtin_fun(&f), Some(BuiltinFun::BoxNew));
    // the name in the diagnostics is looked at first
    f.lang_item = Some("panic".to_string());
    assert_eq!(recognize_builtin_fun(&f), Some(BuiltinFun::BoxNew));
}

#[test]
fn callees_are_lowered() {
    let s = setting();
    let args = vec![copy(1)];
    match translate_fun_decl_id_with_args(&fun(&["core", "panicking", "assert_failed"]), Some(&args), s) {
        Ok(SubstFunIdOrPanic::Panic(name)) => assert_eq!(name, "core::panicking::assert_failed"),
        other => panic!("{:?}", other),
    }
    match translate_fun_decl_id_with_args(&fun(&["f"]), Some(&args), s) {
        Ok(SubstFunIdOrPanic::Fun(func, Some(args))) => {
            assert_eq!(func, FunIdOrTraitMethodRef::Fun(FunId::Regular(FunDeclId { index: 3 })));
            assert_eq!(args, vec![Operand::Copy(place(1))]);
        }
        other => panic!("{:?}", other),
    }
    match translate_fun_decl_id_with_args(&fun(&["f"]), None, s) {
        Ok(SubstFunIdOrPanic::Fun(_, None)) => {}
        other => panic!("{:?}", other),
    }
    let mut method = fun(&["T", "m"]);
    method.trait_info = Some((TraitImplId { index: 5 }, "m".to_string()));
    match translate_fun_decl_id_with_args(&method, None, s) {
        Ok(SubstFunIdOrPanic::Fun(func, None)) => {
            assert_eq!(func, FunIdOrTraitMethodRef::Trait(TraitImplId { index: 5 }, "m".to_string(), FunDeclId { index: 3 }));
        }
        other => panic!("{:?}", other),
    }
    let mut boxed = fun(&["alloc", "boxed", "Box", "new"]);
    boxed.diagnostic_item = Some("box_new".to_string());
    match translate_fun_decl_id_with_args(&boxed, None, s) {
        Ok(SubstFunIdOrPanic::Fun(func, None)) => {
            assert_eq!(func, FunIdOrTraitMethodRef::mk_assumed(BuiltinFunId::BoxNew));
            assert_eq!(func, FunIdOrTraitMethodRef::Fun(FunId::Builtin(BuiltinFunId::BoxNew)));
        }
        other => panic!("{:?}", other),
    }
    boxed.trait_info = Some((TraitImplId { index: 5 }, "new".to_string()));
    assert!(!boxed.check_admitted());
    let bad = vec![MirOperand::Copy(stepped(1, vec![step(Ty::Other, MirProjectionElem::OpaqueCast)], Ty::Bool))];
    assert!(matches!(
        translate_fun_decl_id_with_args(&fun(&["f"]), Some(&bad), s),
        Err(LowerError::OpaqueCast)
    ));
    // the arguments of a function that panics are not looked at
    assert!(matches!(
        translate_fun_decl_id_with_args(&fun(&["core", "panicking", "panic_explicit"]), Some(&bad), s),
        Ok(SubstFunIdOrPanic::Panic(_))
    ));
}

#[test]
fn terminators_are_lowered() {
    let s = setting();
    let names = vec![Some(0), None, Some(1), Some(2)];
    let mut stmts = Vec::new();
    let t = translate_terminator(&names, &term(MirTerminatorKind::Goto { target: 2 }), &mut stmts, s);
    assert!(matches!(t, Ok(Terminator::Goto { target: 1 })) && stmts.is_empty());
    let t = translate_terminator(&names, &term(MirTerminatorKind::Return), &mut stmts, s);
    assert!(matches!(t, Ok(Terminator::Return)) && stmts.is_empty());
    let t = translate_terminator(&names, &term(MirTerminatorKind::Unreachable), &mut stmts, s);
    assert!(matches!(t, Ok(Terminator::Abort(AbortKind::UndefinedBehavior))));
    let t = translate_terminator(
        &names,
        &term(MirTerminatorKind::FalseEdge { real_target: 3, imaginary_target: 1 }),
        &mut stmts,
        s,
    );
    assert!(matches!(t, Ok(Terminator::Goto { target: 2 })));
    let t = translate_terminator(&names, &term(MirTerminatorKind::FalseUnwind { real_target: 0 }), &mut stmts, s);
    assert!(matches!(t, Ok(Terminator::Goto { target: 0 })) && stmts.is_empty());
    let t = translate_terminator(&names, &term(MirTerminatorKind::Drop { place: local(2), target: 3 }), &mut stmts, s);
    assert!(matches!(t, Ok(Terminator::Goto { target: 2 })));
    assert_eq!(stmts, vec![Statement::new(span(4), RawStatement::Drop(place(2)))]);
    let t = translate_terminator(
        &names,
        &term(MirTerminatorKind::Assert { cond: copy(1), expected: false, target: 0 }),
        &mut stmts,
        s,
    );
    assert!(matches!(t, Ok(Terminator::Goto { target: 0 })));
    assert_eq!(
        stmts[1],
        Statement::new(span(4), RawStatement::Assert(Assert { cond: Operand::Copy(place(1)), expected: false }))
    );
    for (kind, e) in [
        (MirTerminatorKind::UnwindResume, LowerError::UnwindResume),
        (MirTerminatorKind::UnwindTerminate, LowerError::UnwindTerminate),
        (MirTerminatorKind::InlineAsm, LowerError::InlineAsm),
        (MirTerminatorKind::CoroutineDrop, LowerError::CoroutineDrop),
        (MirTerminatorKind::TailCall, LowerError::TailCall),
        (MirTerminatorKind::Yield, LowerError::Yield),
    ] {
        assert_eq!(translate_terminator(&names, &term(kind), &mut stmts, s).unwrap_err(), e);
    }
    assert_eq!(stmts.len(), 2);
}

#[test]
fn calls_are_lowered() {
    let s = setting();
    let names = vec![Some(0), Some(1)];
    let mut stmts = vec![Statement::new(span(1), RawStatement::Deinit(place(0)))];
    let call = term(MirTerminatorKind::Call {
        fun: MirFunOperand::Id(fun(&["f"])),
        args: vec![copy(1), MirOperand::Constant(Constant::Bool(true), Ty::Bool)],
        destination: local(2),
        target: Some(1),
    });
    assert!(call.kind.check_admitted(s));
    let t = translate_terminator(&names, &call, &mut stmts, s);
    assert!(matches!(t, Ok(Terminator::Goto { target: 1 })));
    assert_eq!(stmts.len(), 2);
    assert_eq!(
        stmts[1],
        Statement::new(
            span(4),
            RawStatement::Call(Call {
                func: FnOperand::Regular(FunIdOrTraitMethodRef::Fun(FunId::Regular(FunDeclId { index: 3 }))),
                trait_and_method_generic_args: None,
                args: vec![Operand::Copy(place(1)), Operand::Const(Constant::Bool(true))],
                dest: place(2),
            })
        )
    );
    let diverges = term(MirTerminatorKind::Call {
        fun: MirFunOperand::Move(local(1)),
        args: vec![],
        destination: local(0),
        target: None,
    });
    let t = translate_terminator(&names, &diverges, &mut stmts, s);
    assert!(matches!(t, Ok(Terminator::Abort(AbortKind::UndefinedBehavior))));
    assert_eq!(
        *stmts[2].content,
        RawStatement::Call(Call {
            func: FnOperand::Move(place(1)),
            trait_and_method_generic_args: None,
            args: vec![],
            dest: place(0),
        })
    );
    let panics = term(MirTerminatorKind::Call {
        fun: MirFunOperand::Id(fun(&["core", "panicking", "panic_explicit"])),
        args: vec![copy(1)],
        destination: local(0),
        target: None,
    });
    assert!(panics.kind.check_admitted(s));
    match translate_terminator(&names, &panics, &mut stmts, s) {
        Ok(Terminator::Abort(AbortKind::Panic(name))) => assert_eq!(name, "core::panicking::panic_explicit"),
        other => panic!("{:?}", other),
    }
    assert_eq!(stmts.len(), 3);
    let panic_with_target = MirTerminatorKind::Call {
        fun: MirFunOperand::Id(fun(&["core", "panicking", "panic_explicit"])),
        args: vec![],
        destination: local(0),
        target: Some(0),
    };
    assert!(!panic_with_target.check_admitted(s));
    // the place that takes the result is looked at first
    let bad = || stepped(1, vec![step(Ty::Other, MirProjectionElem::OpaqueCast)], Ty::Bool);
    let field = stepped(
        1,
        vec![step(Ty::Bool, MirProjectionElem::Field(MirFieldKind::Adt { variant: None, index: 0 }))],
        Ty::Bool,
    );
    let call = term(MirTerminatorKind::Call {
        fun: MirFunOperand::Move(bad()),
        args: vec![],
        destination: field,
        target: None,
    });
    assert_eq!(translate_terminator(&names, &call, &mut stmts, s).unwrap_err(), LowerError::UnexpectedField);
    assert_eq!(stmts.len(), 3);
}

#[test]
fn switches_are_lowered() {
    let s = setting();
    let names = vec![Some(0), Some(2), Some(1)];
    let mut stmts = Vec::new();
    let two_way = term(MirTerminatorKind::SwitchInt {
        discr: MirOperand::Move(local(1)),
        targets: MirSwitchTargets::If(2, 1),
    });
    match translate_terminator(&names, &two_way, &mut stmts, s) {
        Ok(Terminator::Switch { discr, targets: SwitchTargets::If(a, b) }) => {
            assert_eq!(discr, Operand::Move(place(1)));
            assert_eq!((a, b), (1, 2));
        }
        other => panic!("{:?}", other),
    }
    let many = term(MirTerminatorKind::SwitchInt {
        discr: copy(1),
        targets: MirSwitchTargets::SwitchInt(IntegerTy::I8, vec![(0, 1), (255, 2)], 0),
    });
    match translate_terminator(&names, &many, &mut stmts, s) {
        Ok(Terminator::Switch { targets: SwitchTargets::SwitchInt(ty, arms, otherwise), .. }) => {
            assert_eq!(ty, IntegerTy::I8);
            assert_eq!(arms, vec![(ScalarValue::I8(0), 2), (ScalarValue::I8(-1), 1)]);
            assert_eq!(otherwise, 0);
        }
        other => panic!("{:?}", other),
    }
}

#[test]
fn blocks_are_lowered() {
    let s = setting();
    let names = vec![Some(0), Some(1)];
    let b = block(
        vec![MirStatementKind::StorageLive(1), MirStatementKind::StorageDead(1), MirStatementKind::Nop],
        MirTerminatorKind::Drop { place: local(2), target: 1 },
    );
    let out = translate_basic_block(&names, &b, s).unwrap();
    assert_eq!(
        out.statements,
        vec![
            Statement::new(span(3), RawStatement::StorageDead(VarId { index: 1 })),
            Statement::new(span(4), RawStatement::Drop(place(2)))
        ]
    );
    assert!(matches!(out.terminator, Terminator::Goto { target: 1 }));
    // the terminator stands where it stood
    assert_eq!(out.terminator_span, span(4));
    let bad = block(
        vec![MirStatementKind::Nop, MirStatementKind::CopyNonOverlapping],
        MirTerminatorKind::InlineAsm,
    );
    assert_eq!(translate_basic_block(&names, &bad, s).unwrap_err(), LowerError::CopyNonOverlapping);
}

#[test]
fn blocks_get_names_in_the_order_met() {
    // 0 -> {3, 1}; 3 -> 1; 1 -> return; 2 is never met; 4 is met through no edge
    let mir = body(vec![
        block(vec![], MirTerminatorKind::SwitchInt { discr: copy(1), targets: MirSwitchTargets::If(3, 1) }),
        block(vec![MirStatementKind::StorageDead(1)], MirTerminatorKind::Return),
        block(vec![], MirTerminatorKind::InlineAsm),
        block(vec![MirStatementKind::StorageDead(3)], MirTerminatorKind::Goto { target: 1 }),
        block(vec![], MirTerminatorKind::Goto { target: 2 }),
    ]);
    assert!(mir.check_well_formed(MirLevel::Built));
    let g = translate_transparent_expression_body(&mir, MirLevel::Built).unwrap();
    assert_eq!(g.entry, 0);
    assert_eq!(g.blocks.len(), 3);
    assert!(matches!(
        g.blocks[0].terminator,
        Terminator::Switch { targets: SwitchTargets::If(1, 2), .. }
    ));
    assert_eq!(*g.blocks[1].statements[0].content, RawStatement::StorageDead(VarId { index: 3 }));
    assert!(matches!(g.blocks[1].terminator, Terminator::Goto { target: 2 }));
    assert_eq!(*g.blocks[2].statements[0].content, RawStatement::StorageDead(VarId { index: 1 }));
    assert!(matches!(g.blocks[2].terminator, Terminator::Return));
}

#[test]
fn first_error_in_the_order_of_names_wins() {
    // 0 -> {2, 1}; 2 cannot be lowered, nor can 1, and 2 is met first
    let mir = body(vec![
        block(vec![], MirTerminatorKind::SwitchInt { discr: copy(1), targets: MirSwitchTargets::If(2, 1) }),
        block(vec![], MirTerminatorKind::Yield),
        block(vec![], MirTerminatorKind::TailCall),
    ]);
    assert_eq!(
        translate_transparent_expression_body(&mir, MirLevel::Built).unwrap_err(),
        LowerError::TailCall
    );
    // a block that control cannot come to does no harm
    let mir = body(vec![
        block(vec![], MirTerminatorKind::Return),
        block(vec![MirStatementKind::CopyNonOverlapping], MirTerminatorKind::Yield),
    ]);
    assert!(translate_transparent_expression_body(&mir, MirLevel::Built).is_ok());
}

#[test]
fn malformed_bodies_are_told_apart() {
    let l = MirLevel::Built;
    assert!(!body(vec![]).check_well_formed(l));
    assert!(!body(vec![MirBlock { statements: vec![], terminator: None }]).check_well_formed(l));
    assert!(!body(vec![block(vec![], MirTerminatorKind::Goto { target: 1 })]).check_well_formed(l));
    assert!(!body(vec![block(vec![MirStatementKind::StorageDead(4)], MirTerminatorKind::Return)]).check_well_formed(l));
    assert!(!body(vec![block(vec![], MirTerminatorKind::Drop { place: local(9), target: 0 })]).check_well_formed(l));
    let call_with_bad_arg = MirTerminatorKind::Call {
        fun: MirFunOperand::Id(fun(&["f"])),
        args: vec![copy(4)],
        destination: local(0),
        target: None,
    };
    assert!(!body(vec![block(vec![], call_with_bad_arg)]).check_well_formed(l));
    // the target of a false edge that is not real may be any number
    assert!(body(vec![block(vec![], MirTerminatorKind::FalseEdge { real_target: 0, imaginary_target: 77 })])
        .check_well_formed(l));
    // a box is stepped into only where boxes are kept
    let through_box = MirStatementKind::FakeRead(stepped(1, vec![step(Ty::Boxed, MirProjectionElem::Deref)], Ty::Bool));
    assert!(body(vec![block(vec![through_box], MirTerminatorKind::Return)]).check_well_formed(MirLevel::Promoted));
    let through_box = MirStatementKind::FakeRead(stepped(1, vec![step(Ty::Boxed, MirProjectionElem::Deref)], Ty::Bool));
    assert!(!body(vec![block(vec![through_box], MirTerminatorKind::Return)]).check_well_formed(MirLevel::Optimized));
}

#[test]
fn locals_keep_names_and_types() {
    let vars = translate_body_locals(&locals(3));
    assert_eq!(vars.len(), 3);
    assert_eq!(vars[1].index, VarId { index: 1 });
    assert_eq!(vars[1].name.as_deref(), Some("x"));
    assert!(vars[2].name.is_none());
    assert_eq!(vars[2].ty, Ty::Bool);
}

#[test]
fn prefixes_are_stripped() {
    assert_eq!(strip_slashes("// a"), Some(" a"));
    assert_eq!(strip_slashes("//"), Some(""));
    assert_eq!(strip_slashes("/// doc"), Some("/ doc"));
    assert_eq!(strip_slashes("/ a"), None);
    assert_eq!(strip_slashes(""), None);
    assert_eq!(strip_slashes(" //"), None);
    assert_eq!(strip_blank(" a"), "a");
    assert_eq!(strip_blank("  a"), " a");
    assert_eq!(strip_blank("a "), "a ");
    assert_eq!(strip_blank(""), "");
}

#[test]
fn lines_are_told_apart() {
    let lines: Vec<String> =
        ["let x = 1;", "  // a note", "\t//! b", "/ not", "//"].iter().map(|s| s.to_string()).collect();
    assert_eq!(
        line_notes(&lines),
        vec![None, Some("a note".to_string()), Some("! b".to_string()), None, Some("".to_string())]
    );
}

#[test]
fn comments_go_to_the_line_below() {
    let notes = vec![
        Some("one".to_string()),
        Some("two".to_string()),
        None,
        None,
        Some("three".to_string()),
        None,
        Some("last".to_string()),
        Some("line".to_string()),
    ];
    // the last line has the number 20, so the first has the number 13
    assert_eq!(
        gather_comments(&notes, 20),
        vec![
            (15, vec!["one".to_string(), "two".to_string()]),
            (18, vec!["three".to_string()]),
            (20, vec!["last".to_string()]),
        ]
    );
    assert_eq!(gather_comments(&vec![], 3), vec![]);
    assert_eq!(gather_comments(&vec![None, None], 1), vec![]);
    assert_eq!(gather_comments(&vec![Some("a".to_string())], 0), vec![]);
    assert_eq!(
        gather_comments(&vec![Some("a".to_string()), Some("b".to_string())], 1),
        vec![(1, vec!["a".to_string()])]
    );
}

#[test]
fn comments_of_a_body() {
    let text = "{\n    // set up\n    //  twice\n    let x = 1;\n    x // not a comment line\n    // the end\n}".to_string();
    assert_eq!(
        gather_body_comments(&Some(text.clone()), 30),
        Some(vec![
            (27, vec!["set up".to_string(), " twice".to_string()]),
            (30, vec!["the end".to_string()]),
        ])
    );
    assert_eq!(gather_body_comments(&Some(text.clone()), 6), Some(vec![
        (3, vec!["set up".to_string(), " twice".to_string()]),
        (6, vec!["the end".to_string()]),
    ]));
    assert_eq!(gather_body_comments(&Some(text), 5), None);
    assert_eq!(gather_body_comments(&None, 0), Some(vec![]));
    assert_eq!(gather_body_comments(&Some(String::new()), 0), Some(vec![]));
    assert_eq!(gather_body_comments(&Some("a\r\n// b\r\nc".to_string()), 2), Some(vec![(2, vec!["b".to_string()])]));
}

#[test]
fn item_kinds() {
    assert!(matches!(get_item_kind(&None), ItemKind::Regular));
    let inherent = MirAssocItem { name: "new".to_string(), has_value: true, container: MirContainer::InherentImpl };
    assert!(matches!(get_item_kind(&Some(inherent)), ItemKind::Regular));
    let implemented = MirAssocItem {
        name: "baz".to_string(),
        has_value: true,
        container: MirContainer::TraitImpl {
            impl_id: TraitImplId { index: 1 },
            implemented_trait: TraitDeclId { index: 2 },
            overrides_default: true,
        },
    };
    match get_item_kind(&Some(implemented)) {
        ItemKind::TraitImpl { impl_id, trait_id, item_name, reuses_default } => {
            assert_eq!(impl_id, TraitImplId { index: 1 });
            assert_eq!(trait_id, TraitDeclId { index: 2 });
            assert_eq!(item_name, "baz");
            assert!(!reuses_default);
        }
        other => panic!("{:?}", other),
    }
    let declared = MirAssocItem {
        name: "baz".to_string(),
        has_value: false,
        container: MirContainer::Trait { trait_id: TraitDeclId { index: 5 } },
    };
    match get_item_kind(&Some(declared)) {
        ItemKind::TraitDecl { trait_id, item_name, has_default } => {
            assert_eq!(trait_id, TraitDeclId { index: 5 });
            assert_eq!(item_name, "baz");
            assert!(!has_default);
        }
        other => panic!("{:?}", other),
    }
}

fn looping_body() -> MirBody {
    // 0: switch {2, 1}; 2: assert, then back to 0; 1: call, then return at 3
    let mut mir = body(vec![
        block(vec![], MirTerminatorKind::SwitchInt { discr: copy(1), targets: MirSwitchTargets::If(2, 1) }),
        block(
            vec![],
            MirTerminatorKind::Call {
                fun: MirFunOperand::Id(fun(&["f"])),
                args: vec![copy(1), copy(2)],
                destination: local(0),
                target: Some(3),
            },
        ),
        block(
            vec![MirStatementKind::StorageDead(2)],
            MirTerminatorKind::Assert { cond: copy(1), expected: true, target: 0 },
        ),
        block(vec![], MirTerminatorKind::Return),
    ]);
    mir.source_text = Some("{\n// loop\nloop {}\n}".to_string());
    mir
}

#[test]
fn bodies_are_lowered_and_structured() {
    let d = def(looping_body());
    assert!(d.check_well_formed(MirLevel::Built));
    let lowered = translate_body(&d, 1, MirLevel::Built).unwrap().unwrap();
    assert_eq!(lowered.arg_count, 1);
    assert_eq!(lowered.locals.len(), 4);
    assert_eq!(lowered.comments, vec![(9, vec!["loop".to_string()])]);
    assert_eq!(lowered.body.blocks.len(), 4);
    let structured = structure_shaped(lowered).unwrap();
    assert_eq!(
        show(&structured.body),
        "[loop([if([dead2 asserttrue continue0],[break0])]) call2 return]"
    );
    assert_eq!(structured.comments, vec![(9, vec!["loop".to_string()])]);
}

#[test]
fn statements_are_shared_between_graph_and_tree() {
    let d = def(looping_body());
    let lowered = translate_body(&d, 1, MirLevel::Built).unwrap().unwrap();
    let in_graph = lowered.body.blocks[1].statements[0].content.clone();
    let structured = structure_shaped(lowered).unwrap();
    let mut found = false;
    fn walk(t: &Tree, p: &Arc<RawStatement>, found: &mut bool) {
        match t {
            Tree::Leaf(s) => *found |= Arc::ptr_eq(&s.content, p),
            Tree::Sequence(items) => items.iter().for_each(|i| walk(i, p, found)),
            Tree::If(_, a, b) => {
                walk(a, p, found);
                walk(b, p, found);
            }
            Tree::Loop(b) => walk(b, p, found),
            _ => {}
        }
    }
    walk(&structured.body, &in_graph, &mut found);
    assert!(found);
}

#[test]
fn opaque_and_missing_bodies_are_left_out() {
    let mut d = def(looping_body());
    d.opaque = true;
    assert!(matches!(translate_body(&d, 0, MirLevel::Built), Ok(None)));
    let none = MirDef { kind: MirDefKind::Other, assoc_item: None, opaque: false, body: None };
    assert!(none.check_well_formed(MirLevel::Built));
    assert!(matches!(translate_body(&none, 0, MirLevel::Built), Ok(None)));
}

#[test]
fn text_that_does_not_fit_the_span_is_refused() {
    let mut mir = looping_body();
    mir.span = span(2);
    assert_eq!(translate_body(&def(mir), 0, MirLevel::Built).unwrap_err(), LowerError::SourceSpan);
}

fn meta() -> ItemMeta {
    ItemMeta { name: "f".to_string(), span: span(10), is_local: true }
}

fn sig(n: usize) -> MirSig {
    MirSig { inputs: vec![Ty::Bool; n], output: Ty::Unit, is_unsafe: false }
}

fn ctx() -> BodyTransCtx {
    BodyTransCtx { mir_level: MirLevel::Built }
}

fn no_generics() -> GenericParams {
    GenericParams { regions: 0, types: 0, const_generics: 0 }
}

fn constant(mut d: MirDef) -> MirDef {
    d.kind = MirDefKind::Const { ty: Ty::Bool };
    d
}

#[test]
fn functions_are_lowered_and_structured() {
    let mut d = def(looping_body());
    d.kind = MirDefKind::Fn { sig: sig(2) };
    let (decl, error) =
        ctx().translate_function(FunDeclId { index: 7 }, meta(), "f".to_string(), no_generics(), &d)
            .unwrap();
    assert!(error.is_none());
    assert_eq!(decl.def_id, FunDeclId { index: 7 });
    assert!(matches!(decl.kind, ItemKind::Regular));
    assert_eq!(decl.body.as_ref().unwrap().arg_count, 2);
    let (structured, error) = charon::translate::translate_function(decl);
    assert!(error.is_none());
    assert_eq!(structured.name, "f");
    assert!(matches!(structured.body.unwrap().body, Tree::Sequence(_)));
}

#[test]
fn trait_method_declarations_without_default_have_no_body() {
    let mut d = def(looping_body());
    d.assoc_item = Some(MirAssocItem {
        name: "m".to_string(),
        has_value: false,
        container: MirContainer::Trait { trait_id: TraitDeclId { index: 1 } },
    });
    let (decl, error) =
        ctx().translate_function(FunDeclId { index: 0 }, meta(), "m".to_string(), no_generics(), &d)
            .unwrap();
    assert!(decl.body.is_none() && error.is_none());
    d.assoc_item.as_mut().unwrap().has_value = true;
    let (decl, error) =
        ctx().translate_function(FunDeclId { index: 0 }, meta(), "m".to_string(), no_generics(), &d)
            .unwrap();
    assert!(decl.body.is_some() && error.is_none());
}

#[test]
fn failures_leave_the_declaration_without_body() {
    let bad = def(body(vec![block(vec![], MirTerminatorKind::InlineAsm)]));
    let (decl, error) =
        ctx().translate_function(FunDeclId { index: 0 }, meta(), "f".to_string(), no_generics(), &bad)
            .unwrap();
    assert!(decl.body.is_none());
    assert_eq!(error, Some(LowerError::InlineAsm));
    let bad = constant(bad);
    let (global, error) =
        ctx().translate_global(GlobalDeclId { index: 1 }, meta(), "g".to_string(), no_generics(), &bad);
    assert_eq!(global.ty, Ty::Bool);
    assert!(global.body.is_none());
    assert_eq!(error, Some(LowerError::InlineAsm));
    // an irreducible body is lowered, and fails to be structured
    let irreducible = constant(def(body(vec![
        block(vec![], MirTerminatorKind::SwitchInt { discr: copy(1), targets: MirSwitchTargets::If(1, 2) }),
        block(vec![], MirTerminatorKind::Goto { target: 2 }),
        block(vec![], MirTerminatorKind::Goto { target: 1 }),
    ])));
    let (global, error) = ctx().translate_global(
        GlobalDeclId { index: 1 },
        meta(),
        "g".to_string(),
        no_generics(),
        &irreducible,
    );
    assert!(error.is_none());
    assert_eq!(global.body.as_ref().unwrap().arg_count, 0);
    let (structured, error) = charon::translate::translate_global(global);
    assert!(structured.body.is_none());
    assert!(matches!(error, Some(StructureError::Irreducible(blocks)) if blocks == vec![1, 2]));
}

#[test]
fn signatures_follow_the_kind_of_the_definition() {
    let generics = GenericParams { regions: 1, types: 2, const_generics: 3 };
    let given = || MirSig { inputs: vec![Ty::Bool, Ty::Char], output: Ty::Str, is_unsafe: true };
    let mut d = def(looping_body());
    d.kind = MirDefKind::Fn { sig: given() };
    let s = translate_function_signature(generics, &d).unwrap();
    assert_eq!(s.generics, generics);
    assert_eq!(s.inputs, vec![Ty::Bool, Ty::Char]);
    assert_eq!(s.output, Ty::Str);
    assert!(s.is_unsafe && !s.is_closure);
    assert!(s.closure_info.is_none() && s.parent_params_info.is_none());

    d.kind = MirDefKind::Closure { sig: given(), kind: ClosureKind::FnMut, upvar_tys: vec![Ty::Slice] };
    let s = translate_function_signature(generics, &d).unwrap();
    assert!(s.is_closure);
    let info = s.closure_info.unwrap();
    assert_eq!(info.kind, ClosureKind::FnMut);
    assert_eq!(info.state, vec![Ty::Slice]);
    assert!(s.parent_params_info.is_none());

    let parent = ParamsInfo {
        num_region_params: 1,
        num_type_params: 2,
        num_const_generic_params: 3,
        num_trait_clauses: 4,
    };
    d.kind = MirDefKind::AssocFn { sig: given(), parent };
    d.assoc_item = Some(MirAssocItem {
        name: "m".to_string(),
        has_value: true,
        container: MirContainer::InherentImpl,
    });
    let s = translate_function_signature(generics, &d).unwrap();
    assert_eq!(s.parent_params_info, Some(parent));
    assert!(!s.is_closure && s.closure_info.is_none());
    // in a trait the clauses of the block are not the method's own
    d.assoc_item.as_mut().unwrap().container = MirContainer::Trait { trait_id: TraitDeclId { index: 0 } };
    let s = translate_function_signature(generics, &d).unwrap();
    assert_eq!(s.parent_params_info, Some(ParamsInfo { num_trait_clauses: 0, ..parent }));
}

#[test]
fn constructors_have_no_signature() {
    let mut d = def(looping_body());
    d.kind = MirDefKind::Ctor;
    assert_eq!(
        translate_function_signature(no_generics(), &d).unwrap_err(),
        LowerError::Constructor
    );
    let r = ctx().translate_function(FunDeclId { index: 0 }, meta(), "c".to_string(), no_generics(), &d);
    assert_eq!(r.unwrap_err(), LowerError::Constructor);
    assert_eq!(
        LowerError::Constructor.message(),
        "Casting constructors to function pointers is not supported"
    );
}

#[test]
fn block_without_terminator_is_refused() {
    let names = vec![Some(0)];
    let bare = MirBlock { statements: vec![], terminator: None };
    assert_eq!(translate_basic_block(&names, &bare, setting()).unwrap_err(), LowerError::Panic);
    // a target without a name
    let away = block(vec![], MirTerminatorKind::Goto { target: 0 });
    assert_eq!(translate_basic_block(&vec![None], &away, setting()).unwrap_err(), LowerError::Panic);
    assert!(translate_basic_block(&names, &away, setting()).is_ok());
    assert_eq!(LowerError::Panic.message(), "Thread panicked when extracting body.");
}

#[test]
fn malformed_bodies_are_errors() {
    let l = MirLevel::Built;
    assert_eq!(translate_body(&def(body(vec![])), 0, l).unwrap_err(), LowerError::Panic);
    let bare = MirBlock { statements: vec![], terminator: None };
    assert_eq!(translate_body(&def(body(vec![bare])), 0, l).unwrap_err(), LowerError::Panic);
    let dangling = body(vec![block(vec![], MirTerminatorKind::Goto { target: 7 })]);
    assert_eq!(translate_body(&def(dangling), 0, l).unwrap_err(), LowerError::Panic);
    let bad_local = body(vec![block(vec![MirStatementKind::StorageDead(99)], MirTerminatorKind::Return)]);
    assert_eq!(translate_body(&def(bad_local), 0, l).unwrap_err(), LowerError::Panic);
    // the first block in the order of the names decides
    let mixed = body(vec![
        block(vec![], MirTerminatorKind::Goto { target: 1 }),
        block(vec![], MirTerminatorKind::InlineAsm),
        MirBlock { statements: vec![], terminator: None },
    ]);
    assert_eq!(translate_body(&def(mixed), 0, l).unwrap_err(), LowerError::InlineAsm);
}

#[test]
fn blocks_that_control_never_comes_to_are_not_looked_at() {
    let l = MirLevel::Built;
    let mir = body(vec![
        block(vec![], MirTerminatorKind::Return),
        MirBlock { statements: vec![], terminator: None },
        block(vec![], MirTerminatorKind::Goto { target: 9 }),
    ]);
    assert!(!mir.check_well_formed(l));
    let out = translate_body(&def(mir), 0, l).unwrap().unwrap();
    assert_eq!(out.body.blocks.len(), 1);
    // the functions that rest on it take such a body too
    let d = def(body(vec![MirBlock { statements: vec![], terminator: None }]));
    let (decl, error) = ctx()
        .translate_function(FunDeclId { index: 0 }, meta(), "f".to_string(), no_generics(), &d)
        .unwrap();
    assert!(decl.body.is_none());
    assert_eq!(error, Some(LowerError::Panic));
}
