use charon::formatter::{
    symbolic_id_to_pretty_string, value_id_to_pretty_string, var_id_to_pretty_string, BorrowId,
    BorrowIdFormatWrapper, DummyFormatter, Formatter, SymbolicId, ValueId,
};
use charon::symbolic::{
    AssumedValue, BorrowContent, GAdtValue, GTypedValue, GValue, LoanContent, Region,
    SymbolicValue,
};
use charon::types::{Ty, TypeDefId, TypeVarId};
use charon::ullbc::{VarId, VariantId};
use charon::values::{ConstantValue, IntegerTy, ScalarValue};

type Value = GValue<ValueId, SymbolicId>;
type TypedValue = GTypedValue<Ty, Value>;

struct Ctx;

impl Formatter<ValueId> for Ctx {
    fn format_object(&self, x: ValueId) -> String {
        format!("v{}", x.index)
    }
}

impl Formatter<&SymbolicId> for Ctx {
    fn format_object(&self, x: &SymbolicId) -> String {
        format!("s{}", x.index)
    }
}

impl Formatter<BorrowIdFormatWrapper> for Ctx {
    fn format_object(&self, x: BorrowIdFormatWrapper) -> String {
        x.to_string()
    }
}

impl Formatter<TypeDefId> for Ctx {
    fn format_object(&self, x: TypeDefId) -> String {
        format!("Adt{}", x.index)
    }
}

impl Formatter<TypeVarId> for Ctx {
    fn format_object(&self, x: TypeVarId) -> String {
        format!("T{}", x.index)
    }
}

impl Formatter<(TypeDefId, VariantId)> for Ctx {
    fn format_object(&self, x: (TypeDefId, VariantId)) -> String {
        format!("Adt{}::V{}", x.0.index, x.1.index)
    }
}

#[test]
fn scalar_kinds() {
    assert_eq!(ScalarValue::I8(-3).get_integer_ty(), IntegerTy::I8);
    assert_eq!(ScalarValue::U128(3).get_integer_ty(), IntegerTy::U128);
    assert_eq!(ScalarValue::Isize(0).get_integer_ty(), IntegerTy::Isize);
    assert!(ScalarValue::I64(1).is_int());
    assert!(!ScalarValue::I64(1).is_uint());
    assert!(ScalarValue::Usize(1).is_uint());
    assert!(!ScalarValue::Usize(1).is_int());
}

#[test]
fn scalar_widening() {
    assert_eq!(ScalarValue::U16(65535).as_uint(), Ok(65535));
    assert_eq!(ScalarValue::I16(-7).as_uint(), Err(()));
    assert_eq!(ScalarValue::I16(-7).as_int(), Ok(-7));
    assert_eq!(ScalarValue::U16(7).as_int(), Err(()));
    assert_eq!(ScalarValue::I128(i128::MIN).as_int(), Ok(i128::MIN));
    assert_eq!(ScalarValue::U128(u128::MAX).as_uint(), Ok(u128::MAX));
}

#[test]
fn unsigned_bounds() {
    assert!(ScalarValue::uint_is_in_bounds(IntegerTy::U8, 255));
    assert!(!ScalarValue::uint_is_in_bounds(IntegerTy::U8, 256));
    assert!(ScalarValue::uint_is_in_bounds(IntegerTy::U32, u32::MAX as u128));
    assert!(!ScalarValue::uint_is_in_bounds(IntegerTy::U32, u32::MAX as u128 + 1));
    assert!(ScalarValue::uint_is_in_bounds(IntegerTy::U128, u128::MAX));
    assert!(ScalarValue::uint_is_in_bounds(IntegerTy::Usize, usize::MAX as u128));
    assert!(!ScalarValue::uint_is_in_bounds(IntegerTy::I32, 1));
}

#[test]
fn signed_bounds() {
    assert!(ScalarValue::int_is_in_bounds(IntegerTy::I8, -128));
    assert!(!ScalarValue::int_is_in_bounds(IntegerTy::I8, -129));
    assert!(ScalarValue::int_is_in_bounds(IntegerTy::I8, 127));
    assert!(!ScalarValue::int_is_in_bounds(IntegerTy::I8, 128));
    assert!(ScalarValue::int_is_in_bounds(IntegerTy::I128, i128::MIN));
    assert!(ScalarValue::int_is_in_bounds(IntegerTy::Isize, isize::MIN as i128));
    assert!(!ScalarValue::int_is_in_bounds(IntegerTy::U8, 1));
}

#[test]
fn scalars_from_integers() {
    assert_eq!(ScalarValue::from_uint(IntegerTy::U8, 200), Ok(ScalarValue::U8(200)));
    assert_eq!(ScalarValue::from_uint(IntegerTy::U8, 256), Err(()));
    assert_eq!(ScalarValue::from_uint(IntegerTy::I8, 1), Err(()));
    assert_eq!(ScalarValue::from_int(IntegerTy::I16, -300), Ok(ScalarValue::I16(-300)));
    assert_eq!(ScalarValue::from_int(IntegerTy::I8, -300), Err(()));
    assert_eq!(ScalarValue::from_int(IntegerTy::U8, 1), Err(()));
    assert_eq!(ScalarValue::from_unchecked_uint(IntegerTy::U8, 257), ScalarValue::U8(1));
    assert_eq!(ScalarValue::from_unchecked_uint(IntegerTy::U64, 5), ScalarValue::U64(5));
    assert_eq!(ScalarValue::from_unchecked_int(IntegerTy::I8, 129), ScalarValue::I8(-127));
    assert_eq!(ScalarValue::from_unchecked_int(IntegerTy::I32, -5), ScalarValue::I32(-5));
}

#[test]
fn scalar_text() {
    assert_eq!(ScalarValue::I8(-3).to_string(), "-3 : i8");
    assert_eq!(ScalarValue::U64(0).to_string(), "0 : u64");
    assert_eq!(ScalarValue::Usize(120).to_string(), "120 : usize");
    assert_eq!(
        ScalarValue::I128(i128::MIN).to_string(),
        "-170141183460469231731687303715884105728 : i128"
    );
    assert_eq!(
        ScalarValue::U128(u128::MAX).to_string(),
        "340282366920938463463374607431768211455 : u128"
    );
}

#[test]
fn constant_text() {
    assert_eq!(ConstantValue::Bool(true).to_string(), "true");
    assert_eq!(ConstantValue::Bool(false).to_string(), "false");
    assert_eq!(ConstantValue::Char('x').to_string(), "x");
    assert_eq!(ConstantValue::String("ab c".to_string()).to_string(), "ab c");
    assert_eq!(ConstantValue::Scalar(ScalarValue::U8(7)).to_string(), "7 : u8");
}

#[test]
fn pretty_identifiers() {
    assert_eq!(var_id_to_pretty_string(VarId { index: 12 }), "var@12");
    assert_eq!(value_id_to_pretty_string(ValueId { index: 0 }), "val@0");
    assert_eq!(symbolic_id_to_pretty_string(SymbolicId { index: 305 }), "symb@305");
    assert_eq!(VarId { index: 3 }.to_pretty_string(), "@3");
    assert_eq!(
        BorrowIdFormatWrapper::Shared(BorrowId { index: 1 }).to_string(),
        "⌊shared@1⌋"
    );
    assert_eq!(BorrowIdFormatWrapper::Mut(BorrowId { index: 2 }).to_string(), "&mut@2");
    assert_eq!(
        BorrowIdFormatWrapper::InactivatedMut(BorrowId { index: 3 }).to_string(),
        "⌊inactivated_mut@3⌋"
    );
}

#[test]
fn dummy_formatter_prints_indices() {
    let f = DummyFormatter {};
    assert_eq!(f.format_object(VarId { index: 4 }), "var@4");
    assert_eq!(f.format_object(ValueId { index: 4 }), "val@4");
    assert_eq!(f.format_object(TypeDefId { index: 4 }), "@Adt4");
    assert_eq!(
        f.format_object((TypeDefId { index: 4 }, VariantId { index: 1 })),
        "@Adt4::@Variant1"
    );
}

#[test]
fn borrow_text() {
    let shared: BorrowContent<ValueId> = BorrowContent::Shared(BorrowId { index: 5 });
    assert_eq!(shared.fmt_with_ctx(&DummyFormatter {}), "⌊shared@5⌋");
    let mutable = BorrowContent::Mut(BorrowId { index: 5 }, ValueId { index: 9 });
    assert_eq!(mutable.fmt_with_ctx(&DummyFormatter {}), "&mut@5 (val@9)");
    let inactive: BorrowContent<ValueId> = BorrowContent::InactivatedMut(BorrowId { index: 6 });
    assert_eq!(inactive.fmt_with_ctx(&DummyFormatter {}), "⌊inactivated_mut@6⌋");
    assert!(shared.is_shared() && !shared.is_mut());
    assert!(mutable.is_mut() && !mutable.is_shared());
}

#[test]
fn loan_text_lists_borrows_in_rising_order() {
    let mut ids = im::OrdSet::new();
    ids.insert(7usize);
    ids.insert(2usize);
    ids.insert(11usize);
    let loan = LoanContent::Shared(ids, ValueId { index: 1 });
    assert_eq!(loan.fmt_with_ctx(&DummyFormatter {}), "@shared_loan({2,7,11}, val@1)");
    let none: LoanContent<ValueId> = LoanContent::Shared(im::OrdSet::new(), ValueId { index: 1 });
    assert_eq!(none.fmt_with_ctx(&DummyFormatter {}), "@shared_loan({}, val@1)");
    let m: LoanContent<ValueId> = LoanContent::Mut(BorrowId { index: 4 });
    assert_eq!(m.fmt_with_ctx(&DummyFormatter {}), "⌊mut@4⌋");
}

#[test]
fn ended_regions() {
    let mut ended = im::OrdSet::new();
    ended.insert(3usize);
    ended.insert(5usize);
    let sv = SymbolicValue { ended, id: SymbolicId { index: 0 }, ty: Ty::Bool };
    assert!(sv.ended_contains(&Region::Var(3)));
    assert!(!sv.ended_contains(&Region::Var(4)));
    assert!(!sv.ended_contains(&Region::Static));
    let mut other = im::OrdSet::new();
    other.insert(4usize);
    assert!(!sv.ended_intersects(&other));
    other.insert(5usize);
    assert!(sv.ended_intersects(&other));
    assert!(!sv.ended_intersects(&im::OrdSet::new()));
}

#[test]
fn value_kinds() {
    let unit: Value = GValue::mk_unit();
    assert!(matches!(&unit, GValue::Tuple(v) if v.is_empty()));
    let boxed: Value = GValue::Assumed(AssumedValue::Box(ValueId { index: 2 }));
    assert!(boxed.is_box());
    assert_eq!(boxed.as_box(), Some(ValueId { index: 2 }));
    assert!(!unit.is_box());
    assert_eq!(unit.as_box(), None);
    let mb: Value = GValue::Borrow(BorrowContent::Mut(BorrowId { index: 1 }, ValueId { index: 2 }));
    assert!(mb.is_mutable_borrow());
    assert_eq!(mb.as_mutable_borrow(), Some((BorrowId { index: 1 }, ValueId { index: 2 })));
    assert!(!mb.is_shared_borrow());
    assert_eq!(mb.as_shared_borrow(), None);
    assert_eq!(mb.as_inactivated_mut(), Err(()));
    let sb: Value = GValue::Borrow(BorrowContent::Shared(BorrowId { index: 8 }));
    assert!(sb.is_shared_borrow());
    assert_eq!(sb.as_shared_borrow(), Some(BorrowId { index: 8 }));
    let im: Value = GValue::Borrow(BorrowContent::InactivatedMut(BorrowId { index: 9 }));
    assert!(im.is_inactivated_mut());
    assert_eq!(im.as_inactivated_mut(), Ok(BorrowId { index: 9 }));
    let mut ids = im::OrdSet::new();
    ids.insert(1usize);
    let loan: Value = GValue::Loan(LoanContent::Shared(ids.clone(), ValueId { index: 3 }));
    assert!(loan.is_shared_loan());
    assert_eq!(loan.as_shared_loan(), Some((&ids, ValueId { index: 3 })));
    assert!(!sb.is_shared_loan());
    assert!(sb.as_shared_loan().is_none());
}

#[test]
fn adt_kinds() {
    let s = GAdtValue { def_id: TypeDefId { index: 1 }, variant_id: None,
        regions: im::Vector::new(),
        types: im::Vector::new(),
        field_values: vec![ValueId { index: 0 }] };
    assert!(s.is_struct() && !s.is_enum());
    assert_eq!(s.fmt_with_ctx(&DummyFormatter {}), "@Adt1 (val@0)");
    let e = GAdtValue {
        def_id: TypeDefId { index: 1 },
        variant_id: Some(VariantId { index: 2 }),
        regions: im::Vector::unit(charon::symbolic::ErasedRegion::Erased),
        types: im::Vector::unit(Ty::Bool),
        field_values: vec![ValueId { index: 0 }, ValueId { index: 5 }],
    };
    assert!(e.is_enum() && !e.is_struct());
    assert_eq!(e.regions.len(), 1);
    assert_eq!(e.types.head(), Some(&Ty::Bool));
    assert_eq!(e.fmt_with_ctx(&DummyFormatter {}), "@Adt1::@Variant2 (val@0) (val@5)");
    let empty: GAdtValue<ValueId> =
        GAdtValue { def_id: TypeDefId { index: 3 }, variant_id: None,
        regions: im::Vector::new(),
        types: im::Vector::new(),
        field_values: vec![] };
    assert_eq!(empty.fmt_with_ctx(&DummyFormatter {}), "@Adt3");
}

#[test]
fn typed_values() {
    let b: TypedValue = GTypedValue::new(Ty::Bool, GValue::Concrete(ConstantValue::Bool(true)));
    assert_eq!(b.as_concrete_bool(), Some(true));
    assert_eq!(b.as_concrete_scalar(), None);
    let s: TypedValue = ConstantValue::Scalar(ScalarValue::U32(9)).to_value();
    assert_eq!(s.ty, Ty::Integer(IntegerTy::U32));
    assert_eq!(s.as_concrete_scalar(), Some(ScalarValue::U32(9)));
    assert_eq!(s.as_concrete_bool(), None);
    let c: TypedValue = ConstantValue::Char('a').to_value();
    assert_eq!(c.ty, Ty::Char);
    let t: TypedValue = ConstantValue::String("s".to_string()).to_value();
    assert_eq!(t.ty, Ty::Str);
    let bottom: TypedValue = GTypedValue::mk_bottom(Ty::Char);
    assert_eq!(bottom.ty, Ty::Char);
    assert!(matches!(bottom.value, GValue::Bottom));
    let unit: TypedValue = GTypedValue::mk_unit();
    assert_eq!(unit.ty, Ty::Unit);
    assert!(matches!(&unit.value, GValue::Tuple(v) if v.is_empty()));
}

#[test]
fn typed_value_text() {
    let ctx = Ctx;
    let sym: TypedValue = GTypedValue::new(Ty::TypeVar(TypeVarId { index: 1 }), GValue::Symbolic(SymbolicId { index: 4 }));
    assert_eq!(sym.fmt_with_ctx(&ctx), "s4 : T1");
    let tuple: TypedValue =
        GTypedValue::new(Ty::Unit, GValue::Tuple(vec![ValueId { index: 1 }, ValueId { index: 2 }]));
    assert_eq!(tuple.fmt_with_ctx(&ctx), "(v1, v2)");
    let unit: TypedValue = GTypedValue::mk_unit();
    assert_eq!(unit.fmt_with_ctx(&ctx), "()");
    let bottom: TypedValue = GTypedValue::mk_bottom(Ty::Integer(IntegerTy::U8));
    assert_eq!(bottom.fmt_with_ctx(&ctx), "⊥ : u8");
    let boxed: TypedValue =
        GTypedValue::new(Ty::Adt(TypeDefId { index: 0 }), GValue::Assumed(AssumedValue::Box(ValueId { index: 7 })));
    assert_eq!(boxed.fmt_with_ctx(&ctx), "@Box(v7)");
    let adt: TypedValue = GTypedValue::new(
        Ty::Adt(TypeDefId { index: 0 }),
        GValue::Adt(GAdtValue {
            def_id: TypeDefId { index: 0 },
            variant_id: Some(VariantId { index: 1 }),
            regions: im::Vector::new(),
            types: im::Vector::new(),
            field_values: vec![ValueId { index: 3 }],
        }),
    );
    assert_eq!(adt.fmt_with_ctx(&ctx), "Adt0::V1 (v3)");
    let konst: TypedValue = ConstantValue::Scalar(ScalarValue::I8(-1)).to_value();
    assert_eq!(konst.fmt_with_ctx(&ctx), "-1 : i8");
    let borrow: TypedValue = GTypedValue::new(
        Ty::Bool,
        GValue::Borrow(BorrowContent::Mut(BorrowId { index: 1 }, ValueId { index: 2 })),
    );
    assert_eq!(borrow.fmt_with_ctx(&ctx), "&mut@1 (v2)");
}

#[test]
fn type_text_and_substitution() {
    let ctx = Ctx;
    assert_eq!(Ty::Unit.fmt_with_ctx(&ctx), "()");
    assert_eq!(Ty::Never.fmt_with_ctx(&ctx), "!");
    assert_eq!(Ty::Integer(IntegerTy::I64).fmt_with_ctx(&ctx), "i64");
    assert_eq!(Ty::Adt(TypeDefId { index: 2 }).fmt_with_ctx(&ctx), "Adt2");
    let subst = vec![Ty::Bool, Ty::Char];
    assert_eq!(Ty::TypeVar(TypeVarId { index: 1 }).substitute_types(&subst), Ty::Char);
    assert_eq!(
        Ty::TypeVar(TypeVarId { index: 2 }).substitute_types(&subst),
        Ty::TypeVar(TypeVarId { index: 2 })
    );
    assert_eq!(Ty::Str.substitute_types(&subst), Ty::Str);
    assert!(Ty::mk_unit().is_unit());
    assert!(!Ty::Bool.is_unit());
}
