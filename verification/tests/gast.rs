use charon::expressions::{Constant, FnOperand, FunId, FunIdOrTraitMethodRef, Operand, Place};
use charon::formatter::{fmt_call, DummyFormatter, Formatter};
use charon::ullbc::{Call, GenericArgs};
use charon::gast::{
    check_locals_ordered, fresh_var, iter_function_bodies, iter_global_bodies,
    make_locals_generator, FunSig, GExprBody, GFunDecl, GGlobalDecl, GenericParams, ItemKind,
    ItemMeta, Span, Var,
};
use charon::krate::{
    AnyTransId, AnyTransItem, GlobalDeclId, TraitDecl, TraitDeclId, TraitDeclRef, TraitImpl,
    TraitImplId, TypeDecl, TypeDeclId,
};
use charon::llbc::Tree;
use charon::types::{Ty, TypeDefId, TypeVarId};
use charon::ullbc::{FunDeclId, VarId};
use charon::values::IntegerTy;

struct Ctx;

impl Formatter<TypeDefId> for Ctx {
    fn format_object(&self, x: TypeDefId) -> String {
        DummyFormatter {}.format_object(x)
    }
}

impl Formatter<TypeVarId> for Ctx {
    fn format_object(&self, x: TypeVarId) -> String {
        DummyFormatter {}.format_object(x)
    }
}

impl Formatter<&u32> for Ctx {
    fn format_object(&self, x: &u32) -> String {
        format!("code {}", x)
    }
}

impl Formatter<GenericParams> for Ctx {
    fn format_object(&self, x: GenericParams) -> String {
        if x.regions + x.types + x.const_generics == 0 {
            String::new()
        } else {
            format!("<{}, {}, {}>", x.regions, x.types, x.const_generics)
        }
    }
}

impl Formatter<&FnOperand> for Ctx {
    fn format_object(&self, x: &FnOperand) -> String {
        match x {
            FnOperand::Regular(FunIdOrTraitMethodRef::Fun(FunId::Regular(id))) => {
                id.to_pretty_string()
            }
            FnOperand::Regular(_) => "builtin".to_string(),
            FnOperand::Move(p) => format!("(move {})", p.var_id.to_pretty_string()),
        }
    }
}

impl Formatter<&GenericArgs> for Ctx {
    fn format_object(&self, x: &GenericArgs) -> String {
        format!("<{} regions, {} types, {} consts>", x.regions, x.types.len(), x.const_generics)
    }
}

impl Formatter<&Operand> for Ctx {
    fn format_object(&self, x: &Operand) -> String {
        match x {
            Operand::Copy(p) => format!("copy {}", p.var_id.to_pretty_string()),
            Operand::Move(p) => format!("move {}", p.var_id.to_pretty_string()),
            Operand::Const(_) => "const".to_string(),
        }
    }
}

fn span() -> Span {
    Span { file: 0, begin_line: 1, begin_col: 0, end_line: 2, end_col: 0 }
}

fn meta(name: &str) -> ItemMeta {
    ItemMeta { name: name.to_string(), span: span(), is_local: true }
}

fn generics(n: usize) -> GenericParams {
    GenericParams { regions: n, types: n + 1, const_generics: 0 }
}

fn var(i: usize, name: Option<&str>, ty: Ty) -> Var {
    Var { index: VarId { index: i }, name: name.map(|s| s.to_string()), ty }
}

fn body(code: u32) -> GExprBody<u32> {
    GExprBody {
        span: span(),
        arg_count: 1,
        locals: vec![
            var(0, None, Ty::Unit),
            var(1, Some("x"), Ty::Integer(IntegerTy::U8)),
            var(2, Some("y"), Ty::Bool),
            var(3, None, Ty::Adt(TypeDefId { index: 4 })),
        ],
        comments: Vec::new(),
        body: code,
    }
}

fn fun(i: usize, body: Option<GExprBody<u32>>) -> GFunDecl<u32> {
    GFunDecl {
        def_id: FunDeclId { index: i },
        item_meta: meta("f"),
        name: format!("f{}", i),
        signature: FunSig {
            is_unsafe: false,
            is_closure: false,
            closure_info: None,
            generics: generics(i),
            parent_params_info: None,
            inputs: vec![],
            output: Ty::Unit,
        },
        kind: ItemKind::Regular,
        body,
    }
}

fn global(i: usize, body: Option<GExprBody<u32>>) -> GGlobalDecl<u32> {
    GGlobalDecl {
        def_id: GlobalDeclId { index: i },
        item_meta: meta("g"),
        generics: generics(i),
        name: format!("g{}", i),
        ty: Ty::Bool,
        kind: ItemKind::Regular,
        body,
    }
}

#[test]
fn bodies_are_listed_in_order() {
    let funs = vec![fun(0, Some(body(10))), fun(1, None), fun(2, Some(body(12)))];
    let found = iter_function_bodies(&funs);
    assert_eq!(found.len(), 2);
    assert_eq!(found[0].0, "f0");
    assert_eq!(found[0].1.body, 10);
    assert_eq!(found[1].0, "f2");
    assert_eq!(found[1].1.body, 12);
    assert!(funs[1].is_opaque() && !funs[0].is_opaque());
    let globals = vec![global(0, None), global(1, Some(body(5)))];
    let found = iter_global_bodies(&globals);
    assert_eq!(found.len(), 1);
    assert_eq!(found[0].0, "g1");
    assert_eq!(found[0].1.body, 5);
    assert!(globals[0].is_opaque() && !globals[1].is_opaque());
    assert!(iter_function_bodies::<u32>(&Vec::new()).is_empty());
}

#[test]
fn fresh_locals_go_to_the_end() {
    let mut locals = body(0).locals;
    let id = fresh_var(&mut locals, Some("z".to_string()), Ty::Char);
    assert_eq!(id, VarId { index: 4 });
    assert_eq!(locals.len(), 5);
    assert_eq!(locals[4].index, id);
    assert_eq!(locals[4].name.as_deref(), Some("z"));
    assert_eq!(locals[4].ty, Ty::Char);
}

#[test]
fn generated_locals_follow_the_greatest_index() {
    let mut locals = vec![var(0, None, Ty::Unit), var(7, None, Ty::Bool), var(3, None, Ty::Bool)];
    let mut gen = make_locals_generator(&locals);
    assert_eq!(gen.next_id, 7);
    let a = gen.generate(&mut locals, Ty::Char);
    assert_eq!(a, VarId { index: 8 });
    let b = gen.generate(&mut locals, Ty::Str);
    assert_eq!(b, VarId { index: 9 });
    assert_eq!(locals.len(), 5);
    assert_eq!(locals[3].ty, Ty::Char);
    assert!(locals[4].name.is_none());
    assert_eq!(make_locals_generator(&Vec::new()).next_id, 0);
}

#[test]
fn locals_order_is_tested() {
    assert!(check_locals_ordered(&body(0).locals, 1));
    assert!(check_locals_ordered(&body(0).locals, 3));
    assert!(!check_locals_ordered(&body(0).locals, 4));
    assert!(!check_locals_ordered(&Vec::new(), 0));
    let mut swapped = body(0).locals;
    swapped.swap(1, 2);
    assert!(!check_locals_ordered(&swapped, 1));
}

#[test]
fn locals_are_substituted() {
    let v = var(2, Some("t"), Ty::TypeVar(TypeVarId { index: 0 }));
    let w = v.substitute(&vec![Ty::Char]);
    assert_eq!(w.index, VarId { index: 2 });
    assert_eq!(w.name.as_deref(), Some("t"));
    assert_eq!(w.ty, Ty::Char);
    assert_eq!(v.to_string(), "t@2");
    assert_eq!(var(5, None, Ty::Bool).to_string(), "@5");
}

#[test]
fn body_text() {
    let text = body(3).fmt_with_ctx("  ", &Ctx);
    assert_eq!(
        text,
        "  let @0: (); // return\n  let x@1: u8; // arg #1\n  let y@2: bool; // local\n  let @3: @Adt4; // anonymous local\n\ncode 3"
    );
}

#[test]
fn global_text() {
    assert_eq!(global(1, None).gfmt_with_ctx("  ", &Ctx), "  global g1");
    let mut b = body(9);
    b.locals.truncate(1);
    b.arg_count = 0;
    assert_eq!(
        global(2, Some(b)).gfmt_with_ctx(" ", &Ctx),
        " global g2 {\n     let @0: (); // return\n\ncode 9\n }"
    );
}

#[test]
fn items_give_their_parts() {
    let ty = TypeDecl { def_id: TypeDeclId { index: 1 }, item_meta: meta("t"), generics: generics(1) };
    let td = TraitDecl {
            def_id: TraitDeclId { index: 2 },
            item_meta: meta("td"),
            name: "td".to_string(),
            generics: generics(2),
            trait_clauses: vec![],
            parent_clauses: vec![],
            consts: vec![],
            types: vec![],
            required_methods: vec![],
            provided_methods: vec![],
        };
    let ti = TraitImpl {
            def_id: TraitImplId { index: 3 },
            item_meta: meta("ti"),
            name: "ti".to_string(),
            generics: generics(3),
            trait_clauses: vec![],
            impl_trait: TraitDeclRef { trait_id: TraitDeclId { index: 0 } },
            parent_trait_refs: vec![],
            consts: vec![],
            types: vec![],
            required_methods: vec![],
            provided_methods: vec![],
        };
    let f: GFunDecl<Tree> = GFunDecl {
        def_id: FunDeclId { index: 4 },
        item_meta: meta("f"),
        name: "f".to_string(),
        signature: FunSig {
            is_unsafe: true,
            is_closure: false,
            closure_info: None,
            generics: generics(4),
            parent_params_info: None,
            inputs: vec![],
            output: Ty::Unit,
        },
        kind: ItemKind::Regular,
        body: None,
    };
    let g: GGlobalDecl<Tree> = GGlobalDecl {
        def_id: GlobalDeclId { index: 5 },
        item_meta: meta("g"),
        generics: generics(5),
        name: "g".to_string(),
        ty: Ty::Bool,
        kind: ItemKind::Regular,
        body: None,
    };
    let items = [
        AnyTransItem::Type(&ty),
        AnyTransItem::TraitDecl(&td),
        AnyTransItem::TraitImpl(&ti),
        AnyTransItem::Fun(&f),
        AnyTransItem::Global(&g),
    ];
    assert_eq!(items[0].id(), AnyTransId::Type(TypeDeclId { index: 1 }));
    assert_eq!(items[1].id(), AnyTransId::TraitDecl(TraitDeclId { index: 2 }));
    assert_eq!(items[2].id(), AnyTransId::TraitImpl(TraitImplId { index: 3 }));
    assert_eq!(items[3].id(), AnyTransId::Fun(FunDeclId { index: 4 }));
    assert_eq!(items[4].id(), AnyTransId::Global(GlobalDeclId { index: 5 }));
    let names: Vec<&str> = items.iter().map(|i| i.item_meta().name.as_str()).collect();
    assert_eq!(names, vec!["t", "td", "ti", "f", "g"]);
    let regions: Vec<usize> = items.iter().map(|i| i.generic_params().regions).collect();
    assert_eq!(regions, vec![1, 2, 3, 4, 5]);
}

#[test]
fn function_text_without_a_body() {
    let mut f = fun(0, None);
    f.signature.generics = GenericParams { regions: 0, types: 0, const_generics: 0 };
    assert_eq!(f.gfmt_with_ctx("", &Ctx), "fn f0()");
    f.signature.is_unsafe = true;
    f.signature.inputs = vec![Ty::Bool, Ty::Adt(TypeDefId { index: 7 })];
    f.signature.output = Ty::Integer(IntegerTy::I32);
    f.signature.generics = GenericParams { regions: 1, types: 2, const_generics: 0 };
    assert_eq!(
        f.gfmt_with_ctx("  ", &Ctx),
        "  unsafe fn f0<1, 2, 0>(@1: bool, @2: @Adt7) -> i32"
    );
}

#[test]
fn function_text_with_a_body() {
    let mut b = body(9);
    b.locals.truncate(2);
    let mut f = fun(3, Some(b));
    f.signature.generics = GenericParams { regions: 0, types: 0, const_generics: 0 };
    f.signature.inputs = vec![Ty::Integer(IntegerTy::U8)];
    assert_eq!(
        f.gfmt_with_ctx(" ", &Ctx),
        " fn f3(@1: u8)\n {\n     let @0: (); // return\n     let x@1: u8; // arg #1\n\ncode 9\n }"
    );
}

#[test]
fn call_text() {
    let place = |i: usize| Place::new(VarId { index: i });
    let call = Call {
        func: FnOperand::Regular(FunIdOrTraitMethodRef::Fun(FunId::Regular(FunDeclId { index: 5 }))),
        trait_and_method_generic_args: None,
        args: vec![Operand::Copy(place(1)), Operand::Move(place(2)), Operand::Const(Constant::Bool(true))],
        dest: place(0),
    };
    assert_eq!(fmt_call(&Ctx, &call), ("@Fun5(copy @1, move @2, const)".to_string(), None));
    let bare = Call {
        func: FnOperand::Move(place(3)),
        trait_and_method_generic_args: None,
        args: vec![],
        dest: place(0),
    };
    assert_eq!(fmt_call(&Ctx, &bare), ("(move @3)()".to_string(), None));
    // the generic arguments of trait and method go to the comment
    let method = Call {
        func: FnOperand::Move(place(3)),
        trait_and_method_generic_args: Some(GenericArgs {
            regions: 1,
            types: vec![Ty::Bool, Ty::Char],
            const_generics: 0,
        }),
        args: vec![Operand::Copy(place(1))],
        dest: place(7),
    };
    assert_eq!(
        fmt_call(&Ctx, &method),
        ("(move @3)(copy @1)".to_string(), Some("<1 regions, 2 types, 0 consts>".to_string()))
    );
}
