use charon::formatter::{DummyFormatter, Formatter};
use charon::gast::{GenericParams, ItemMeta, Span};
use charon::krate::{
    GlobalDeclId, TraitClause, TraitClauseId, TraitDecl, TraitDeclId, TraitDeclRef, TraitImpl,
    TraitImplId, TraitRef,
};
use charon::traits::fmt_where_clauses;
use charon::types::{Ty, TypeDefId, TypeVarId};
use charon::ullbc::FunDeclId;
use charon::values::IntegerTy;

struct Ctx;

impl Formatter<TypeDefId> for Ctx {
    fn format_object(&self, x: TypeDefId) -> String {
        DummyFormatter {}.format_object(x)
    }
}

impl Formatter<TypeVarId> for Ctx {
    fn format_object(&self, x: TypeVarId) -> String {
        DummyFormatter {}.format_object(x)
    }
}

impl Formatter<GenericParams> for Ctx {
    fn format_object(&self, x: GenericParams) -> String {
        if x.types == 0 {
            String::new()
        } else {
            format!("<{}>", x.types)
        }
    }
}

impl Formatter<TraitClause> for Ctx {
    fn format_object(&self, x: TraitClause) -> String {
        format!("[@TraitClause{}]: @Trait{}", x.clause_id.index, x.trait_id.index)
    }
}

impl Formatter<TraitRef> for Ctx {
    fn format_object(&self, x: TraitRef) -> String {
        match x {
            TraitRef::Impl(id) => format!("@TraitImpl{}", id.index),
            TraitRef::Clause(id) => format!("@TraitClause{}", id.index),
        }
    }
}

impl Formatter<TraitDeclRef> for Ctx {
    fn format_object(&self, x: TraitDeclRef) -> String {
        format!("@Trait{}", x.trait_id.index)
    }
}

impl Formatter<GlobalDeclId> for Ctx {
    fn format_object(&self, x: GlobalDeclId) -> String {
        format!("@Global{}", x.index)
    }
}

impl Formatter<FunDeclId> for Ctx {
    fn format_object(&self, x: FunDeclId) -> String {
        x.to_pretty_string()
    }
}

fn meta() -> ItemMeta {
    ItemMeta {
        name: "m".to_string(),
        span: Span { file: 0, begin_line: 1, begin_col: 0, end_line: 2, end_col: 0 },
        is_local: true,
    }
}

fn clause(i: usize, t: usize) -> TraitClause {
    TraitClause { clause_id: TraitClauseId { index: i }, trait_id: TraitDeclId { index: t } }
}

fn bare_trait() -> TraitDecl {
    TraitDecl {
        def_id: TraitDeclId { index: 0 },
        item_meta: meta(),
        name: "Shape".to_string(),
        generics: GenericParams { regions: 0, types: 0, const_generics: 0 },
        trait_clauses: vec![],
            parent_clauses: vec![],
        consts: vec![],
        types: vec![],
        required_methods: vec![],
        provided_methods: vec![],
    }
}

fn bare_impl() -> TraitImpl {
    TraitImpl {
        def_id: TraitImplId { index: 0 },
        item_meta: meta(),
        name: "ShapeForSquare".to_string(),
        generics: GenericParams { regions: 0, types: 0, const_generics: 0 },
        trait_clauses: vec![],
            impl_trait: TraitDeclRef { trait_id: TraitDeclId { index: 3 } },
        parent_trait_refs: vec![],
        consts: vec![],
        types: vec![],
        required_methods: vec![],
        provided_methods: vec![],
    }
}

#[test]
fn where_clauses_stand_one_a_line() {
    assert_eq!(fmt_where_clauses("  ", &vec![]), "");
    assert_eq!(fmt_where_clauses("  ", &vec!["A".to_string()]), "\n  where\n      A,");
    assert_eq!(
        fmt_where_clauses("", &vec!["A".to_string(), "B: C".to_string()]),
        "\nwhere\n    A,\n    B: C,"
    );
}

#[test]
fn trait_without_items_has_no_brackets() {
    assert_eq!(bare_trait().fmt_with_ctx(&Ctx), "trait Shape");
    let mut t = bare_trait();
    t.generics.types = 2;
    assert_eq!(t.fmt_with_ctx(&Ctx), "trait Shape<2>");
}

#[test]
fn trait_items_come_by_kind() {
    let mut t = bare_trait();
    t.parent_clauses = vec![clause(4, 7)];
    t.consts = vec![
        ("N".to_string(), (Ty::Integer(IntegerTy::U8), None)),
        ("M".to_string(), (Ty::Bool, Some(GlobalDeclId { index: 5 }))),
    ];
    t.types = vec![
        ("Item".to_string(), (vec![], None)),
        ("Out".to_string(), (vec![clause(0, 1), clause(1, 2)], Some(Ty::Char))),
        ("Key".to_string(), (vec![clause(2, 9)], None)),
    ];
    t.required_methods = vec![("area".to_string(), FunDeclId { index: 1 })];
    t.provided_methods =
        vec![("name".to_string(), None), ("sides".to_string(), Some(FunDeclId { index: 2 }))];
    assert_eq!(
        t.fmt_with_ctx(&Ctx),
        "trait Shape\n{\n\
         \x20   parent_clause_4 : [@TraitClause4]: @Trait7\n\
         \x20   const N : u8\n\
         \x20   const M : bool = @Global5\n\
         \x20   type Item\n\
         \x20   type Out = char\n\
         \x20       where\n\
         \x20           [@TraitClause0]: @Trait1,\n\
         \x20           [@TraitClause1]: @Trait2,\n\
         \x20   type Key\n\
         \x20       where\n\
         \x20           [@TraitClause2]: @Trait9,\n\
         \x20   fn area : @Fun1\n\
         \x20   fn name\n\
         \x20   fn sides : @Fun2\n\
         }"
    );
}

#[test]
fn implementation_without_items_has_no_brackets() {
    assert_eq!(bare_impl().fmt_with_ctx(&Ctx), "impl ShapeForSquare : @Trait3");
    let mut i = bare_impl();
    i.generics.types = 1;
    assert_eq!(i.fmt_with_ctx(&Ctx), "impl<1> ShapeForSquare<1> : @Trait3");
}

#[test]
fn implementation_items_come_by_kind() {
    let mut i = bare_impl();
    i.parent_trait_refs =
        vec![TraitRef::Impl(TraitImplId { index: 8 }), TraitRef::Clause(TraitClauseId { index: 1 })];
    i.consts = vec![("N".to_string(), (Ty::Integer(IntegerTy::U8), GlobalDeclId { index: 5 }))];
    i.types = vec![
        ("Item".to_string(), (vec![], Ty::Bool)),
        (
            "Out".to_string(),
            (
                vec![TraitRef::Impl(TraitImplId { index: 1 }), TraitRef::Clause(TraitClauseId { index: 0 })],
                Ty::Adt(TypeDefId { index: 2 }),
            ),
        ),
    ];
    i.required_methods = vec![("area".to_string(), FunDeclId { index: 1 })];
    i.provided_methods = vec![("sides".to_string(), FunDeclId { index: 2 })];
    assert_eq!(
        i.fmt_with_ctx(&Ctx),
        "impl ShapeForSquare : @Trait3\n{\n\
         \x20   parent_clause0 = @TraitImpl8\n\
         \x20   parent_clause1 = @TraitClause1\n\
         \x20   const N : u8 = @Global5\n\
         \x20   type Item = bool with []\n\
         \x20   type Out = @Adt2 with [@TraitImpl1, @TraitClause0]\n\
         \x20   fn area = @Fun1\n\
         \x20   fn sides = @Fun2\n\
         }"
    );
}

#[test]
fn what_is_asked_of_the_generics_stands_under_where() {
    let mut t = bare_trait();
    t.generics.types = 1;
    t.trait_clauses = vec![clause(0, 3), clause(1, 4)];
    assert_eq!(
        t.fmt_with_ctx(&Ctx),
        "trait Shape<1>\nwhere\n    [@TraitClause0]: @Trait3,\n    [@TraitClause1]: @Trait4,"
    );
    t.required_methods = vec![("area".to_string(), FunDeclId { index: 1 })];
    assert_eq!(
        t.fmt_with_ctx(&Ctx),
        "trait Shape<1>\nwhere\n    [@TraitClause0]: @Trait3,\n    [@TraitClause1]: @Trait4,\n{\n    fn area : @Fun1\n}"
    );
    let mut i = bare_impl();
    i.trait_clauses = vec![clause(2, 5)];
    assert_eq!(
        i.fmt_with_ctx(&Ctx),
        "impl ShapeForSquare : @Trait3\nwhere\n    [@TraitClause2]: @Trait5,"
    );
}
