use charon::analysis::{analyze, any_flag, list_contains, no_flags};
use charon::formatter::Formatter;
use charon::gast::{
    FunSig, GFunDecl, GGlobalDecl, GenericParams, ItemKind, ItemMeta, Span,
};
use charon::krate::{
    AnyTransId, AnyTransItem, GlobalDeclId, TraitDecl, TraitDeclId, TraitDeclRef, TraitImpl,
    TraitImplId, TranslatedCrate, TypeDecl, TypeDeclId,
};
use charon::llbc::Tree;
use charon::reach::closure;
use charon::structure::{open_loop, seek_exit, seek_header, Scope};
use charon::translate::structure;
use charon::types::Ty;
use charon::ullbc::{
    find_terminator, shape_block, shape_blocks, AbortKind, BlockData, FunDeclId, Graph,
    Instruction, Operand, Place, RawBlock, RawStatement, ShapeError, Statement, SwitchTargets,
    Terminator, VarId,
};
use charon::validate::{same_scalar, GraphDefect};
use charon::values::{IntegerTy, ScalarValue};

fn cond() -> Operand {
    Operand::Copy(Place::new(VarId { index: 0 }))
}

fn goto(t: usize) -> Terminator {
    Terminator::Goto { target: t }
}

fn branch(a: usize, b: usize) -> Terminator {
    Terminator::Switch { discr: cond(), targets: SwitchTargets::If(a, b) }
}

fn graph(terms: Vec<Terminator>) -> Graph {
    Graph {
        entry: 0,
        blocks: terms.into_iter().map(|t| BlockData { statements: vec![], terminator: t, terminator_span: Span { file: 0, begin_line: 0, begin_col: 0, end_line: 0, end_col: 0 } }).collect(),
    }
}

/// 0 -> {1, 5}; 1 -> {2, 3}; 2 -> 1; 3 -> {0, 4}; 4 -> 0; 5: return.
fn nested() -> Graph {
    graph(vec![branch(1, 5), branch(2, 3), goto(1), branch(0, 4), goto(0), Terminator::Return])
}

#[test]
fn reachability_with_a_node_taken_away() {
    let adj = vec![vec![1, 2], vec![3], vec![3], vec![], vec![0]];
    let mut seeds = no_flags(5);
    seeds[0] = true;
    assert_eq!(closure(&adj, &seeds, 5), vec![true, true, true, true, false]);
    assert_eq!(closure(&adj, &seeds, 1), vec![true, false, true, true, false]);
    assert_eq!(closure(&adj, &seeds, 3), vec![true, true, true, false, false]);
    assert_eq!(closure(&adj, &seeds, 0), vec![false; 5]);
    assert_eq!(closure(&adj, &no_flags(5), 5), vec![false; 5]);
    assert!(list_contains(&vec![1, 2], 2) && !list_contains(&vec![1, 2], 3));
    assert!(any_flag(&seeds) && !any_flag(&no_flags(3)) && !any_flag(&vec![]));
}

#[test]
fn successors_and_predecessors() {
    let g = nested();
    let succs = g.successor_lists();
    assert_eq!(succs, vec![vec![1, 5], vec![2, 3], vec![1], vec![0, 4], vec![0], vec![]]);
    assert_eq!(
        g.predecessor_lists(&succs),
        vec![vec![3, 4], vec![0, 2], vec![1], vec![1], vec![3], vec![0]]
    );
    assert_eq!(g.reachable_blocks(&succs), vec![true; 6]);
    let arms = vec![(ScalarValue::U8(1), 2usize), (ScalarValue::U8(2), 0usize)];
    let t = Terminator::Switch { discr: cond(), targets: SwitchTargets::SwitchInt(IntegerTy::U8, arms, 1) };
    assert_eq!(t.successor_list(), vec![2, 0, 1]);
    assert_eq!(Terminator::Abort(AbortKind::UndefinedBehavior).successor_list(), vec![]);
}

#[test]
fn dominance_of_nested_loops() {
    let g = nested();
    let a = analyze(&g);
    let row = |d: usize| (0..6).filter(|b| a.dom[d][*b]).collect::<Vec<_>>();
    assert_eq!(row(0), vec![0, 1, 2, 3, 4, 5]);
    assert_eq!(row(1), vec![1, 2, 3, 4]);
    assert_eq!(row(2), vec![2]);
    assert_eq!(row(3), vec![3, 4]);
    assert_eq!(row(4), vec![4]);
    assert_eq!(row(5), vec![5]);
    assert_eq!(a.idom, vec![None, Some(0), Some(1), Some(1), Some(3), Some(0)]);
    for b in 0..6 {
        assert_eq!(g.immediate_dominator(&a.dom, b), a.idom[b]);
    }
}

#[test]
fn loops_of_nested_loops() {
    let g = nested();
    let a = analyze(&g);
    assert_eq!(a.headers, vec![true, true, false, false, false, false]);
    let members = |h: usize| (0..6).filter(|b| a.members[h][*b]).collect::<Vec<_>>();
    assert_eq!(members(0), vec![0, 1, 2, 3, 4]);
    assert_eq!(members(1), vec![1, 2]);
    assert_eq!(members(2), Vec::<usize>::new());
    assert_eq!(a.depth, vec![1, 2, 2, 1, 1, 0]);
    assert_eq!(g.latch_flags(&a.succs, &a.dom, 0), vec![false, false, false, true, true, false]);
    assert_eq!(g.latch_flags(&a.succs, &a.dom, 1), vec![false, false, true, false, false, false]);
    assert_eq!(g.nesting_depth(&a.members, 2), 2);
}

#[test]
fn ranks_rise_along_forward_edges() {
    let g = nested();
    let a = analyze(&g);
    assert!(a.all_ranked());
    assert_eq!(a.rank, vec![0, 1, 2, 2, 3, 1]);
    // the longest way counts: 0 -> 1 -> 3 and 0 -> 3
    let d = analyze(&graph(vec![branch(1, 2), goto(2), goto(3), Terminator::Return]));
    assert_eq!(d.rank, vec![0, 1, 2, 3]);
}

#[test]
fn blocks_behind_a_cycle_have_no_rank() {
    // 0 -> {1, 2}; 1 -> 2; 2 -> {1, 3}; 3: return
    let g = graph(vec![branch(1, 2), goto(2), branch(1, 3), Terminator::Return]);
    let a = analyze(&g);
    assert!(!a.all_ranked());
    assert_eq!(a.rank, vec![0, 4, 4, 4]);
    assert_eq!(a.headers, vec![false; 4]);
    // block 3 has no rank either, but it is not on the cycle
    assert_eq!(structure(&g).unwrap_err(), vec![1, 2]);
}

#[test]
fn joins_and_exits() {
    let g = nested();
    let a = analyze(&g);
    assert_eq!(g.loop_exit(&a, 0), Some(5));
    assert_eq!(g.loop_exit(&a, 1), Some(3));
    assert_eq!(g.join_point(&a, 0), None);
    assert_eq!(g.join_point(&a, 1), None);
    assert_eq!(g.join_point(&a, 3), None);
    // a diamond inside a diamond: 0 -> {1, 2}; 1 -> {3, 4}; 3 -> 5; 4 -> 5; 5 -> 6; 2 -> 6; 6: return
    let d = graph(vec![branch(1, 2), branch(3, 4), goto(6), goto(5), goto(5), goto(6), Terminator::Return]);
    let a = analyze(&d);
    assert_eq!(d.join_point(&a, 0), Some(6));
    assert_eq!(d.join_point(&a, 1), Some(5));
    assert_eq!(d.arm_reach(&a, 1), vec![
        vec![false, false, false, true, false, true, true],
        vec![false, false, false, false, true, true, true],
    ]);
    assert!(d.in_same_loops(&a, 0, 6));
    // an arm that returns reaches no join
    let r = graph(vec![branch(1, 2), Terminator::Return, goto(3), Terminator::Return]);
    assert_eq!(r.join_point(&analyze(&r), 0), None);
    // an infinite loop has no exit
    let l = graph(vec![goto(0)]);
    assert_eq!(l.loop_exit(&analyze(&l), 0), None);
}

#[test]
fn open_loops_are_searched_from_the_innermost() {
    let outer = vec![Scope { header: 1, exit: Some(7) }];
    let inner = open_loop(&outer, 4, Some(7));
    assert_eq!(inner.len(), 2);
    assert_eq!((inner[0].header, inner[0].exit), (4, Some(7)));
    assert_eq!((inner[1].header, inner[1].exit), (1, Some(7)));
    assert_eq!(seek_header(&inner, 1), Some(1));
    assert_eq!(seek_header(&inner, 4), Some(0));
    assert_eq!(seek_header(&inner, 7), None);
    assert_eq!(seek_exit(&inner, 7), Some(0));
    assert_eq!(seek_exit(&inner, 4), None);
    assert_eq!(seek_exit(&open_loop(&outer, 4, None), 7), Some(1));
}

#[test]
fn defects_are_named_in_their_order() {
    let two = |t: Terminator| graph(vec![t, Terminator::Return]);
    assert_eq!(graph(vec![]).check(1), Some(GraphDefect::NoEntry));
    assert_eq!(two(goto(2)).check(1), Some(GraphDefect::DanglingTarget(0)));
    assert_eq!(two(goto(1)).check(0), None);
    assert_eq!(two(branch(1, 1)).check(0), Some(GraphDefect::DanglingLocal(0)));
    assert_eq!(two(Terminator::Return).check(1), Some(GraphDefect::UnreachableBlock(1)));
    let arms = vec![(ScalarValue::U8(1), 1usize), (ScalarValue::I8(1), 1usize), (ScalarValue::U8(1), 1usize)];
    let repeated = Terminator::Switch { discr: cond(), targets: SwitchTargets::SwitchInt(IntegerTy::U8, arms, 1) };
    // a target out of range is found before a repeated arm, and that before a local out of range
    assert_eq!(two(repeated).check(0), Some(GraphDefect::RepeatedArm(0)));
    assert!(same_scalar(&ScalarValue::U8(1), &ScalarValue::U8(1)));
    assert!(!same_scalar(&ScalarValue::U8(1), &ScalarValue::I8(1)));
    assert!(!same_scalar(&ScalarValue::U8(1), &ScalarValue::U8(2)));
    assert_eq!(nested().check(1), None);
}

#[test]
fn blocks_are_parted_at_the_terminator() {
    let span = Span { file: 0, begin_line: 0, begin_col: 0, end_line: 0, end_col: 0 };
    let s = || Instruction::Statement(Statement::new(span, RawStatement::StorageDead(VarId { index: 0 })));
    let t = || Instruction::Terminator(span, Terminator::Return);
    assert_eq!(find_terminator(&vec![s(), t(), s(), t()]), Some(1));
    assert_eq!(find_terminator(&vec![s(), s()]), None);
    assert_eq!(find_terminator(&vec![]), None);
    let ok = shape_block(RawBlock { instructions: vec![s(), s(), t()] }, 3).unwrap();
    assert_eq!(ok.statements.len(), 2);
    assert!(matches!(ok.terminator, Terminator::Return));
    assert_eq!(
        shape_block(RawBlock { instructions: vec![] }, 3).unwrap_err(),
        ShapeError::MissingTerminator(3)
    );
    assert_eq!(
        shape_block(RawBlock { instructions: vec![t(), t()] }, 3).unwrap_err(),
        ShapeError::StatementAfterTerminator(3)
    );
    // the first block with a wrong shape is named
    let raw = vec![
        RawBlock { instructions: vec![t()] },
        RawBlock { instructions: vec![t(), s()] },
        RawBlock { instructions: vec![s()] },
    ];
    assert_eq!(shape_blocks(raw).unwrap_err(), ShapeError::StatementAfterTerminator(1));
    assert_eq!(shape_blocks(vec![]).unwrap().len(), 0);
}

#[test]
fn a_straight_line_has_no_branch_and_no_loop() {
    let span = Span { file: 0, begin_line: 0, begin_col: 0, end_line: 0, end_col: 0 };
    let s = Statement::new(span, RawStatement::Drop(Place::new(VarId { index: 0 })));
    let g = Graph { entry: 0, blocks: vec![BlockData {
            statements: vec![s.clone()],
            terminator: Terminator::Return,
            terminator_span: span,
        }] };
    match structure(&g).unwrap() {
        Tree::Sequence(items) => {
            assert_eq!(items.len(), 2);
            assert!(matches!(&items[0], Tree::Leaf(l) if *l == s));
            assert!(matches!(items[1], Tree::Return));
        }
        other => panic!("{:?}", other),
    }
}

fn meta(name: &str) -> ItemMeta {
    ItemMeta {
        name: name.to_string(),
        span: Span { file: 0, begin_line: 0, begin_col: 0, end_line: 0, end_col: 0 },
        is_local: true,
    }
}

fn generics() -> GenericParams {
    GenericParams { regions: 0, types: 0, const_generics: 0 }
}

fn krate() -> TranslatedCrate {
    let mut all_ids = hashlink::LinkedHashSet::new();
    for id in [
        AnyTransId::Fun(FunDeclId { index: 0 }),
        AnyTransId::Type(TypeDeclId { index: 1 }),
        AnyTransId::Global(GlobalDeclId { index: 5 }),
        AnyTransId::TraitImpl(TraitImplId { index: 0 }),
        AnyTransId::Type(TypeDeclId { index: 0 }),
        // met again: it goes to the end
        AnyTransId::Fun(FunDeclId { index: 0 }),
        AnyTransId::TraitDecl(TraitDeclId { index: 0 }),
    ] {
        all_ids.insert(id.to_key());
    }
    all_ids.insert((9, 0));
    TranslatedCrate {
        crate_name: "c".to_string(),
        real_crate_name: "c".to_string(),
        all_ids,
        item_names: vec![
            (AnyTransId::Fun(FunDeclId { index: 0 }), "f".to_string()),
            (AnyTransId::Global(GlobalDeclId { index: 5 }), "lost".to_string()),
            (AnyTransId::Fun(FunDeclId { index: 0 }), "shadowed".to_string()),
        ],
        type_decls: vec![
            TypeDecl { def_id: TypeDeclId { index: 0 }, item_meta: meta("t0"), generics: generics() },
            TypeDecl { def_id: TypeDeclId { index: 1 }, item_meta: meta("t1"), generics: generics() },
        ],
        fun_decls: vec![GFunDecl {
            def_id: FunDeclId { index: 0 },
            item_meta: meta("f"),
            name: "f".to_string(),
            signature: FunSig {
                is_unsafe: false,
                is_closure: false,
                closure_info: None,
                generics: generics(),
                parent_params_info: None,
                inputs: vec![Ty::Bool],
                output: Ty::Unit,
            },
            kind: ItemKind::Regular,
            body: None,
        }],
        global_decls: Vec::<GGlobalDecl<Tree>>::new(),
        trait_decls: vec![TraitDecl {
            def_id: TraitDeclId { index: 0 },
            item_meta: meta("td"),
            name: "td".to_string(),
            generics: generics(),
            trait_clauses: vec![],
            parent_clauses: vec![],
            consts: vec![],
            types: vec![],
            required_methods: vec![],
            provided_methods: vec![],
        }],
        trait_impls: vec![TraitImpl {
            def_id: TraitImplId { index: 0 },
            item_meta: meta("ti"),
            name: "ti".to_string(),
            generics: generics(),
            trait_clauses: vec![],
            impl_trait: TraitDeclRef { trait_id: TraitDeclId { index: 0 } },
            parent_trait_refs: vec![],
            consts: vec![],
            types: vec![],
            required_methods: vec![],
            provided_methods: vec![],
        }],
        ordered_decls: None,
    }
}

struct ByName;

impl Formatter<&TypeDecl> for ByName {
    fn format_object(&self, x: &TypeDecl) -> String {
        format!("type {}", x.item_meta.name)
    }
}

impl Formatter<&GGlobalDecl<Tree>> for ByName {
    fn format_object(&self, x: &GGlobalDecl<Tree>) -> String {
        format!("global {}", x.name)
    }
}

impl Formatter<&TraitDecl> for ByName {
    fn format_object(&self, x: &TraitDecl) -> String {
        format!("trait {}", x.item_meta.name)
    }
}

impl Formatter<&TraitImpl> for ByName {
    fn format_object(&self, x: &TraitImpl) -> String {
        format!("impl {}", x.item_meta.name)
    }
}

impl Formatter<&GFunDecl<Tree>> for ByName {
    fn format_object(&self, x: &GFunDecl<Tree>) -> String {
        format!("fn {}", x.name)
    }
}

impl Formatter<AnyTransId> for ByName {
    fn format_object(&self, x: AnyTransId) -> String {
        format!("{:?}", x.to_key())
    }
}

#[test]
fn crate_text_goes_by_kind_until_the_items_are_ordered() {
    let mut c = krate();
    assert_eq!(
        c.fmt_with_ctx(&ByName),
        "type t0\n\ntype t1\n\ntrait td\n\nimpl ti\n\nfn f\n\n"
    );
    c.ordered_decls = Some(vec![
        vec![AnyTransId::Type(TypeDeclId { index: 1 }), AnyTransId::Type(TypeDeclId { index: 0 })],
        vec![],
        vec![AnyTransId::Fun(FunDeclId { index: 0 })],
    ]);
    let keys: Vec<String> = [
        AnyTransId::Type(TypeDeclId { index: 1 }),
        AnyTransId::Type(TypeDeclId { index: 0 }),
        AnyTransId::Fun(FunDeclId { index: 0 }),
    ]
    .iter()
    .map(|id| format!("{:?}\n\n", id.to_key()))
    .collect();
    assert_eq!(c.fmt_with_ctx(&ByName), keys.concat());
    c.ordered_decls = Some(vec![]);
    assert_eq!(c.fmt_with_ctx(&ByName), "");
}

#[test]
fn items_of_a_crate() {
    let c = krate();
    assert!(matches!(c.get_item(AnyTransId::Type(TypeDeclId { index: 1 })), Some(AnyTransItem::Type(d)) if d.item_meta.name == "t1"));
    assert!(matches!(c.get_item(AnyTransId::Fun(FunDeclId { index: 0 })), Some(AnyTransItem::Fun(_))));
    assert!(c.get_item(AnyTransId::Fun(FunDeclId { index: 1 })).is_none());
    assert!(c.get_item(AnyTransId::Global(GlobalDeclId { index: 0 })).is_none());
    assert!(matches!(c.get_item(AnyTransId::TraitDecl(TraitDeclId { index: 0 })), Some(AnyTransItem::TraitDecl(_))));
    assert!(matches!(c.get_item(AnyTransId::TraitImpl(TraitImplId { index: 0 })), Some(AnyTransItem::TraitImpl(_))));
    assert_eq!(c.item_name(AnyTransId::Fun(FunDeclId { index: 0 })).map(|s| s.as_str()), Some("f"));
    assert_eq!(c.item_name(AnyTransId::Global(GlobalDeclId { index: 5 })).map(|s| s.as_str()), Some("lost"));
    assert_eq!(c.item_name(AnyTransId::Type(TypeDeclId { index: 0 })), None);
}

#[test]
fn all_items_come_in_the_order_met() {
    let c = krate();
    let ids: Vec<AnyTransId> = c.all_items_with_ids().iter().map(|p| p.0).collect();
    assert_eq!(
        ids,
        vec![
            AnyTransId::Type(TypeDeclId { index: 1 }),
            AnyTransId::TraitImpl(TraitImplId { index: 0 }),
            AnyTransId::Type(TypeDeclId { index: 0 }),
            AnyTransId::Fun(FunDeclId { index: 0 }),
            AnyTransId::TraitDecl(TraitDeclId { index: 0 }),
        ]
    );
    let names: Vec<&str> = c.all_items().iter().map(|i| i.item_meta().name.as_str()).collect();
    assert_eq!(names, vec!["t1", "ti", "t0", "f", "td"]);
    for (id, item) in c.all_items_with_ids() {
        assert_eq!(item.id(), id);
        assert_eq!(AnyTransId::from_key(id.to_key()), Some(id));
    }
    assert_eq!(AnyTransId::from_key((5, 0)), None);
}

#[test]
fn names_are_given_and_replaced() {
    let mut c = krate();
    c.item_names.clear();
    let f = AnyTransId::Fun(FunDeclId { index: 0 });
    let t = AnyTransId::Type(TypeDeclId { index: 0 });
    assert_eq!(c.item_name(f), None);
    c.set_item_name(f, "first".to_string());
    c.set_item_name(t, "ty".to_string());
    assert_eq!(c.item_name(f).map(|s| s.as_str()), Some("first"));
    assert_eq!(c.item_name(t).map(|s| s.as_str()), Some("ty"));
    c.set_item_name(f, "second".to_string());
    assert_eq!(c.item_name(f).map(|s| s.as_str()), Some("second"));
    assert_eq!(c.item_name(t).map(|s| s.as_str()), Some("ty"));
    // no id has two names
    assert_eq!(c.item_names.len(), 2);
    assert_eq!(c.type_decls.len(), 2);
}
