use charon::driver::{translate, CliOpts, MirLevel};
use charon::gast::Span;
use charon::llbc::Tree;
use charon::lower::LowerError;
use charon::lower_body::{MirDef, MirDefKind, MirSig};
use charon::mir::{
    MirBlock, MirBody, MirLocal, MirOperand, MirPlace, MirSwitchTargets, MirTerminator,
    MirTerminatorKind,
};
use charon::pipeline::{translate_all, translate_one, BodyOutcome};
use charon::translate::StructureError;
use charon::types::Ty;

fn opts(ullbc: bool) -> CliOpts {
    CliOpts {
        ullbc,
        lib: false,
        bin: None,
        mir_promoted: false,
        mir_optimized: false,
        crate_name: None,
        opaque_modules: Vec::new(),
        print_ullbc: false,
        print_built_llbc: false,
        print_llbc: false,
        abort_on_error: false,
        errors_as_warnings: false,
    }
}

fn span() -> Span {
    Span { file: 0, begin_line: 1, begin_col: 0, end_line: 9, end_col: 0 }
}

fn block(kind: MirTerminatorKind) -> MirBlock {
    MirBlock { statements: vec![], terminator: Some(MirTerminator { span: span(), kind }) }
}

fn def(blocks: Vec<MirBlock>) -> MirDef {
    MirDef {
        kind: MirDefKind::Fn { sig: MirSig { inputs: vec![], output: Ty::Unit, is_unsafe: false } },
        assoc_item: None,
        opaque: false,
        body: Some(MirBody {
            span: span(),
            local_decls: vec![
                MirLocal { name: None, ty: Ty::Unit },
                MirLocal { name: None, ty: Ty::Bool },
            ],
            basic_blocks: blocks,
            source_text: None,
        }),
    }
}

fn cond() -> MirOperand {
    MirOperand::Copy(MirPlace { local: 1, steps: vec![], ty: Ty::Bool })
}

fn straight() -> MirDef {
    def(vec![block(MirTerminatorKind::Goto { target: 1 }), block(MirTerminatorKind::Return)])
}

fn irreducible() -> MirDef {
    def(vec![
        block(MirTerminatorKind::SwitchInt { discr: cond(), targets: MirSwitchTargets::If(1, 2) }),
        block(MirTerminatorKind::Goto { target: 2 }),
        block(MirTerminatorKind::Goto { target: 1 }),
    ])
}

#[test]
fn one_body_goes_as_far_as_the_plan_asks() {
    let structured = translate(&opts(false), "c".to_string());
    let unstructured = translate(&opts(true), "c".to_string());
    assert_eq!(structured.mir_level, MirLevel::Built);
    match translate_one(&straight(), 1, &structured) {
        BodyOutcome::Structured(body) => {
            assert_eq!(body.arg_count, 1);
            assert!(matches!(body.body, Tree::Sequence(_)));
        }
        other => panic!("{:?}", other),
    }
    match translate_one(&straight(), 1, &unstructured) {
        BodyOutcome::Unstructured(body) => assert_eq!(body.body.blocks.len(), 2),
        other => panic!("{:?}", other),
    }
    let mut hidden = straight();
    hidden.opaque = true;
    assert!(matches!(translate_one(&hidden, 0, &structured), BodyOutcome::Opaque));
    let mut bare = straight();
    bare.body = None;
    assert!(matches!(translate_one(&bare, 0, &structured), BodyOutcome::Opaque));
    assert!(matches!(
        translate_one(&irreducible(), 0, &structured),
        BodyOutcome::NotStructured(StructureError::Irreducible(_))
    ));
    // what is not structured cannot fail to be
    assert!(matches!(translate_one(&irreducible(), 0, &unstructured), BodyOutcome::Unstructured(_)));
}

#[test]
fn failures_are_counted_and_the_run_goes_on() {
    let plan = translate(&opts(false), "c".to_string());
    let defs = vec![
        (def(vec![block(MirTerminatorKind::InlineAsm)]), 0),
        (straight(), 0),
        (irreducible(), 0),
        (def(vec![]), 0),
        (straight(), 1),
    ];
    let (outcomes, failed) = translate_all(&defs, &plan);
    assert_eq!(outcomes.len(), 5);
    assert_eq!(failed, 3);
    assert!(matches!(outcomes[0], BodyOutcome::NotLowered(LowerError::InlineAsm)));
    assert!(matches!(outcomes[1], BodyOutcome::Structured(_)));
    assert!(matches!(outcomes[2], BodyOutcome::NotStructured(_)));
    assert!(matches!(outcomes[3], BodyOutcome::NotLowered(LowerError::Panic)));
    assert!(matches!(outcomes[4], BodyOutcome::Structured(_)));
    assert!(outcomes[0].is_failure() && !outcomes[1].is_failure());
    let (outcomes, failed) = translate_all(&Vec::new(), &plan);
    assert!(outcomes.is_empty());
    assert_eq!(failed, 0);
}
