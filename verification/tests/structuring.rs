use charon::gast::{GExprBody, Span, Var};
use charon::llbc::Tree;
use charon::translate::{structure_body, RawGraph, StructureError};
use charon::types::Ty;
use charon::ullbc::{
    AbortKind, Instruction, Operand, Place, RawBlock, RawStatement, ShapeError, Statement,
    SwitchTargets, Terminator, VarId,
};
use charon::validate::GraphDefect;
use charon::values::{IntegerTy, ScalarValue};

fn local(i: usize) -> Var {
    Var { index: VarId { index: i }, name: None, ty: Ty::Bool }
}

fn span() -> Span {
    Span { file: 0, begin_line: 1, begin_col: 0, end_line: 9, end_col: 0 }
}

fn mark(n: usize) -> Statement {
    Statement::new(span(), RawStatement::StorageDead(VarId { index: n }))
}

fn block(stmts: Vec<Statement>, term: Terminator) -> RawBlock {
    let mut instructions: Vec<Instruction> = stmts.into_iter().map(Instruction::Statement).collect();
    instructions.push(Instruction::Terminator(span(), term));
    RawBlock { instructions }
}

fn body(blocks: Vec<RawBlock>) -> GExprBody<RawGraph> {
    GExprBody {
        span: span(),
        arg_count: 1,
        locals: (0..8).map(local).collect(),
        comments: Vec::new(),
        body: RawGraph { entry: 0, blocks },
    }
}

fn cond() -> Operand {
    Operand::Copy(Place::new(VarId { index: 1 }))
}

fn branch(a: usize, b: usize) -> Terminator {
    Terminator::Switch { discr: cond(), targets: SwitchTargets::If(a, b) }
}

fn goto(t: usize) -> Terminator {
    Terminator::Goto { target: t }
}

fn show(t: &Tree) -> String {
    match t {
        Tree::Leaf(s) => match s.content.as_ref() {
            RawStatement::StorageDead(v) => format!("s{}", v.index),
            _ => "stmt".to_string(),
        },
        Tree::Sequence(items) => {
            format!("[{}]", items.iter().map(show).collect::<Vec<_>>().join(" "))
        }
        Tree::If(_, a, b) => format!("if({},{})", show(a), show(b)),
        Tree::Switch(_, _, arms, d) => format!(
            "switch({};{})",
            arms.iter().map(|(v, t)| format!("{}=>{}", v.to_string(), show(t))).collect::<Vec<_>>().join(","),
            show(d)
        ),
        Tree::Loop(b) => format!("loop({})", show(b)),
        Tree::Break(n) => format!("break{}", n),
        Tree::Continue(n) => format!("continue{}", n),
        Tree::Return => "return".to_string(),
        Tree::Abort(AbortKind::UndefinedBehavior) => "ub".to_string(),
        Tree::Abort(AbortKind::Panic(n)) => format!("panic({})", n),
    }
}

fn structured(blocks: Vec<RawBlock>) -> String {
    match structure_body(body(blocks)) {
        Ok(b) => show(&b.body),
        Err(e) => format!("{:?}", e),
    }
}

#[test]
fn single_block_stays_a_sequence() {
    let out = structured(vec![block(vec![mark(2), mark(3)], Terminator::Return)]);
    assert_eq!(out, "[s2 s3 return]");
}

#[test]
fn single_block_that_aborts() {
    let out = structured(vec![block(
        vec![mark(2)],
        Terminator::Abort(AbortKind::Panic("core::panicking::panic".to_string())),
    )]);
    assert_eq!(out, "[s2 panic(core::panicking::panic)]");
}

#[test]
fn chain_of_gotos_is_one_sequence() {
    let out = structured(vec![
        block(vec![mark(2)], goto(1)),
        block(vec![], goto(2)),
        block(vec![mark(3)], Terminator::Return),
    ]);
    assert_eq!(out, "[s2 s3 return]");
}

#[test]
fn diamond_joins_after_the_branch() {
    // A -> {B, C}, B -> D, C -> D, D -> return
    let out = structured(vec![
        block(vec![mark(2)], branch(1, 2)),
        block(vec![mark(3)], goto(3)),
        block(vec![mark(4)], goto(3)),
        block(vec![mark(5)], Terminator::Return),
    ]);
    assert_eq!(out, "[s2 if([s3],[s4]) s5 return]");
}

#[test]
fn branch_with_one_arm_at_the_join() {
    // A -> {B, D}, B -> D
    let out = structured(vec![
        block(vec![mark(2)], branch(1, 2)),
        block(vec![mark(3)], goto(2)),
        block(vec![mark(5)], Terminator::Return),
    ]);
    assert_eq!(out, "[s2 if([s3],[]) s5 return]");
}

#[test]
fn loop_with_back_edge_and_exit() {
    // A -> {B, C}, B -> A, C -> return
    let out = structured(vec![
        block(vec![], branch(1, 2)),
        block(vec![mark(3)], goto(0)),
        block(vec![], Terminator::Return),
    ]);
    assert_eq!(out, "[loop([if([s3 continue0],[break0])]) return]");
}

#[test]
fn switch_with_arms_that_return_apart() {
    let arms = vec![(ScalarValue::U8(0), 1usize), (ScalarValue::U8(1), 2usize)];
    let out = structured(vec![
        block(
            vec![],
            Terminator::Switch {
                discr: cond(),
                targets: SwitchTargets::SwitchInt(IntegerTy::U8, arms, 3),
            },
        ),
        block(vec![mark(2)], Terminator::Return),
        block(vec![mark(3)], Terminator::Return),
        block(vec![mark(4)], Terminator::Return),
    ]);
    assert_eq!(out, "[switch(0 : u8=>[s2 return],1 : u8=>[s3 return];[s4 return])]");
}

#[test]
fn nested_loops_break_to_their_own_exit() {
    // 0: outer header -> {1, 5}; 1: inner header -> {2, 3}; 2 -> 1; 3 -> {0, 4}; 4 -> 0; 5: return
    let out = structured(vec![
        block(vec![mark(2)], branch(1, 5)),
        block(vec![mark(3)], branch(2, 3)),
        block(vec![mark(4)], goto(1)),
        block(vec![mark(5)], branch(0, 4)),
        block(vec![mark(6)], goto(0)),
        block(vec![mark(7)], Terminator::Return),
    ]);
    assert_eq!(
        out,
        "[loop([s2 if([loop([s3 if([s4 continue0],[break0])]) s5 if([continue0],[s6 continue0])],[break0])]) s7 return]"
    );
}

#[test]
fn self_loop_never_leaves() {
    let out = structured(vec![block(vec![mark(2)], goto(0))]);
    assert_eq!(out, "[loop([s2 continue0])]");
}

#[test]
fn irreducible_flow_is_refused() {
    // 0 -> {1, 2}, 1 -> 2, 2 -> 1: a cycle with two entries
    let r = structure_body(body(vec![
        block(vec![], branch(1, 2)),
        block(vec![], goto(2)),
        block(vec![], goto(1)),
    ]));
    match r {
        Err(StructureError::Irreducible(blocks)) => assert_eq!(blocks, vec![1, 2]),
        other => panic!("{:?}", other),
    }
}

#[test]
fn missing_terminator_is_refused() {
    let r = structure_body(body(vec![
        block(vec![], goto(1)),
        RawBlock { instructions: vec![Instruction::Statement(mark(2))] },
    ]));
    assert!(matches!(r, Err(StructureError::Shape(ShapeError::MissingTerminator(1)))));
}

#[test]
fn statement_after_terminator_is_refused() {
    let r = structure_body(body(vec![RawBlock {
        instructions: vec![
            Instruction::Terminator(span(), Terminator::Return),
            Instruction::Statement(mark(2)),
        ],
    }]));
    assert!(matches!(r, Err(StructureError::Shape(ShapeError::StatementAfterTerminator(0)))));
}

#[test]
fn unreachable_block_is_refused() {
    let r = structure_body(body(vec![
        block(vec![], Terminator::Return),
        block(vec![], Terminator::Return),
    ]));
    assert!(matches!(r, Err(StructureError::Defect(GraphDefect::UnreachableBlock(1)))));
}

#[test]
fn dangling_target_is_refused() {
    let r = structure_body(body(vec![block(vec![], goto(7))]));
    assert!(matches!(r, Err(StructureError::Defect(GraphDefect::DanglingTarget(0)))));
}

#[test]
fn missing_entry_is_refused() {
    let r = structure_body(body(vec![]));
    assert!(matches!(r, Err(StructureError::Defect(GraphDefect::NoEntry))));
}

#[test]
fn dangling_local_is_refused() {
    let r = structure_body(body(vec![block(vec![mark(99)], Terminator::Return)]));
    assert!(matches!(r, Err(StructureError::Defect(GraphDefect::DanglingLocal(0)))));
}

#[test]
fn repeated_arm_is_refused() {
    let arms = vec![(ScalarValue::U8(0), 1usize), (ScalarValue::U8(0), 1usize)];
    let r = structure_body(body(vec![
        block(
            vec![],
            Terminator::Switch {
                discr: cond(),
                targets: SwitchTargets::SwitchInt(IntegerTy::U8, arms, 1),
            },
        ),
        block(vec![], Terminator::Return),
    ]));
    assert!(matches!(r, Err(StructureError::Defect(GraphDefect::RepeatedArm(0)))));
}

#[test]
fn locals_out_of_order_are_refused() {
    let mut b = body(vec![block(vec![], Terminator::Return)]);
    b.locals.swap(2, 3);
    assert!(matches!(structure_body(b), Err(StructureError::Locals)));
}

#[test]
fn too_few_locals_are_refused() {
    let mut b = body(vec![block(vec![], Terminator::Return)]);
    b.locals.truncate(1);
    assert!(matches!(structure_body(b), Err(StructureError::Locals)));
}

#[test]
fn structuring_twice_gives_the_same_tree() {
    let make = || {
        vec![
            block(vec![mark(2)], branch(1, 2)),
            block(vec![mark(3)], goto(3)),
            block(vec![mark(4)], goto(3)),
            block(vec![mark(5)], branch(0, 4)),
            block(vec![], Terminator::Abort(AbortKind::UndefinedBehavior)),
        ]
    };
    assert_eq!(structured(make()), structured(make()));
}

#[test]
fn only_the_blocks_of_the_cycle_are_named() {
    // 0 -> {1, 2}, 1 -> 2, 2 -> {1, 3}, 3 -> 4: blocks 3 and 4 lie behind the cycle
    let r = structure_body(body(vec![
        block(vec![], branch(1, 2)),
        block(vec![], goto(2)),
        block(vec![], branch(1, 3)),
        block(vec![], goto(4)),
        block(vec![], Terminator::Return),
    ]));
    match r {
        Err(StructureError::Irreducible(blocks)) => assert_eq!(blocks, vec![1, 2]),
        other => panic!("{:?}", other),
    }
    // two cycles, with a block between them that is on neither
    let r = structure_body(body(vec![
        block(vec![], branch(1, 2)),
        block(vec![], goto(2)),
        block(vec![], branch(1, 3)),
        block(vec![], branch(4, 5)),
        block(vec![], goto(5)),
        block(vec![], branch(4, 6)),
        block(vec![], Terminator::Return),
    ]));
    match r {
        Err(StructureError::Irreducible(blocks)) => assert_eq!(blocks, vec![1, 2, 4, 5]),
        other => panic!("{:?}", other),
    }
}
