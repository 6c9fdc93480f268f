use charon::gast::{GExprBody, Span, Var};
use charon::llbc::Tree;
use charon::translate::{structure_shaped, StructureError};
use charon::types::Ty;
use charon::ullbc::{
    AbortKind, BlockData, Graph, Operand, Place, RawStatement, Statement, SwitchTargets,
    Terminator, VarId,
};
use charon::values::{IntegerTy, ScalarValue};

#[derive(Clone, Debug, PartialEq)]
enum Seen {
    Run(Statement),
    Test(Operand, Vec<ScalarValue>, usize),
}

#[derive(Clone, Debug, PartialEq)]
enum End {
    Return,
    Abort(String),
    CutOff,
}

enum Flow {
    Next,
    Break(usize),
    Continue(usize),
    End(End),
}

struct Oracle {
    state: u64,
}

impl Oracle {
    fn next(&mut self) -> usize {
        self.state = self.state.wrapping_mul(6364136223846793005).wrapping_add(1442695040888963407);
        ((self.state >> 33) % 5) as usize
    }
}

fn abort_name(kind: &AbortKind) -> String {
    match kind {
        AbortKind::UndefinedBehavior => "ub".to_string(),
        AbortKind::Panic(n) => n.clone(),
    }
}

fn run_graph(g: &Graph, oracle: &mut Oracle, budget: usize) -> (Vec<Seen>, End) {
    let mut trace = Vec::new();
    let mut b = g.entry;
    for _ in 0..budget {
        let block = &g.blocks[b];
        trace.extend(block.statements.iter().cloned().map(Seen::Run));
        match &block.terminator {
            Terminator::Return => return (trace, End::Return),
            Terminator::Abort(kind) => return (trace, End::Abort(abort_name(kind))),
            Terminator::Goto { target } => b = *target,
            Terminator::Switch { discr, targets } => match targets {
                SwitchTargets::If(t, e) => {
                    let taken = if oracle.next() == 0 { 0 } else { 1 };
                    trace.push(Seen::Test(discr.clone(), vec![], taken));
                    b = if taken == 0 { *t } else { *e };
                }
                SwitchTargets::SwitchInt(_, arms, otherwise) => {
                    let taken = oracle.next().min(arms.len());
                    trace.push(Seen::Test(discr.clone(), arms.iter().map(|a| a.0).collect(), taken));
                    b = if taken < arms.len() { arms[taken].1 } else { *otherwise };
                }
            },
        }
    }
    (trace, End::CutOff)
}

fn run_tree(t: &Tree, oracle: &mut Oracle, trace: &mut Vec<Seen>, budget: &mut usize) -> Flow {
    match t {
        Tree::Leaf(s) => {
            trace.push(Seen::Run(s.clone()));
            Flow::Next
        }
        Tree::Sequence(items) => {
            for item in items {
                match run_tree(item, oracle, trace, budget) {
                    Flow::Next => {}
                    other => return other,
                }
            }
            Flow::Next
        }
        Tree::If(c, a, b) => {
            let taken = if oracle.next() == 0 { 0 } else { 1 };
            trace.push(Seen::Test(c.clone(), vec![], taken));
            run_tree(if taken == 0 { a } else { b }, oracle, trace, budget)
        }
        Tree::Switch(c, _, arms, d) => {
            let taken = oracle.next().min(arms.len());
            trace.push(Seen::Test(c.clone(), arms.iter().map(|a| a.0).collect(), taken));
            run_tree(if taken < arms.len() { &arms[taken].1 } else { d }, oracle, trace, budget)
        }
        Tree::Loop(body) => loop {
            if *budget == 0 {
                return Flow::End(End::CutOff);
            }
            *budget -= 1;
            match run_tree(body, oracle, trace, budget) {
                Flow::Next | Flow::Continue(0) => {}
                Flow::Break(0) => return Flow::Next,
                Flow::Break(n) => return Flow::Break(n - 1),
                Flow::Continue(n) => return Flow::Continue(n - 1),
                Flow::End(e) => return Flow::End(e),
            }
        },
        Tree::Break(n) => Flow::Break(*n),
        Tree::Continue(n) => Flow::Continue(*n),
        Tree::Return => Flow::End(End::Return),
        Tree::Abort(kind) => Flow::End(End::Abort(abort_name(kind))),
    }
}

fn levels_valid(t: &Tree, depth: usize) -> bool {
    match t {
        Tree::Sequence(items) => items.iter().all(|i| levels_valid(i, depth)),
        Tree::If(_, a, b) => levels_valid(a, depth) && levels_valid(b, depth),
        Tree::Switch(_, _, arms, d) => {
            arms.iter().all(|a| levels_valid(&a.1, depth)) && levels_valid(d, depth)
        }
        Tree::Loop(b) => levels_valid(b, depth + 1),
        Tree::Break(n) | Tree::Continue(n) => *n < depth,
        _ => true,
    }
}

fn locals_below(t: &Tree, n: usize) -> bool {
    let operand = |o: &Operand| match o {
        Operand::Copy(p) | Operand::Move(p) => p.var_id.index < n,
        Operand::Const(_) => true,
    };
    match t {
        Tree::Leaf(s) => s.check_locals_below(n),
        Tree::Sequence(items) => items.iter().all(|i| locals_below(i, n)),
        Tree::If(c, a, b) => operand(c) && locals_below(a, n) && locals_below(b, n),
        Tree::Switch(c, _, arms, d) => {
            operand(c) && arms.iter().all(|a| locals_below(&a.1, n)) && locals_below(d, n)
        }
        Tree::Loop(b) => locals_below(b, n),
        _ => true,
    }
}

const LOCALS: usize = 6;

fn body_of(g: Graph) -> GExprBody<Graph> {
    GExprBody {
        span: Span { file: 0, begin_line: 1, begin_col: 0, end_line: 1, end_col: 0 },
        arg_count: 0,
        locals: (0..LOCALS).map(|i| Var { index: VarId { index: i }, name: None, ty: Ty::Bool }).collect(),
        comments: Vec::new(),
        body: g,
    }
}

fn copy_of(g: &Graph) -> Graph {
    let blocks = g
        .blocks
        .iter()
        .map(|b| BlockData {
            statements: b.statements.clone(),
            terminator_span: b.terminator_span,
            terminator: match &b.terminator {
                Terminator::Goto { target } => Terminator::Goto { target: *target },
                Terminator::Switch { discr, targets } => Terminator::Switch {
                    discr: discr.clone(),
                    targets: match targets {
                        SwitchTargets::If(a, b) => SwitchTargets::If(*a, *b),
                        SwitchTargets::SwitchInt(ty, arms, o) => {
                            SwitchTargets::SwitchInt(*ty, arms.clone(), *o)
                        }
                    },
                },
                Terminator::Return => Terminator::Return,
                Terminator::Abort(k) => Terminator::Abort(k.duplicate()),
            },
        })
        .collect();
    Graph { entry: g.entry, blocks }
}

/// Runs graph and tree side by side under several oracles.
fn compare(g: &Graph, tree: &Tree) {
    for seed in 0..40u64 {
        let graph_budget = 60;
        let (graph_trace, graph_end) = run_graph(g, &mut Oracle { state: seed }, graph_budget);
        let mut tree_trace = Vec::new();
        let mut rounds = graph_budget + 1;
        let flow = run_tree(tree, &mut Oracle { state: seed }, &mut tree_trace, &mut rounds);
        let tree_end = match flow {
            Flow::End(e) => e,
            _ => panic!("the tree fell off its end, or broke out of no loop"),
        };
        if graph_end != End::CutOff {
            assert_eq!(tree_end, graph_end);
            assert_eq!(tree_trace, graph_trace);
        } else if tree_end != End::CutOff {
            // the tree ended within its rounds: the graph must end the same way with more blocks
            let (longer, end) = run_graph(g, &mut Oracle { state: seed }, 100_000);
            assert_eq!(end, tree_end);
            assert_eq!(longer, tree_trace);
        } else {
            assert!(tree_trace.len() >= graph_trace.len());
            assert_eq!(&tree_trace[..graph_trace.len()], &graph_trace[..]);
        }
    }
}

/// A graph of `n` blocks, drawn from `seed`.
fn draw(n: usize, seed: u64) -> Graph {
    let mut o = Oracle { state: seed.wrapping_mul(7919).wrapping_add(17) };
    let mut pick = |m: usize| {
        let a = o.next();
        let b = o.next();
        (a * 5 + b) % m
    };
    let blocks = (0..n)
        .map(|i| {
            let span = Span { file: 0, begin_line: i, begin_col: 0, end_line: i, end_col: 0 };
            let statements = (0..pick(3))
                .map(|k| Statement::new(span, RawStatement::StorageDead(VarId { index: (i + k) % LOCALS })))
                .collect();
            let discr = Operand::Copy(Place::new(VarId { index: pick(LOCALS) }));
            let terminator = match pick(8) {
                0 => Terminator::Return,
                1 => Terminator::Abort(AbortKind::Panic(format!("p{}", i))),
                2 | 3 => Terminator::Goto { target: pick(n) },
                4 | 5 | 6 => Terminator::Switch { discr: discr.clone(), targets: SwitchTargets::If(pick(n), pick(n)) },
                _ => Terminator::Switch {
                    discr,
                    targets: SwitchTargets::SwitchInt(
                        IntegerTy::U8,
                        vec![(ScalarValue::U8(1), pick(n)), (ScalarValue::U8(4), pick(n))],
                        pick(n),
                    ),
                },
            };
            BlockData {
                statements,
                terminator,
                terminator_span: Span { file: 0, begin_line: i, begin_col: 0, end_line: i, end_col: 0 },
            }
        })
        .collect();
    Graph { entry: 0, blocks }
}

#[test]
fn trees_run_as_their_graphs_run() {
    let mut structured = 0;
    let mut irreducible = 0;
    let mut with_loops = 0;
    for seed in 0..3000u64 {
        let n = 1 + (seed % 9) as usize;
        let g = draw(n, seed);
        match structure_shaped(body_of(copy_of(&g))) {
            Ok(body) => {
                structured += 1;
                assert!(levels_valid(&body.body, 0));
                assert!(locals_below(&body.body, LOCALS));
                if format!("{:?}", body.body).contains("Loop") {
                    with_loops += 1;
                }
                compare(&g, &body.body);
                // the same graph gives the same tree
                let again = structure_shaped(body_of(copy_of(&g))).unwrap();
                assert_eq!(format!("{:?}", again.body), format!("{:?}", body.body));
            }
            Err(StructureError::Irreducible(blocks)) => {
                irreducible += 1;
                assert!(!blocks.is_empty());
            }
            Err(StructureError::Defect(_)) => {}
            Err(other) => panic!("{:?}", other),
        }
    }
    assert!(structured > 200, "{}", structured);
    assert!(with_loops > 50, "{}", with_loops);
    assert!(irreducible > 10, "{}", irreducible);
}
