//! What it means to run a graph and to run a tree, and that structuring keeps it.

use crate::llbc::TreeView;
use crate::ullbc::{AbortKind, Graph, Operand, Statement, SwitchTargets, Terminator};
use crate::values::ScalarValue;
use vstd::prelude::*;

verus! {

/// What a run lets an observer see, step by step.
pub enum Observed {
    /// A statement was run.
    Run(Statement),
    /// A branch read its operand and took the arm of the given index, the arms
    /// having the given values; the index behind the last arm stands for the default,
    /// and a two-way branch has index 0 for `true` and 1 for `false`.
    Test(Operand, Seq<ScalarValue>, nat),
}

/// How a run of a graph ends.
pub enum End {
    Return,
    Abort(AbortKind),
    /// The run was cut off before it ended.
    Unfinished,
}

/// A run of a graph: what was seen, how many branches were decided, and the end.
pub struct Run {
    pub trace: Seq<Observed>,
    pub used: nat,
    pub end: End,
}

/// How a run of a tree goes on.
pub enum Flow {
    /// On to what follows the tree.
    Next,
    /// Out of the loop that lies so many loops out.
    Break(nat),
    /// To the next round of the loop that lies so many loops out.
    Continue(nat),
    Return,
    Abort(AbortKind),
    /// The run was cut off before it ended.
    Unfinished,
}

/// A run of a tree: what was seen, how many branches were decided, and how it goes on.
pub struct Step {
    pub trace: Seq<Observed>,
    pub used: nat,
    pub flow: Flow,
}

/// The run with `pre` seen before it.
pub open spec fn after(pre: Seq<Observed>, run: Run) -> Run {
    Run { trace: pre + run.trace, used: run.used, end: run.end }
}

/// The step with `pre` seen before it.
pub open spec fn then(pre: Seq<Observed>, step: Step) -> Step {
    Step { trace: pre + step.trace, used: step.used, flow: step.flow }
}

/// The statements as events.
pub open spec fn runs(stmts: Seq<Statement>) -> Seq<Observed> {
    Seq::new(stmts.len(), |i: int| Observed::Run(stmts[i]))
}

/// The arm that a branch with `arms` valued arms takes on the decision `choice`.
pub open spec fn pick(two_way: bool, arms: nat, choice: nat) -> nat {
    if two_way {
        if choice == 0 {
            0
        } else {
            1
        }
    } else if choice < arms {
        choice
    } else {
        arms
    }
}

impl Graph {
    /// The run of the graph from block `b` on, where the `k`-th branch that is decided
    /// takes the arm that `oracle(k)` says, `used` branches having been decided before,
    /// cut off after `fuel` blocks.
    pub open spec fn run(self, b: int, oracle: spec_fn(nat) -> nat, used: nat, fuel: nat) -> Run
        decreases fuel,
    {
        if fuel == 0 {
            Run { trace: seq![], used, end: End::Unfinished }
        } else {
            let pre = runs(self.blocks@[b].statements@);
            match self.blocks@[b].terminator {
                Terminator::Return => Run { trace: pre, used, end: End::Return },
                Terminator::Abort(kind) => Run { trace: pre, used, end: End::Abort(kind) },
                Terminator::Goto { target } => after(
                    pre,
                    self.run(target as int, oracle, used, (fuel - 1) as nat),
                ),
                Terminator::Switch { discr, targets } => {
                    let taken = pick(targets is If, targets.values().len(), oracle(used));
                    after(
                        pre.push(Observed::Test(discr, targets.values(), taken)),
                        self.run(
                            targets.targets()[taken as int] as int,
                            oracle,
                            used + 1,
                            (fuel - 1) as nat,
                        ),
                    )
                },
            }
        }
    }
}

impl TreeView {
    /// The run of the tree, where the `k`-th branch that is decided takes the arm that
    /// `oracle(k)` says, `used` branches having been decided before, and every loop is
    /// cut off after `fuel` rounds.
    pub open spec fn run(self, oracle: spec_fn(nat) -> nat, used: nat, fuel: nat) -> Step
        decreases fuel, self, 0nat,
    {
        match self {
            TreeView::Leaf(s) => Step { trace: seq![Observed::Run(s)], used, flow: Flow::Next },
            TreeView::Sequence(items) => run_all(items, 0, oracle, used, fuel),
            TreeView::If(c, a, b) => {
                let taken = pick(true, 0, oracle(used));
                let event = seq![Observed::Test(c, seq![], taken)];
                if taken == 0 {
                    then(event, a.run(oracle, used + 1, fuel))
                } else {
                    then(event, b.run(oracle, used + 1, fuel))
                }
            },
            TreeView::Switch(c, _, values, arms, d) => {
                let taken = pick(false, values.len(), oracle(used));
                let event = seq![Observed::Test(c, values, taken)];
                if taken < arms.len() {
                    then(event, arms[taken as int].run(oracle, used + 1, fuel))
                } else {
                    then(event, d.run(oracle, used + 1, fuel))
                }
            },
            TreeView::Loop(body) => {
                if fuel == 0 {
                    Step { trace: seq![], used, flow: Flow::Unfinished }
                } else {
                    let round = body.run(oracle, used, fuel);
                    match round.flow {
                        Flow::Next => then(round.trace, self.run(oracle, round.used, (fuel - 1) as nat)),
                        Flow::Continue(n) => if n == 0 {
                            then(round.trace, self.run(oracle, round.used, (fuel - 1) as nat))
                        } else {
                            Step { flow: Flow::Continue((n - 1) as nat), ..round }
                        },
                        Flow::Break(n) => if n == 0 {
                            Step { flow: Flow::Next, ..round }
                        } else {
                            Step { flow: Flow::Break((n - 1) as nat), ..round }
                        },
                        _ => round,
                    }
                }
            },
            TreeView::Break(n) => Step { trace: seq![], used, flow: Flow::Break(n) },
            TreeView::Continue(n) => Step { trace: seq![], used, flow: Flow::Continue(n) },
            TreeView::Return => Step { trace: seq![], used, flow: Flow::Return },
            TreeView::Abort(kind) => Step { trace: seq![], used, flow: Flow::Abort(kind) },
        }
    }
}

/// The run of the trees from the `i`-th on, one after the other, until one does not
/// go on to the next.
pub open spec fn run_all(
    items: Seq<TreeView>,
    i: int,
    oracle: spec_fn(nat) -> nat,
    used: nat,
    fuel: nat,
) -> Step
    decreases fuel, items, items.len() - i,
{
    if i < 0 || i >= items.len() {
        Step { trace: seq![], used, flow: Flow::Next }
    } else {
        let first = items[i].run(oracle, used, fuel);
        if first.flow is Next {
            then(first.trace, run_all(items, i + 1, oracle, first.used, fuel))
        } else {
            first
        }
    }
}

} // verus!
