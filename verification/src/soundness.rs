//! Structuring keeps what a run lets an observer see.

use crate::llbc::TreeView;
use crate::semantics::{after, pick, run_all, runs, then, End, Flow, Observed, Run, Step};
use crate::scoping::has_header;
use crate::structure::{
    find_exit, find_header, leaves, lemma_find_exit_bound, lemma_find_header_bound, Frame,
};
use crate::ullbc::{Graph, Statement, SwitchTargets, Terminator};
use vstd::prelude::*;

verus! {

impl Graph {
    /// A run that has ended stays as it is when it is given more blocks to run.
    pub proof fn lemma_run_settled(
        self,
        b: int,
        oracle: spec_fn(nat) -> nat,
        used: nat,
        f1: nat,
        f2: nat,
    )
        requires
            !(self.run(b, oracle, used, f1).end is Unfinished),
            f1 <= f2,
        ensures
            self.run(b, oracle, used, f2) == self.run(b, oracle, used, f1),
        decreases f1,
    {
        if f1 > 0 {
            match self.blocks@[b].terminator {
                Terminator::Goto { target } => {
                    self.lemma_run_settled(
                        target as int,
                        oracle,
                        used,
                        (f1 - 1) as nat,
                        (f2 - 1) as nat,
                    );
                },
                Terminator::Switch { discr, targets } => {
                    let taken = pick(targets is If, targets.values().len(), oracle(used));
                    self.lemma_run_settled(
                        targets.targets()[taken as int] as int,
                        oracle,
                        used + 1,
                        (f1 - 1) as nat,
                        (f2 - 1) as nat,
                    );
                },
                _ => {},
            }
        }
    }

    /// What a run has let see stays seen when it is given more blocks to run.
    pub proof fn lemma_run_grows(
        self,
        b: int,
        oracle: spec_fn(nat) -> nat,
        used: nat,
        f1: nat,
        f2: nat,
    )
        requires
            f1 <= f2,
        ensures
            self.run(b, oracle, used, f1).trace.is_prefix_of(self.run(b, oracle, used, f2).trace),
        decreases f1,
    {
        if f1 > 0 {
            match self.blocks@[b].terminator {
                Terminator::Goto { target } => {
                    self.lemma_run_grows(
                        target as int,
                        oracle,
                        used,
                        (f1 - 1) as nat,
                        (f2 - 1) as nat,
                    );
                },
                Terminator::Switch { discr, targets } => {
                    let taken = pick(targets is If, targets.values().len(), oracle(used));
                    self.lemma_run_grows(
                        targets.targets()[taken as int] as int,
                        oracle,
                        used + 1,
                        (f1 - 1) as nat,
                        (f2 - 1) as nat,
                    );
                },
                _ => {},
            }
        }
    }

    /// Whether from `t` the graph lets see `trace` in `d` blocks, decides branches up
    /// to `used`, and then stands before `p`.
    pub open spec fn lands(
        self,
        t: int,
        oracle: spec_fn(nat) -> nat,
        k: nat,
        trace: Seq<Observed>,
        used: nat,
        d: nat,
        p: int,
    ) -> bool {
        forall|f: nat|
            f >= d ==> #[trigger] self.run(t, oracle, k, f) == after(
                trace,
                self.run(p, oracle, used, (f - d) as nat),
            )
    }

    /// Whether from `t` the graph lets see `trace` and ends with `end` within `d` blocks.
    pub open spec fn ends(
        self,
        t: int,
        oracle: spec_fn(nat) -> nat,
        k: nat,
        trace: Seq<Observed>,
        used: nat,
        d: nat,
        end: End,
    ) -> bool {
        forall|f: nat| f >= d ==> #[trigger] self.run(t, oracle, k, f) == (Run { trace, used, end })
    }

    /// Whether the step of a tree is what the graph does from `t`: the graph lets see
    /// the same in `d` blocks, and where the step goes on, the graph stands before the
    /// block `p` that the step goes on to, given the open loops and the block that
    /// falling off the end leads to. A step that was cut off has run `fuel` blocks at least.
    pub open spec fn follows(
        self,
        t: int,
        oracle: spec_fn(nat) -> nat,
        k: nat,
        stack: Seq<Frame>,
        next: Option<int>,
        fuel: nat,
        step: Step,
        d: nat,
        p: int,
    ) -> bool {
        match step.flow {
            Flow::Next => next == Some(p) && self.lands(t, oracle, k, step.trace, step.used, d, p),
            Flow::Continue(n) => n < stack.len() && stack[n as int].header == p && self.lands(
                t,
                oracle,
                k,
                step.trace,
                step.used,
                d,
                p,
            ),
            Flow::Break(n) => n < stack.len() && stack[n as int].exit == Some(p) && self.lands(
                t,
                oracle,
                k,
                step.trace,
                step.used,
                d,
                p,
            ),
            Flow::Return => self.ends(t, oracle, k, step.trace, step.used, d, End::Return),
            Flow::Abort(kind) => self.ends(t, oracle, k, step.trace, step.used, d, End::Abort(kind)),
            Flow::Unfinished => d >= fuel && self.lands(
                t,
                oracle,
                k,
                step.trace,
                step.used,
                d,
                p,
            ),
        }
    }

    /// Standing before `p` is landing there at once.
    pub proof fn lemma_lands_at_once(self, p: int, oracle: spec_fn(nat) -> nat, k: nat)
        ensures
            self.lands(p, oracle, k, seq![], k, 0, p),
    {
        assert forall|f: nat| f >= 0 implies #[trigger] self.run(p, oracle, k, f) == after(
            seq![],
            self.run(p, oracle, k, (f - 0) as nat),
        ) by {
            assert(seq![] + self.run(p, oracle, k, f).trace =~= self.run(p, oracle, k, f).trace);
        }
    }

    /// Landing at `mid_block` and landing from there at `end_block` is landing at `end_block`.
    pub proof fn lemma_chain_lands(
        self,
        t: int,
        oracle: spec_fn(nat) -> nat,
        k: nat,
        tr1: Seq<Observed>,
        u1: nat,
        d1: nat,
        mid_block: int,
        tr2: Seq<Observed>,
        u2: nat,
        d2: nat,
        end_block: int,
    )
        requires
            self.lands(t, oracle, k, tr1, u1, d1, mid_block),
            self.lands(mid_block, oracle, u1, tr2, u2, d2, end_block),
        ensures
            self.lands(t, oracle, k, tr1 + tr2, u2, d1 + d2, end_block),
    {
        assert forall|f: nat| f >= d1 + d2 implies #[trigger] self.run(t, oracle, k, f) == after(
            tr1 + tr2,
            self.run(end_block, oracle, u2, (f - (d1 + d2)) as nat),
        ) by {
            let mid = self.run(mid_block, oracle, u1, (f - d1) as nat);
            let last = self.run(end_block, oracle, u2, (f - d1 - d2) as nat);
            assert(self.run(t, oracle, k, f) == after(tr1, mid));
            assert(mid == after(tr2, last));
            assert(tr1 + (tr2 + last.trace) =~= (tr1 + tr2) + last.trace);
        }
    }

    /// Landing at `mid_block` and ending from there is ending.
    pub proof fn lemma_chain_ends(
        self,
        t: int,
        oracle: spec_fn(nat) -> nat,
        k: nat,
        tr1: Seq<Observed>,
        u1: nat,
        d1: nat,
        mid_block: int,
        tr2: Seq<Observed>,
        u2: nat,
        d2: nat,
        end: End,
    )
        requires
            self.lands(t, oracle, k, tr1, u1, d1, mid_block),
            self.ends(mid_block, oracle, u1, tr2, u2, d2, end),
        ensures
            self.ends(t, oracle, k, tr1 + tr2, u2, d1 + d2, end),
    {
        assert forall|f: nat| f >= d1 + d2 implies #[trigger] self.run(t, oracle, k, f) == (Run {
            trace: tr1 + tr2,
            used: u2,
            end,
        }) by {
            let mid = self.run(mid_block, oracle, u1, (f - d1) as nat);
            assert(self.run(t, oracle, k, f) == after(tr1, mid));
            assert(mid == (Run { trace: tr2, used: u2, end }));
        }
    }

    /// Landing at `mid_block` and doing from there what a step does is doing what the step
    /// does after what was seen on the way.
    pub proof fn lemma_chain_follows(
        self,
        t: int,
        oracle: spec_fn(nat) -> nat,
        k: nat,
        tr1: Seq<Observed>,
        u1: nat,
        d1: nat,
        mid_block: int,
        stack: Seq<Frame>,
        next: Option<int>,
        fuel2: nat,
        step: Step,
        d2: nat,
        end_block: int,
        fuel: nat,
    )
        requires
            self.lands(t, oracle, k, tr1, u1, d1, mid_block),
            self.follows(mid_block, oracle, u1, stack, next, fuel2, step, d2, end_block),
            fuel <= d1 + fuel2,
        ensures
            self.follows(t, oracle, k, stack, next, fuel, then(tr1, step), d1 + d2, end_block),
    {
        match step.flow {
            Flow::Return => {
                self.lemma_chain_ends(
                    t,
                    oracle,
                    k,
                    tr1,
                    u1,
                    d1,
                    mid_block,
                    step.trace,
                    step.used,
                    d2,
                    End::Return,
                );
            },
            Flow::Abort(kind) => {
                self.lemma_chain_ends(
                    t,
                    oracle,
                    k,
                    tr1,
                    u1,
                    d1,
                    mid_block,
                    step.trace,
                    step.used,
                    d2,
                    End::Abort(kind),
                );
            },
            _ => {
                self.lemma_chain_lands(
                    t,
                    oracle,
                    k,
                    tr1,
                    u1,
                    d1,
                    mid_block,
                    step.trace,
                    step.used,
                    d2,
                    end_block,
                );
            },
        }
    }

    /// What a step does that does not go on to the next tree does not depend on the
    /// block that falling off the end leads to.
    pub proof fn lemma_follows_elsewhere(
        self,
        t: int,
        oracle: spec_fn(nat) -> nat,
        k: nat,
        stack: Seq<Frame>,
        next1: Option<int>,
        next2: Option<int>,
        fuel: nat,
        step: Step,
        d: nat,
        p: int,
    )
        requires
            self.follows(t, oracle, k, stack, next1, fuel, step, d, p),
            !(step.flow is Next) || next2 == next1,
        ensures
            self.follows(t, oracle, k, stack, next2, fuel, step, d, p),
    {
    }
}

/// Running two lists of trees in a row is running the first and, where it goes on,
/// the second.
pub proof fn lemma_run_all_add(
    a: Seq<TreeView>,
    b: Seq<TreeView>,
    i: int,
    oracle: spec_fn(nat) -> nat,
    used: nat,
    fuel: nat,
)
    requires
        0 <= i <= a.len(),
    ensures
        run_all(a + b, i, oracle, used, fuel) == ({
            let first = run_all(a, i, oracle, used, fuel);
            if first.flow is Next {
                then(first.trace, run_all(b, 0, oracle, first.used, fuel))
            } else {
                first
            }
        }),
    decreases a.len() - i,
{
    if i == a.len() {
        lemma_run_all_tail(a, b, 0, oracle, used, fuel);
        assert(seq![] + run_all(b, 0, oracle, used, fuel).trace =~= run_all(
            b,
            0,
            oracle,
            used,
            fuel,
        ).trace);
    } else {
        assert((a + b)[i] == a[i]);
        let head = a[i].run(oracle, used, fuel);
        if head.flow is Next {
            lemma_run_all_add(a, b, i + 1, oracle, head.used, fuel);
            let rest = run_all(a, i + 1, oracle, head.used, fuel);
            if rest.flow is Next {
                let tail = run_all(b, 0, oracle, rest.used, fuel);
                assert(head.trace + (rest.trace + tail.trace) =~= (head.trace + rest.trace)
                    + tail.trace);
            }
        }
    }
}

/// Running the joined list from a place in the second list is running the second list
/// from there.
pub proof fn lemma_run_all_tail(
    a: Seq<TreeView>,
    b: Seq<TreeView>,
    j: int,
    oracle: spec_fn(nat) -> nat,
    used: nat,
    fuel: nat,
)
    requires
        0 <= j <= b.len(),
    ensures
        run_all(a + b, a.len() + j, oracle, used, fuel) == run_all(b, j, oracle, used, fuel),
    decreases b.len() - j,
{
    if j < b.len() {
        assert((a + b)[a.len() + j] == b[j]);
        let head = b[j].run(oracle, used, fuel);
        if head.flow is Next {
            lemma_run_all_tail(a, b, j + 1, oracle, head.used, fuel);
        }
    }
}

/// Running the leaves of statements lets see the statements and goes on.
pub proof fn lemma_run_leaves(
    stmts: Seq<Statement>,
    i: int,
    oracle: spec_fn(nat) -> nat,
    used: nat,
    fuel: nat,
)
    requires
        0 <= i <= stmts.len(),
    ensures
        run_all(leaves(stmts), i, oracle, used, fuel) == (Step {
            trace: runs(stmts).skip(i),
            used,
            flow: Flow::Next,
        }),
    decreases stmts.len() - i,
{
    if i < stmts.len() {
        lemma_run_leaves(stmts, i + 1, oracle, used, fuel);
        assert(leaves(stmts)[i] == TreeView::Leaf(stmts[i]));
        assert(leaves(stmts)[i].run(oracle, used, fuel) == (Step {
            trace: seq![Observed::Run(stmts[i])],
            used,
            flow: Flow::Next,
        }));
        assert(seq![Observed::Run(stmts[i])] + runs(stmts).skip(i + 1) =~= runs(stmts).skip(i));
    } else {
        assert(runs(stmts).skip(i) =~= seq![]);
    }
}

/// Running a list of one tree is running the tree.
pub proof fn lemma_run_one(x: TreeView, oracle: spec_fn(nat) -> nat, used: nat, fuel: nat)
    ensures
        run_all(seq![x], 0, oracle, used, fuel) == x.run(oracle, used, fuel),
{
    reveal_with_fuel(run_all, 2);
    let first = x.run(oracle, used, fuel);
    assert(seq![x][0] == x);
    if first.flow is Next {
        assert(first.trace + seq![] =~= first.trace);
    }
}

impl Graph {
    /// The arm that the branch at the end of `b` takes.
    pub open spec fn arm_taken(self, b: int, oracle: spec_fn(nat) -> nat, k: nat) -> nat {
        match self.blocks@[b].terminator {
            Terminator::Switch { discr, targets } => pick(
                targets is If,
                targets.values().len(),
                oracle(k),
            ),
            _ => 0,
        }
    }

    /// The block that the branch at the end of `b` leads to.
    pub open spec fn arm_target(self, b: int, oracle: spec_fn(nat) -> nat, k: nat) -> int {
        self.succs(b)[self.arm_taken(b, oracle, k) as int] as int
    }

    /// What the branch at the end of `b` lets see.
    pub open spec fn arm_seen(self, b: int, oracle: spec_fn(nat) -> nat, k: nat) -> Observed {
        match self.blocks@[b].terminator {
            Terminator::Switch { discr, targets } => Observed::Test(
                discr,
                targets.values(),
                self.arm_taken(b, oracle, k),
            ),
            _ => Observed::Test(arbitrary(), seq![], 0),
        }
    }

    /// The block that falling off the end of an arm of the branch at `b` leads to.
    pub open spec fn arms_next(self, b: int, next: Option<int>) -> Option<int> {
        if self.join_of(b) is Some {
            self.join_of(b)
        } else {
            next
        }
    }

    /// The loop that `b` heads, as a tree.
    pub open spec fn loop_tree(self, b: int, stack: Seq<Frame>) -> TreeView {
        TreeView::Loop(
            Box::new(
                TreeView::Sequence(
                    self.body(b, seq![Frame { header: b, exit: self.exit_of(b) }] + stack, None),
                ),
            ),
        )
    }

    /// A block that ends in a jump lets see its statements and stands before the target.
    pub proof fn lemma_block_goto(self, b: int, oracle: spec_fn(nat) -> nat, k: nat)
        requires
            self.blocks@[b].terminator is Goto,
        ensures
            self.lands(
                b,
                oracle,
                k,
                runs(self.blocks@[b].statements@),
                k,
                1,
                self.blocks@[b].terminator->target as int,
            ),
    {
    }

    /// A block that ends in a branch lets see its statements and the branch and
    /// stands before the block that the branch leads to.
    pub proof fn lemma_block_switch(self, b: int, oracle: spec_fn(nat) -> nat, k: nat)
        requires
            self.blocks@[b].terminator is Switch,
        ensures
            self.lands(
                b,
                oracle,
                k,
                runs(self.blocks@[b].statements@).push(self.arm_seen(b, oracle, k)),
                k + 1,
                1,
                self.arm_target(b, oracle, k),
            ),
    {
    }

    /// The tree of a branch lets see the branch and runs the arm that is taken.
    pub proof fn lemma_branch_run(
        self,
        b: int,
        stack: Seq<Frame>,
        next: Option<int>,
        oracle: spec_fn(nat) -> nat,
        k: nat,
        fuel: nat,
    )
        requires
            self.blocks@[b].terminator is Switch,
        ensures
            self.body(b, stack, next)[self.blocks@[b].statements@.len() as int].run(oracle, k, fuel)
                == then(
                seq![self.arm_seen(b, oracle, k)],
                run_all(
                    self.jump(b, self.arm_target(b, oracle, k), stack, self.arms_next(b, next)),
                    0,
                    oracle,
                    k + 1,
                    fuel,
                ),
            ),
    {
        reveal_with_fuel(TreeView::run, 2);
        let node = self.body(b, stack, next)[self.blocks@[b].statements@.len() as int];
        let inner = self.arms_next(b, next);
        let taken = self.arm_taken(b, oracle, k);
        match self.blocks@[b].terminator {
            Terminator::Switch { discr, targets } => {
                match targets {
                    SwitchTargets::If(t1, t2) => {
                        assert(targets.values() =~= seq![]);
                        assert(node == TreeView::If(
                            discr,
                            Box::new(TreeView::Sequence(self.jump(b, t1 as int, stack, inner))),
                            Box::new(TreeView::Sequence(self.jump(b, t2 as int, stack, inner))),
                        ));
                    },
                    SwitchTargets::SwitchInt(ty, arms, otherwise) => {
                        assert(node->Switch_2 =~= targets.values());
                        assert(node->Switch_3.len() == arms@.len());
                        if taken < arms@.len() {
                            assert(node->Switch_3[taken as int] == TreeView::Sequence(
                                self.jump(b, arms@[taken as int].1 as int, stack, inner),
                            ));
                        }
                    },
                }
            },
            _ => {},
        }
    }
}

impl Graph {
    /// What a jump leaves to be run is what the graph does from the target of the jump.
    pub proof fn lemma_jump_follows(
        self,
        from: int,
        t: int,
        stack: Seq<Frame>,
        next: Option<int>,
        oracle: spec_fn(nat) -> nat,
        k: nat,
        fuel: nat,
    ) -> (w: (nat, int))
        requires
            self.closed(),
            self.reducible(),
            self.scoped(stack, next),
            0 <= t < self.size(),
            self.jump_ok(from, t, stack, next),
        ensures
            self.follows(
                t,
                oracle,
                k,
                stack,
                next,
                fuel,
                run_all(self.jump(from, t, stack, next), 0, oracle, k, fuel),
                w.0,
                w.1,
            ),
            0 <= w.1 < self.size(),
        decreases self.size() - self.least_round(from), 0nat, 0nat,
    {
        lemma_find_header_bound(stack, t, 0);
        lemma_find_exit_bound(stack, t, 0);
        if next == Some(t) {
            self.lemma_lands_at_once(t, oracle, k);
            (0, t)
        } else if find_header(stack, t, 0) is Some {
            lemma_run_one(TreeView::Continue(find_header(stack, t, 0)->0), oracle, k, fuel);
            self.lemma_lands_at_once(t, oracle, k);
            (0, t)
        } else if find_exit(stack, t, 0) is Some {
            lemma_run_one(TreeView::Break(find_exit(stack, t, 0)->0), oracle, k, fuel);
            self.lemma_lands_at_once(t, oracle, k);
            (0, t)
        } else {
            self.lemma_block_follows(t, stack, next, oracle, k, fuel)
        }
    }

    /// The code of a block is what the graph does from the block.
    pub proof fn lemma_block_follows(
        self,
        b: int,
        stack: Seq<Frame>,
        next: Option<int>,
        oracle: spec_fn(nat) -> nat,
        k: nat,
        fuel: nat,
    ) -> (w: (nat, int))
        requires
            self.closed(),
            self.reducible(),
            self.scoped(stack, next),
            0 <= b < self.size(),
            self.enters(b, stack),
        ensures
            self.follows(
                b,
                oracle,
                k,
                stack,
                next,
                fuel,
                run_all(self.block(b, stack, next), 0, oracle, k, fuel),
                w.0,
                w.1,
            ),
            0 <= w.1 < self.size(),
        decreases self.size() - self.least_round(b), 3nat, 0nat,
    {
        if self.is_header(b) {
            let e = self.exit_of(b);
            let tree = self.loop_tree(b, stack);
            self.lemma_exit_is_block(b);
            let (dl, pl) = self.lemma_loop_follows(b, stack, oracle, k, fuel);
            let sl = tree.run(oracle, k, fuel);
            lemma_run_one(tree, oracle, k, fuel);
            match e {
                Some(ev) => {
                    let rest = self.jump(b, ev, stack, next);
                    lemma_run_all_add(seq![tree], rest, 0, oracle, k, fuel);
                    if sl.flow is Next {
                        assert(self.enters(ev, stack)) by {
                            assert forall|h: int| #[trigger]
                                self.in_loop(h, ev) && h != ev implies has_header(stack, h) by {
                                assert(self.is_header(h));
                                let u = choose|u: int| self.back_edge(u, h);
                                assert(self.edge(u, h));
                                assert(self.in_loop(h, b));
                            }
                        }
                        let (dj, pj) = self.lemma_jump_follows(
                            b,
                            ev,
                            stack,
                            next,
                            oracle,
                            sl.used,
                            fuel,
                        );
                        let sj = run_all(rest, 0, oracle, sl.used, fuel);
                        self.lemma_chain_follows(
                            b,
                            oracle,
                            k,
                            sl.trace,
                            sl.used,
                            dl,
                            pl,
                            stack,
                            next,
                            fuel,
                            sj,
                            dj,
                            pj,
                            fuel,
                        );
                        (dl + dj, pj)
                    } else {
                        self.lemma_follows_elsewhere(b, oracle, k, stack, e, next, fuel, sl, dl, pl);
                        (dl, pl)
                    }
                },
                None => {
                    self.lemma_follows_elsewhere(b, oracle, k, stack, e, next, fuel, sl, dl, pl);
                    (dl, pl)
                },
            }
        } else {
            assert(self.inside(b, stack)) by {
                assert forall|h: int| #[trigger] self.in_loop(h, b) implies has_header(stack, h) by {
                    if h == b {
                        assert(self.is_header(b));
                    }
                }
            }
            self.lemma_body_follows(b, stack, next, oracle, k, fuel)
        }
    }

    /// The loop that a header heads is what the graph does from the header, until
    /// control leaves the loop.
    pub proof fn lemma_loop_follows(
        self,
        b: int,
        stack: Seq<Frame>,
        oracle: spec_fn(nat) -> nat,
        k: nat,
        fuel: nat,
    ) -> (w: (nat, int))
        requires
            self.closed(),
            self.reducible(),
            self.scoped(stack, None),
            0 <= b < self.size(),
            self.is_header(b),
            self.enters(b, stack),
        ensures
            self.follows(
                b,
                oracle,
                k,
                stack,
                self.exit_of(b),
                fuel,
                self.loop_tree(b, stack).run(oracle, k, fuel),
                w.0,
                w.1,
            ),
            0 <= w.1 < self.size(),
        decreases self.size() - self.least_round(b), 2nat, fuel,
    {
        let e = self.exit_of(b);
        let inner = seq![Frame { header: b, exit: e }] + stack;
        let items = self.body(b, inner, None);
        let tree = self.loop_tree(b, stack);
        if fuel == 0 {
            self.lemma_lands_at_once(b, oracle, k);
            (0, b)
        } else {
            self.lemma_exit_is_block(b);
            assert(self.scoped(inner, None)) by {
                assert forall|i: int| 0 <= i < inner.len() implies {
                    &&& 0 <= (#[trigger] inner[i]).header < self.size()
                    &&& inner[i].exit is Some ==> 0 <= inner[i].exit->0 < self.size()
                } by {
                    if i > 0 {
                        assert(inner[i] == stack[i - 1]);
                    }
                }
            }
            assert(self.inside(b, inner)) by {
                assert forall|h: int| #[trigger] self.in_loop(h, b) implies has_header(inner, h) by {
                    if h == b {
                        assert(inner[0].header == h);
                    } else {
                        let i = choose|i: int| 0 <= i < stack.len() && (#[trigger] stack[i]).header == h;
                        assert(inner[i + 1] == stack[i]);
                    }
                }
            }
            let (d1, mid_block) = self.lemma_body_follows(b, inner, None, oracle, k, fuel);
            let round = run_all(items, 0, oracle, k, fuel);
            assert(tree->Loop_0.run(oracle, k, fuel) == round);
            match round.flow {
                Flow::Continue(n) => {
                    if n == 0 {
                        let (d2, end_block) = self.lemma_loop_follows(
                            b,
                            stack,
                            oracle,
                            round.used,
                            (fuel - 1) as nat,
                        );
                        self.lemma_chain_follows(
                            b,
                            oracle,
                            k,
                            round.trace,
                            round.used,
                            d1,
                            mid_block,
                            stack,
                            e,
                            (fuel - 1) as nat,
                            tree.run(oracle, round.used, (fuel - 1) as nat),
                            d2,
                            end_block,
                            fuel,
                        );
                        (d1 + d2, end_block)
                    } else {
                        assert(inner[n as int] == stack[n - 1]);
                        (d1, mid_block)
                    }
                },
                Flow::Break(n) => {
                    if n > 0 {
                        assert(inner[n as int] == stack[n - 1]);
                    }
                    (d1, mid_block)
                },
                _ => (d1, mid_block),
            }
        }
    }

    /// The statements of a block and what its terminator leads to are what the graph
    /// does from the block.
    pub proof fn lemma_body_follows(
        self,
        b: int,
        stack: Seq<Frame>,
        next: Option<int>,
        oracle: spec_fn(nat) -> nat,
        k: nat,
        fuel: nat,
    ) -> (w: (nat, int))
        requires
            self.closed(),
            self.reducible(),
            self.scoped(stack, next),
            0 <= b < self.size(),
            self.inside(b, stack),
        ensures
            self.follows(
                b,
                oracle,
                k,
                stack,
                next,
                fuel,
                run_all(self.body(b, stack, next), 0, oracle, k, fuel),
                w.0,
                w.1,
            ),
            w.0 >= 1,
            0 <= w.1 < self.size(),
        decreases self.size() - self.least_round(b), 1nat, 0nat,
    {
        let stmts = self.blocks@[b].statements@;
        let prefix = leaves(stmts);
        let pre = runs(stmts);
        lemma_run_leaves(stmts, 0, oracle, k, fuel);
        assert(pre.skip(0) =~= pre);
        assert(forall|i: int|
            0 <= i < self.succs(b).len() ==> #[trigger] self.succs(b)[i] < self.size());
        match self.blocks@[b].terminator {
            Terminator::Return => {
                assert(self.body(b, stack, next) =~= prefix + seq![TreeView::Return]);
                lemma_run_all_add(prefix, seq![TreeView::Return], 0, oracle, k, fuel);
                lemma_run_one(TreeView::Return, oracle, k, fuel);
                assert(pre + seq![] =~= pre);
                (1, b)
            },
            Terminator::Abort(kind) => {
                assert(self.body(b, stack, next) =~= prefix + seq![TreeView::Abort(kind)]);
                lemma_run_all_add(prefix, seq![TreeView::Abort(kind)], 0, oracle, k, fuel);
                lemma_run_one(TreeView::Abort(kind), oracle, k, fuel);
                assert(pre + seq![] =~= pre);
                (1, b)
            },
            Terminator::Goto { target } => {
                let rest = self.jump(b, target as int, stack, next);
                lemma_run_all_add(prefix, rest, 0, oracle, k, fuel);
                assert(self.succs(b)[0] == target);
                assert(self.edge(b, target as int));
                self.lemma_edge_jump_ok(b, target as int, stack, next);
                let (dj, pj) = self.lemma_jump_follows(b, target as int, stack, next, oracle, k, fuel);
                self.lemma_block_goto(b, oracle, k);
                self.lemma_chain_follows(
                    b,
                    oracle,
                    k,
                    pre,
                    k,
                    1,
                    target as int,
                    stack,
                    next,
                    fuel,
                    run_all(rest, 0, oracle, k, fuel),
                    dj,
                    pj,
                    fuel,
                );
                (1 + dj, pj)
            },
            Terminator::Switch { discr, targets } => {
                let join = self.join_of(b);
                let inner = self.arms_next(b, next);
                let taken = self.arm_taken(b, oracle, k);
                let tp = self.arm_target(b, oracle, k);
                let seen = self.arm_seen(b, oracle, k);
                self.lemma_join_is_block(b);
                assert(0 <= taken < self.succs(b).len()) by {
                    assert(self.succs(b).len() == targets.values().len() + 1 || targets is If);
                }
                assert(self.succs(b)[taken as int] < self.size());
                assert(self.edge(b, tp));
                self.lemma_edge_jump_ok(b, tp, stack, inner);
                let arm = self.jump(b, tp, stack, inner);
                let (dj, pj) = self.lemma_jump_follows(b, tp, stack, inner, oracle, k + 1, fuel);
                let sj = run_all(arm, 0, oracle, k + 1, fuel);
                self.lemma_block_switch(b, oracle, k);
                self.lemma_branch_run(b, stack, next, oracle, k, fuel);
                let node = self.body(b, stack, next)[stmts.len() as int];
                let rest = match join {
                    Some(j) => self.jump(b, j, stack, next),
                    None => seq![],
                };
                assert(self.body(b, stack, next) =~= prefix + (seq![node] + rest));
                lemma_run_all_add(prefix, seq![node] + rest, 0, oracle, k, fuel);
                lemma_run_all_add(seq![node], rest, 0, oracle, k, fuel);
                lemma_run_one(node, oracle, k, fuel);
                let first = pre.push(seen);
                assert(pre + (seq![seen] + sj.trace) =~= first + sj.trace);
                if sj.flow is Next {
                    match join {
                        Some(j) => {
                            assert(self.enters(j, stack)) by {
                                assert forall|h: int| #[trigger]
                                    self.in_loop(h, j) && h != j implies has_header(stack, h) by {
                                    assert(self.is_header(h));
                                    let u = choose|u: int| self.back_edge(u, h);
                                    assert(self.edge(u, h));
                                    assert(self.in_loop(h, b) == self.in_loop(h, j));
                                }
                            }
                            let (dr, pr) = self.lemma_jump_follows(
                                b,
                                j,
                                stack,
                                next,
                                oracle,
                                sj.used,
                                fuel,
                            );
                            let sr = run_all(rest, 0, oracle, sj.used, fuel);
                            self.lemma_chain_lands(
                                b,
                                oracle,
                                k,
                                first,
                                k + 1,
                                1,
                                tp,
                                sj.trace,
                                sj.used,
                                dj,
                                j,
                            );
                            self.lemma_chain_follows(
                                b,
                                oracle,
                                k,
                                first + sj.trace,
                                sj.used,
                                1 + dj,
                                j,
                                stack,
                                next,
                                fuel,
                                sr,
                                dr,
                                pr,
                                fuel,
                            );
                            assert(pre + ((seq![seen] + sj.trace) + sr.trace) =~= (first + sj.trace)
                                + sr.trace);
                            (1 + dj + dr, pr)
                        },
                        None => {
                            assert(rest =~= seq![]);
                            self.lemma_chain_follows(
                                b,
                                oracle,
                                k,
                                first,
                                k + 1,
                                1,
                                tp,
                                stack,
                                next,
                                fuel,
                                sj,
                                dj,
                                pj,
                                fuel,
                            );
                            assert(pre + ((seq![seen] + sj.trace) + seq![]) =~= first + sj.trace);
                            (1 + dj, pj)
                        },
                    }
                } else {
                    self.lemma_follows_elsewhere(
                        tp,
                        oracle,
                        k + 1,
                        stack,
                        inner,
                        next,
                        fuel,
                        sj,
                        dj,
                        pj,
                    );
                    self.lemma_chain_follows(
                        b,
                        oracle,
                        k,
                        first,
                        k + 1,
                        1,
                        tp,
                        stack,
                        next,
                        fuel,
                        sj,
                        dj,
                        pj,
                        fuel,
                    );
                    (1 + dj, pj)
                }
            },
        }
    }
}

/// How a run of a graph ends that goes as the run of a tree goes on.
pub open spec fn end_of(flow: Flow) -> End {
    match flow {
        Flow::Return => End::Return,
        Flow::Abort(kind) => End::Abort(kind),
        _ => End::Unfinished,
    }
}

/// Whether a run of a graph and a run of a tree let see the same, decide as many
/// branches, and end alike.
pub open spec fn same_run(run: Run, step: Step) -> bool {
    &&& run.trace == step.trace
    &&& run.used == step.used
    &&& run.end == end_of(step.flow)
    &&& (step.flow is Return || step.flow is Abort || step.flow is Unfinished)
}

impl Graph {
    /// The structured form is what the graph does from its entry.
    pub proof fn lemma_tree_follows(self, oracle: spec_fn(nat) -> nat, fuel: nat) -> (w: (nat, int))
        requires
            self.closed(),
            self.reducible(),
        ensures
            self.follows(
                self.entry as int,
                oracle,
                0,
                seq![],
                None,
                fuel,
                self.tree().run(oracle, 0, fuel),
                w.0,
                w.1,
            ),
            self.tree().run(oracle, 0, fuel).flow is Return || self.tree().run(
                oracle,
                0,
                fuel,
            ).flow is Abort || self.tree().run(oracle, 0, fuel).flow is Unfinished,
    {
        assert(self.enters(self.entry as int, seq![])) by {
            assert forall|h: int| #[trigger]
                self.in_loop(h, self.entry as int) && h != self.entry implies has_header(
                seq![],
                h,
            ) by {
                self.lemma_entry_outside(h);
            }
        }
        self.lemma_block_follows(self.entry as int, seq![], None, oracle, 0, fuel)
    }

    /// Every run of the structured form that ends is a run of the graph: for the same
    /// decisions at the branches the graph lets see the same statements and branches
    /// in the same order and ends in the same way.
    pub proof fn tree_run_is_graph_run(self, oracle: spec_fn(nat) -> nat, fuel: nat)
        requires
            self.closed(),
            self.reducible(),
            !(self.tree().run(oracle, 0, fuel).flow is Unfinished),
        ensures
            exists|blocks: nat|
                same_run(
                    #[trigger] self.run(self.entry as int, oracle, 0, blocks),
                    self.tree().run(oracle, 0, fuel),
                ),
    {
        let (d, p) = self.lemma_tree_follows(oracle, fuel);
        assert(same_run(
            self.run(self.entry as int, oracle, 0, d),
            self.tree().run(oracle, 0, fuel),
        ));
    }

    /// Every run of the graph that ends is a run of the structured form: for the same
    /// decisions at the branches the tree lets see the same statements and branches
    /// in the same order and ends in the same way.
    pub proof fn graph_run_is_tree_run(self, oracle: spec_fn(nat) -> nat, fuel: nat)
        requires
            self.closed(),
            self.reducible(),
            !(self.run(self.entry as int, oracle, 0, fuel).end is Unfinished),
        ensures
            exists|rounds: nat|
                same_run(
                    self.run(self.entry as int, oracle, 0, fuel),
                    #[trigger] self.tree().run(oracle, 0, rounds),
                ),
    {
        let rounds = fuel + 1;
        let (d, p) = self.lemma_tree_follows(oracle, rounds);
        let step = self.tree().run(oracle, 0, rounds);
        if step.flow is Unfinished {
            assert(self.run(self.entry as int, oracle, 0, d).end is Unfinished);
            self.lemma_run_settled(self.entry as int, oracle, 0, fuel, d);
        } else {
            let f = if d > fuel {
                d
            } else {
                fuel
            };
            self.lemma_run_settled(self.entry as int, oracle, 0, fuel, f);
            assert(same_run(self.run(self.entry as int, oracle, 0, f), step));
        }
    }

    /// What a run of the structured form lets see, cut off or not, a run of the graph
    /// lets see first.
    pub proof fn tree_trace_is_graph_trace(self, oracle: spec_fn(nat) -> nat, fuel: nat)
        requires
            self.closed(),
            self.reducible(),
        ensures
            exists|blocks: nat|
                self.tree().run(oracle, 0, fuel).trace.is_prefix_of(
                    (#[trigger] self.run(self.entry as int, oracle, 0, blocks)).trace,
                ),
    {
        let (d, p) = self.lemma_tree_follows(oracle, fuel);
        let step = self.tree().run(oracle, 0, fuel);
        assert(step.trace.is_prefix_of(self.run(self.entry as int, oracle, 0, d).trace));
    }

    /// What a run of the graph lets see, cut off or not, a run of the structured form
    /// lets see first.
    pub proof fn graph_trace_is_tree_trace(self, oracle: spec_fn(nat) -> nat, fuel: nat)
        requires
            self.closed(),
            self.reducible(),
        ensures
            exists|rounds: nat|
                self.run(self.entry as int, oracle, 0, fuel).trace.is_prefix_of(
                    (#[trigger] self.tree().run(oracle, 0, rounds)).trace,
                ),
    {
        let rounds = fuel + 1;
        let (d, p) = self.lemma_tree_follows(oracle, rounds);
        let step = self.tree().run(oracle, 0, rounds);
        let f = if d > fuel {
            d
        } else {
            fuel
        };
        self.lemma_run_grows(self.entry as int, oracle, 0, fuel, f);
        if step.flow is Unfinished {
            assert(self.run(self.entry as int, oracle, 0, d).trace =~= step.trace);
        } else {
            assert(self.run(self.entry as int, oracle, 0, f).trace == step.trace);
        }
    }
}

} // verus!
