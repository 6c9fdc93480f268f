//! The structured form of some small graphs, worked out from the definitions.

use crate::llbc::TreeView;
use crate::structure::leaves;
use crate::ullbc::{Graph, SwitchTargets, Terminator};
use vstd::prelude::*;

verus! {

impl Graph {
    /// The code of a block that returns: its statements, then the return.
    pub open spec fn returning(self, b: int) -> TreeView {
        TreeView::Sequence(leaves(self.blocks@[b].statements@).push(TreeView::Return))
    }

    /// The round in which a block is numbered is its rank.
    pub proof fn lemma_rank_is(self, x: int, r: nat)
        requires
            self.has_rank(x, r),
        ensures
            self.least_round(x) == r,
    {
        assert(self.placed_within(x, r + 1));
        self.lemma_least_round(x);
        self.lemma_rank_unique(x, r, self.least_round(x));
    }

    /// From a block without successors no walk leads on.
    pub proof fn lemma_walk_from_end(self, s: int, avoid: int, x: int, k: nat)
        requires
            0 <= s < self.size(),
            self.succs(s).len() == 0,
            self.walk_within(false, set![s], avoid, x, k),
        ensures
            x == s,
        decreases k,
    {
        if x != s {
            let p = choose|p: int|
                self.walk_within(false, set![s], avoid, p, (k - 1) as nat) && #[trigger] self.step(
                    false,
                    p,
                    x,
                );
            self.lemma_walk_from_end(s, avoid, p, (k - 1) as nat);
            assert(self.edge(s, x));
        }
    }

    /// A branch on an integer whose arms and default each end in a return of their
    /// own has no join point: the tree is the statements of the first block and a
    /// `Switch` with the arms in their order, each with its own return, and nothing
    /// behind the `Switch`.
    pub proof fn switch_of_returning_arms(self)
        requires
            self.size() == 4,
            self.entry == 0,
            self.blocks@[0].terminator is Switch,
            self.blocks@[0].terminator->targets is SwitchInt,
            self.blocks@[0].terminator->targets->SwitchInt_1@.len() == 2,
            self.blocks@[0].terminator->targets->SwitchInt_1@[0].1 == 1,
            self.blocks@[0].terminator->targets->SwitchInt_1@[1].1 == 2,
            self.blocks@[0].terminator->targets->SwitchInt_2 == 3,
            self.blocks@[1].terminator is Return,
            self.blocks@[2].terminator is Return,
            self.blocks@[3].terminator is Return,
        ensures
            self.closed(),
            self.reducible(),
            self.tree() == TreeView::Sequence(
                leaves(self.blocks@[0].statements@).push(
                    TreeView::Switch(
                        self.blocks@[0].terminator->discr,
                        self.blocks@[0].terminator->targets->SwitchInt_0,
                        seq![
                            self.blocks@[0].terminator->targets->SwitchInt_1@[0].0,
                            self.blocks@[0].terminator->targets->SwitchInt_1@[1].0,
                        ],
                        seq![self.returning(1), self.returning(2)],
                        Box::new(self.returning(3)),
                    ),
                ),
            ),
    {
        let arms = self.blocks@[0].terminator->targets->SwitchInt_1;
        assert(self.succs(0) =~= seq![1usize, 2usize, 3usize]);
        assert(self.succs(1) =~= seq![]);
        assert(self.succs(2) =~= seq![]);
        assert(self.succs(3) =~= seq![]);
        assert forall|u: int, v: int| self.edge(u, v) implies u == 0 && 1 <= v <= 3 by {
            if u != 0 {
                assert(self.succs(u).len() == 0);
            }
        }
        assert forall|t: int| 1 <= t <= 3 implies self.edge(0, t) by {
            assert(self.succs(0)[t - 1] == t as usize);
        }
        assert forall|t: int| 1 <= t <= 3 implies !self.dominates(t, 0) by {
            assert(self.walk_within(false, set![self.entry as int], t, 0, 0));
        }
        assert forall|h: int| !self.is_header(h) by {
            if self.is_header(h) {
                let u = choose|u: int| self.back_edge(u, h);
                assert(self.edge(u, h));
            }
        }
        reveal_with_fuel(Graph::placed_within, 3);
        assert(self.has_rank(0, 0));
        assert forall|t: int| 1 <= t <= 3 implies self.least_round(t) == 1 by {
            assert(self.forward_edge(0, t));
            assert(!self.placed_within(0, 0));
            assert(!self.placed_within(t, 1));
            assert(self.placed_within(0, 1));
            assert(self.placed_within(t, 2));
            self.lemma_rank_is(t, 1);
        }
        self.lemma_rank_is(0, 0);
        assert forall|x: int| 0 <= x < self.size() implies self.orderable(x) by {
            assert(self.placed_within(0, 1));
            if x != 0 {
                assert(self.forward_edge(0, x));
                assert(self.placed_within(x, 2));
            }
        }
        assert forall|j: int| !self.is_join(0, j) by {
            if self.is_join(0, j) {
                assert(self.walks(false, set![self.succs(0)[0] as int], 0, j));
                assert(self.walks(false, set![self.succs(0)[1] as int], 0, j));
                let k1 = choose|k: nat| self.walk_within(false, set![1int], 0, j, k);
                self.lemma_walk_from_end(1, 0, j, k1);
                let k2 = choose|k: nat| self.walk_within(false, set![2int], 0, j, k);
                self.lemma_walk_from_end(2, 0, j, k2);
            }
        }
        assert(self.join_of(0) is None);
        reveal_with_fuel(Graph::block, 3);
        reveal_with_fuel(Graph::body, 3);
        reveal_with_fuel(Graph::jump, 3);
        assert forall|t: int| 1 <= t <= 3 implies self.jump(0, t, seq![], None) == leaves(
            self.blocks@[t].statements@,
        ).push(TreeView::Return) by {
            assert(self.before(0, t));
            assert(!self.is_header(t));
        }
        assert(!self.is_header(0));
        let prefix = leaves(self.blocks@[0].statements@);
        let code = self.block(0, seq![], None);
        assert(code.len() == prefix.len() + 1);
        let node = code[prefix.len() as int];
        assert(node is Switch);
        assert(node->Switch_2 =~= seq![arms@[0].0, arms@[1].0]);
        assert(self.jump(0, 1, seq![], None) == leaves(self.blocks@[1].statements@).push(
            TreeView::Return,
        ));
        assert(self.jump(0, 2, seq![], None) == leaves(self.blocks@[2].statements@).push(
            TreeView::Return,
        ));
        assert(self.jump(0, 3, seq![], None) == leaves(self.blocks@[3].statements@).push(
            TreeView::Return,
        ));
        assert(node->Switch_3.len() == 2);
        assert(node->Switch_3[0] == self.returning(1));
        assert(node->Switch_3[1] == self.returning(2));
        assert(node->Switch_3 =~= seq![self.returning(1), self.returning(2)]);
        assert(*node->Switch_4 == self.returning(3));
        assert(code =~= prefix.push(
            TreeView::Switch(
                self.blocks@[0].terminator->discr,
                self.blocks@[0].terminator->targets->SwitchInt_0,
                seq![arms@[0].0, arms@[1].0],
                seq![self.returning(1), self.returning(2)],
                Box::new(self.returning(3)),
            ),
        ));
    }

    /// A walk stays in a set that holds the seeds and that no step leaves but to
    /// the block that the walk may not touch.
    pub proof fn lemma_walk_stays(
        self,
        rev: bool,
        seeds: Set<int>,
        avoid: int,
        inside: Set<int>,
        x: int,
        k: nat,
    )
        requires
            forall|s: int| seeds.contains(s) ==> inside.contains(s),
            forall|p: int, y: int|
                inside.contains(p) && #[trigger] self.step(rev, p, y) && y != avoid
                    ==> inside.contains(y),
            self.walk_within(rev, seeds, avoid, x, k),
        ensures
            inside.contains(x),
        decreases k,
    {
        if !seeds.contains(x) {
            let p = choose|p: int|
                self.walk_within(rev, seeds, avoid, p, (k - 1) as nat) && #[trigger] self.step(
                    rev,
                    p,
                    x,
                );
            self.lemma_walk_stays(rev, seeds, avoid, inside, p, (k - 1) as nat);
        }
    }

    /// A branch whose two arms meet again: the tree is the statements of the first
    /// block, an `If` whose arms hold the statements of their blocks and nothing
    /// else, and behind the `If` the statements of the block where the arms meet,
    /// once, and its return.
    pub proof fn diamond_joins_behind_the_branch(self)
        requires
            self.size() == 4,
            self.entry == 0,
            self.blocks@[0].terminator is Switch,
            self.blocks@[0].terminator->targets == SwitchTargets::If(1, 2),
            self.blocks@[1].terminator == (Terminator::Goto { target: 3 }),
            self.blocks@[2].terminator == (Terminator::Goto { target: 3 }),
            self.blocks@[3].terminator is Return,
        ensures
            self.closed(),
            self.reducible(),
            self.tree() == TreeView::Sequence(
                leaves(self.blocks@[0].statements@).push(
                    TreeView::If(
                        self.blocks@[0].terminator->discr,
                        Box::new(TreeView::Sequence(leaves(self.blocks@[1].statements@))),
                        Box::new(TreeView::Sequence(leaves(self.blocks@[2].statements@))),
                    ),
                ) + leaves(self.blocks@[3].statements@).push(TreeView::Return),
            ),
    {
        assert(self.succs(0) =~= seq![1usize, 2usize]);
        assert(self.succs(1) =~= seq![3usize]);
        assert(self.succs(2) =~= seq![3usize]);
        assert(self.succs(3) =~= seq![]);
        assert forall|u: int, v: int| self.edge(u, v) implies (u == 0 && (v == 1 || v == 2)) || ((u
            == 1 || u == 2) && v == 3) by {
            if u == 3 {
                assert(self.succs(u).len() == 0);
            }
        }
        assert(self.edge(0, 1)) by {
            assert(self.succs(0)[0] == 1usize);
        }
        assert(self.edge(0, 2)) by {
            assert(self.succs(0)[1] == 2usize);
        }
        assert(self.edge(1, 3)) by {
            assert(self.succs(1)[0] == 3usize);
        }
        assert(self.edge(2, 3)) by {
            assert(self.succs(2)[0] == 3usize);
        }
        reveal_with_fuel(Graph::walk_within, 4);
        reveal_with_fuel(Graph::placed_within, 4);
        let entry = set![self.entry as int];
        assert forall|t: int| 1 <= t <= 3 implies !self.dominates(t, 0) by {
            assert(self.walk_within(false, entry, t, 0, 0));
        }
        assert(self.step(false, 0, 1) && self.step(false, 0, 2));
        assert(self.step(false, 1, 3) && self.step(false, 2, 3));
        assert(!self.dominates(3, 1)) by {
            assert(self.walk_within(false, entry, 3, 0, 0));
            assert(self.walk_within(false, entry, 3, 1, 1));
        }
        assert(!self.dominates(3, 2)) by {
            assert(self.walk_within(false, entry, 3, 0, 0));
            assert(self.walk_within(false, entry, 3, 2, 1));
        }
        assert(!self.dominates(1, 3)) by {
            assert(self.walk_within(false, entry, 1, 0, 0));
            assert(self.walk_within(false, entry, 1, 2, 1));
            assert(self.walk_within(false, entry, 1, 3, 2));
        }
        assert(!self.dominates(2, 3)) by {
            assert(self.walk_within(false, entry, 2, 0, 0));
            assert(self.walk_within(false, entry, 2, 1, 1));
            assert(self.walk_within(false, entry, 2, 3, 2));
        }
        assert forall|h: int| !self.is_header(h) by {
            if self.is_header(h) {
                let u = choose|u: int| self.back_edge(u, h);
                assert(self.edge(u, h));
            }
        }
        // the order of the blocks
        assert(self.forward_edge(0, 1) && self.forward_edge(0, 2));
        assert(self.forward_edge(1, 3) && self.forward_edge(2, 3));
        assert(self.has_rank(0, 0));
        assert(self.has_rank(1, 1));
        assert(self.has_rank(2, 1));
        assert(self.has_rank(3, 2));
        self.lemma_rank_is(0, 0);
        self.lemma_rank_is(1, 1);
        self.lemma_rank_is(2, 1);
        self.lemma_rank_is(3, 2);
        assert forall|x: int| 0 <= x < self.size() implies self.orderable(x) by {
            assert(self.placed_within(0, 1));
            assert(self.placed_within(1, 2));
            assert(self.placed_within(2, 2));
            assert(self.placed_within(3, 3));
        }
        // the arms meet at block 3, and nowhere before
        assert(self.dominates(0, 3)) by {
            if self.walks(false, entry, 0, 3) {
                let k = choose|k: nat| self.walk_within(false, entry, 0, 3, k);
                self.lemma_walk_stays(false, entry, 0, Set::empty(), 3, k);
            }
        }
        assert(self.is_idom(0, 3));
        assert(self.walks(false, set![self.succs(0)[0] as int], 0, 3)) by {
            assert(self.walk_within(false, set![1int], 0, 1, 0));
            assert(self.walk_within(false, set![1int], 0, 3, 1));
        }
        assert(self.walks(false, set![self.succs(0)[1] as int], 0, 3)) by {
            assert(self.walk_within(false, set![2int], 0, 2, 0));
            assert(self.walk_within(false, set![2int], 0, 3, 1));
        }
        assert(self.join_candidate(0, 3));
        assert forall|i: int| 0 <= i < 3 implies !self.join_candidate(0, i) by {
            if self.join_candidate(0, i) {
                assert(self.walks(false, set![self.succs(0)[0] as int], 0, i));
                assert(self.walks(false, set![self.succs(0)[1] as int], 0, i));
                let k1 = choose|k: nat| self.walk_within(false, set![1int], 0, i, k);
                self.lemma_walk_stays(false, set![1int], 0, set![1int, 3int], i, k1);
                let k2 = choose|k: nat| self.walk_within(false, set![2int], 0, i, k);
                self.lemma_walk_stays(false, set![2int], 0, set![2int, 3int], i, k2);
            }
        }
        assert(self.is_join(0, 3));
        let j = choose|j: int| self.is_join(0, j);
        assert(j == 3) by {
            if j < 3 {
                assert(!self.join_candidate(0, j));
            }
        }
        assert(self.join_of(0) == Some(3int));
        reveal_with_fuel(Graph::block, 3);
        reveal_with_fuel(Graph::body, 3);
        reveal_with_fuel(Graph::jump, 3);
        let none: Seq<crate::structure::Frame> = seq![];
        assert(self.before(0, 1) && self.before(0, 2) && self.before(0, 3));
        assert(self.jump(1, 3, none, Some(3int)) =~= seq![]);
        assert(self.jump(0, 1, none, Some(3int)) =~= leaves(self.blocks@[1].statements@));
        assert(self.jump(0, 2, none, Some(3int)) =~= leaves(self.blocks@[2].statements@));
        assert(self.jump(0, 3, none, None) == leaves(self.blocks@[3].statements@).push(
            TreeView::Return,
        ));
        assert(!self.is_header(0));
        assert(self.block(0, none, None) =~= leaves(self.blocks@[0].statements@).push(
            TreeView::If(
                self.blocks@[0].terminator->discr,
                Box::new(TreeView::Sequence(leaves(self.blocks@[1].statements@))),
                Box::new(TreeView::Sequence(leaves(self.blocks@[2].statements@))),
            ),
        ) + leaves(self.blocks@[3].statements@).push(TreeView::Return));
    }

    /// A loop with one way back and one way out: the tree is one `Loop` around the
    /// statements of the header and an `If`, whose one arm holds the statements of
    /// the block that goes back and a `Continue` of the loop, and whose other arm
    /// is a `Break` of the loop; behind the `Loop`, and not inside it, stand the
    /// statements of the block that control leaves to, and its return.
    pub proof fn loop_with_a_way_back_and_a_way_out(self)
        requires
            self.size() == 3,
            self.entry == 0,
            self.blocks@[0].terminator is Switch,
            self.blocks@[0].terminator->targets == SwitchTargets::If(1, 2),
            self.blocks@[1].terminator == (Terminator::Goto { target: 0 }),
            self.blocks@[2].terminator is Return,
        ensures
            self.closed(),
            self.reducible(),
            self.tree() == TreeView::Sequence(
                seq![
                    TreeView::Loop(
                        Box::new(
                            TreeView::Sequence(
                                leaves(self.blocks@[0].statements@).push(
                                    TreeView::If(
                                        self.blocks@[0].terminator->discr,
                                        Box::new(
                                            TreeView::Sequence(
                                                leaves(self.blocks@[1].statements@).push(
                                                    TreeView::Continue(0),
                                                ),
                                            ),
                                        ),
                                        Box::new(TreeView::Sequence(seq![TreeView::Break(0)])),
                                    ),
                                ),
                            ),
                        ),
                    ),
                ] + leaves(self.blocks@[2].statements@).push(TreeView::Return),
            ),
    {
        assert(self.succs(0) =~= seq![1usize, 2usize]);
        assert(self.succs(1) =~= seq![0usize]);
        assert(self.succs(2) =~= seq![]);
        assert forall|u: int, v: int| self.edge(u, v) implies (u == 0 && (v == 1 || v == 2)) || (u
            == 1 && v == 0) by {
            if u == 2 {
                assert(self.succs(u).len() == 0);
            }
        }
        assert(self.edge(0, 1)) by {
            assert(self.succs(0)[0] == 1usize);
        }
        assert(self.edge(0, 2)) by {
            assert(self.succs(0)[1] == 2usize);
        }
        assert(self.edge(1, 0)) by {
            assert(self.succs(1)[0] == 0usize);
        }
        reveal_with_fuel(Graph::walk_within, 4);
        reveal_with_fuel(Graph::placed_within, 4);
        let entry = set![self.entry as int];
        assert forall|t: int| 1 <= t <= 2 implies !self.dominates(t, 0) by {
            assert(self.walk_within(false, entry, t, 0, 0));
        }
        assert forall|x: int| 0 <= x < 3 implies self.dominates(0, x) by {
            if self.walks(false, entry, 0, x) {
                let k = choose|k: nat| self.walk_within(false, entry, 0, x, k);
                self.lemma_walk_stays(false, entry, 0, Set::empty(), x, k);
            }
        }
        // block 0 heads the one loop, which holds block 1 and not block 2
        assert(self.back_edge(1, 0));
        assert(self.is_header(0));
        assert forall|h: int| h != 0 implies !self.is_header(h) by {
            if self.is_header(h) {
                let u = choose|u: int| self.back_edge(u, h);
                assert(self.edge(u, h));
            }
        }
        assert(self.latches(0).contains(1));
        assert forall|u: int| self.latches(0).contains(u) implies u == 1 by {
            assert(self.edge(u, 0));
        }
        assert(self.in_loop(0, 0));
        assert(self.in_loop(0, 1)) by {
            assert(self.walk_within(true, self.latches(0), 0, 1, 0));
        }
        assert(!self.in_loop(0, 2)) by {
            if self.walks(true, self.latches(0), 0, 2) {
                let k = choose|k: nat| self.walk_within(true, self.latches(0), 0, 2, k);
                self.lemma_walk_stays(true, self.latches(0), 0, set![1int], 2, k);
            }
        }
        assert forall|h: int, x: int| h != 0 implies !self.in_loop(h, x) by {}
        // the order of the blocks
        assert(self.forward_edge(0, 1) && self.forward_edge(0, 2));
        assert(!self.forward_edge(1, 0));
        assert(self.has_rank(0, 0)) by {
            assert forall|u: int| !self.forward_edge(u, 0) by {
                if self.forward_edge(u, 0) {
                    assert(self.edge(u, 0));
                }
            }
        }
        assert(self.has_rank(1, 1));
        assert(self.has_rank(2, 1));
        self.lemma_rank_is(0, 0);
        self.lemma_rank_is(1, 1);
        self.lemma_rank_is(2, 1);
        assert forall|x: int| 0 <= x < self.size() implies self.orderable(x) by {
            assert(self.placed_within(0, 1));
            assert(self.placed_within(1, 2));
            assert(self.placed_within(2, 2));
        }
        assert(self.before(0, 1) && self.before(0, 2));
        // control leaves the loop to block 2
        assert(self.exit_candidate(0, 2));
        assert(self.is_exit(0, 2));
        let e = choose|e: int| self.is_exit(0, e);
        assert(e == 2) by {
            if e < 2 {
                assert(!self.exit_candidate(0, e));
            }
        }
        assert(self.exit_of(0) == Some(2int));
        // the arms of the branch do not meet
        assert forall|j: int| !self.is_join(0, j) by {
            if self.is_join(0, j) {
                assert(self.walks(false, set![self.succs(0)[0] as int], 0, j));
                assert(self.walks(false, set![self.succs(0)[1] as int], 0, j));
                let k1 = choose|k: nat| self.walk_within(false, set![1int], 0, j, k);
                self.lemma_walk_stays(false, set![1int], 0, set![1int], j, k1);
                let k2 = choose|k: nat| self.walk_within(false, set![2int], 0, j, k);
                self.lemma_walk_stays(false, set![2int], 0, set![2int], j, k2);
            }
        }
        assert(self.join_of(0) is None);
        reveal_with_fuel(Graph::block, 3);
        reveal_with_fuel(Graph::body, 3);
        reveal_with_fuel(Graph::jump, 3);
        reveal_with_fuel(crate::structure::find_header, 3);
        reveal_with_fuel(crate::structure::find_exit, 3);
        let none: Seq<crate::structure::Frame> = seq![];
        let open = seq![crate::structure::Frame { header: 0, exit: Some(2int) }] + none;
        assert(open.len() == 1 && open[0].header == 0 && open[0].exit == Some(2int));
        assert(self.jump(1, 0, open, None) =~= seq![TreeView::Continue(0)]);
        assert(self.jump(0, 1, open, None) =~= leaves(self.blocks@[1].statements@).push(
            TreeView::Continue(0),
        ));
        assert(self.jump(0, 2, open, None) =~= seq![TreeView::Break(0)]);
        assert(self.jump(0, 2, none, None) == leaves(self.blocks@[2].statements@).push(
            TreeView::Return,
        ));
        assert(self.body(0, open, None) =~= leaves(self.blocks@[0].statements@).push(
            TreeView::If(
                self.blocks@[0].terminator->discr,
                Box::new(
                    TreeView::Sequence(
                        leaves(self.blocks@[1].statements@).push(TreeView::Continue(0)),
                    ),
                ),
                Box::new(TreeView::Sequence(seq![TreeView::Break(0)])),
            ),
        ));
        assert(self.block(0, none, None) =~= seq![
            TreeView::Loop(Box::new(TreeView::Sequence(self.body(0, open, None)))),
        ] + leaves(self.blocks@[2].statements@).push(TreeView::Return));
    }
}

} // verus!
