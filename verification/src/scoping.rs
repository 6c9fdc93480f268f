//! Why every jump of a reducible graph finds its target: a block that is not yet
//! run lies after the block that control comes from, and a block that was run
//! heads a loop that is open.

use crate::reach::lemma_distinct_ints;
use crate::structure::{find_exit, find_header, lemma_find_header_bound, Frame};
use crate::ullbc::Graph;
use vstd::prelude::*;

verus! {

/// Whether a loop with header `h` is open.
pub open spec fn has_header(stack: Seq<Frame>, h: int) -> bool {
    exists|i: int| 0 <= i < stack.len() && (#[trigger] stack[i]).header == h
}

impl Graph {
    /// Whether every loop that `b` belongs to is open.
    pub open spec fn inside(self, b: int, stack: Seq<Frame>) -> bool {
        forall|h: int| #[trigger] self.in_loop(h, b) ==> has_header(stack, h)
    }

    /// Whether every loop that `b` belongs to and does not head is open.
    pub open spec fn enters(self, b: int, stack: Seq<Frame>) -> bool {
        forall|h: int| #[trigger] self.in_loop(h, b) && h != b ==> has_header(stack, h)
    }

    /// Whether the open loops and the block that falling off the end leads to name blocks.
    pub open spec fn scoped(self, stack: Seq<Frame>, next: Option<int>) -> bool {
        &&& next is Some ==> 0 <= next->0 < self.size()
        &&& forall|i: int|
            0 <= i < stack.len() ==> {
                &&& 0 <= (#[trigger] stack[i]).header < self.size()
                &&& stack[i].exit is Some ==> 0 <= stack[i].exit->0 < self.size()
            }
    }

    /// Whether a jump from `from` to `t` finds its target: `t` is where falling off the
    /// end leads, or heads an open loop, or is the exit of one, or lies after `from`
    /// with every loop around it open.
    pub open spec fn jump_ok(self, from: int, t: int, stack: Seq<Frame>, next: Option<int>) -> bool {
        ||| next == Some(t)
        ||| find_header(stack, t, 0) is Some
        ||| find_exit(stack, t, 0) is Some
        ||| (self.before(from, t) && self.enters(t, stack))
    }

    /// What is reached within `a` steps is reached within any more.
    pub proof fn lemma_walk_monotone(
        self,
        rev: bool,
        seeds: Set<int>,
        avoid: int,
        x: int,
        a: nat,
        b: nat,
    )
        requires
            self.walk_within(rev, seeds, avoid, x, a),
            a <= b,
        ensures
            self.walk_within(rev, seeds, avoid, x, b),
        decreases a,
    {
        if !seeds.contains(x) {
            let p = choose|p: int|
                self.walk_within(rev, seeds, avoid, p, (a - 1) as nat) && #[trigger] self.step(
                    rev,
                    p,
                    x,
                );
            self.lemma_walk_monotone(rev, seeds, avoid, p, (a - 1) as nat, (b - 1) as nat);
        }
    }

    /// One step from what is reached leads to what is reached, unless to `avoid`.
    pub proof fn lemma_walk_extend(self, rev: bool, seeds: Set<int>, avoid: int, x: int, y: int)
        requires
            self.walks(rev, seeds, avoid, x),
            self.step(rev, x, y),
            y != avoid,
        ensures
            self.walks(rev, seeds, avoid, y),
    {
        let k = choose|k: nat| self.walk_within(rev, seeds, avoid, x, k);
        assert(self.walk_within(rev, seeds, avoid, y, k + 1));
    }

    /// A block with an edge into a member of a loop, the header apart, is a member.
    pub proof fn lemma_loop_closed(self, h: int, b: int, t: int)
        requires
            self.edge(b, t),
            self.in_loop(h, t),
            h != t,
        ensures
            self.in_loop(h, b),
    {
        if b != h {
            self.lemma_walk_extend(true, self.latches(h), h, t, b);
        }
    }

    /// The source of a back edge belongs to the loop of its target.
    pub proof fn lemma_latch_in_loop(self, u: int, h: int)
        requires
            self.back_edge(u, h),
        ensures
            self.in_loop(h, u),
    {
        if u != h {
            assert(self.latches(h).contains(u));
            assert(self.walk_within(true, self.latches(h), h, u, 0));
        }
    }

    /// A block that round `i` numbers, if it numbers one.
    pub open spec fn numbered_in(self, i: nat) -> int {
        choose|w: int| self.has_rank(w, i)
    }

    /// Every round up to the one that numbers `x` numbers a block.
    pub proof fn lemma_round_used(self, x: int, r: nat, i: nat)
        requires
            self.has_rank(x, r),
            i <= r,
        ensures
            exists|w: int| self.has_rank(w, i),
    {
        if forall|w: int| !self.has_rank(w, i) {
            assert forall|y: int| self.placed_within(y, i + 1) implies self.placed_within(y, i) by {
                assert(!self.has_rank(y, i));
            }
            self.lemma_rounds_settle(i, x, r + 1);
            self.lemma_placed_monotone(x, i, r);
        }
    }

    /// There are no more rounds that number a block than there are blocks.
    pub proof fn lemma_round_bound(self, x: int, r: nat)
        requires
            self.has_rank(x, r),
        ensures
            r < self.size(),
    {
        let w = Seq::new(r + 1, |i: int| self.numbered_in(i as nat));
        assert forall|i: int| 0 <= i < w.len() implies self.has_rank(#[trigger] w[i], i as nat) by {
            self.lemma_round_used(x, r, i as nat);
        }
        assert(w.no_duplicates()) by {
            assert forall|i: int, j: int| 0 <= i < w.len() && 0 <= j < w.len() && i != j implies w[i]
                != w[j] by {
                assert(self.has_rank(w[i], i as nat));
                assert(self.has_rank(w[j], j as nat));
                if w[i] == w[j] {
                    self.lemma_rank_unique(w[i], i as nat, j as nat);
                }
            }
        }
        assert forall|i: int| 0 <= i < w.len() implies 0 <= #[trigger] w[i] < self.size() by {
            assert(self.has_rank(w[i], i as nat));
        }
        lemma_distinct_ints(w, self.size() as nat);
    }

    /// In a reducible graph an edge that does not lead onwards in the order is a back edge.
    pub proof fn lemma_retreating_is_back(self, b: int, t: int)
        requires
            self.reducible(),
            self.edge(b, t),
            !self.before(b, t),
        ensures
            self.back_edge(b, t),
    {
        if self.forward_edge(b, t) {
            self.lemma_least_round(b);
            self.lemma_least_round(t);
            self.lemma_rank_rises(b, t, self.least_round(b), self.least_round(t));
            self.lemma_round_bound(t, self.least_round(t));
        }
    }

    /// A jump along an edge finds its target where every loop around the source is open.
    pub proof fn lemma_edge_jump_ok(self, b: int, t: int, stack: Seq<Frame>, next: Option<int>)
        requires
            self.reducible(),
            self.edge(b, t),
            self.inside(b, stack),
        ensures
            self.jump_ok(b, t, stack, next),
    {
        lemma_find_header_bound(stack, t, 0);
        if self.before(b, t) {
            assert forall|h: int| #[trigger] self.in_loop(h, t) && h != t implies has_header(
                stack,
                h,
            ) by {
                self.lemma_loop_closed(h, b, t);
            }
        } else {
            self.lemma_retreating_is_back(b, t);
            self.lemma_latch_in_loop(b, t);
            assert(has_header(stack, t));
        }
    }

    /// What `p` reaches, a block with an edge to `p` reaches too.
    pub proof fn lemma_walk_prepend(self, x: int, p: int, avoid: int, u: int, k: nat)
        requires
            self.edge(x, p),
            x != avoid,
            self.walk_within(false, set![p], avoid, u, k),
        ensures
            self.walk_within(false, set![x], avoid, u, k + 1),
        decreases k,
    {
        assert(self.walk_within(false, set![x], avoid, x, 0));
        if u == p {
            assert(self.step(false, x, p));
            assert(self.walk_within(false, set![x], avoid, p, 1));
            self.lemma_walk_monotone(false, set![x], avoid, p, 1, k + 1);
        } else {
            let q = choose|q: int|
                self.walk_within(false, set![p], avoid, q, (k - 1) as nat) && #[trigger] self.step(
                    false,
                    q,
                    u,
                );
            self.lemma_walk_prepend(x, p, avoid, q, (k - 1) as nat);
            assert(self.step(false, q, u));
        }
    }

    /// A block that reaches a seed against the edges is a block that a walk along the
    /// edges leads from to that seed.
    pub proof fn lemma_walk_reversed(self, seeds: Set<int>, avoid: int, x: int, k: nat) -> (u: int)
        requires
            self.walk_within(true, seeds, avoid, x, k),
        ensures
            seeds.contains(u),
            self.walks(false, set![x], avoid, u),
        decreases k,
    {
        if seeds.contains(x) {
            assert(self.walk_within(false, set![x], avoid, x, 0));
            x
        } else {
            let p = choose|p: int|
                self.walk_within(true, seeds, avoid, p, (k - 1) as nat) && #[trigger] self.step(
                    true,
                    p,
                    x,
                );
            let u = self.lemma_walk_reversed(seeds, avoid, p, (k - 1) as nat);
            let j = choose|j: nat| self.walk_within(false, set![p], avoid, u, j);
            self.lemma_walk_prepend(x, p, avoid, u, j);
            u
        }
    }

    /// The entry belongs to no loop but one that it heads itself.
    pub proof fn lemma_entry_outside(self, h: int)
        requires
            self.in_loop(h, self.entry as int),
        ensures
            h == self.entry,
    {
        if h != self.entry {
            let k = choose|k: nat|
                self.walk_within(true, self.latches(h), h, self.entry as int, k);
            let u = self.lemma_walk_reversed(self.latches(h), h, self.entry as int, k);
            assert(self.back_edge(u, h));
            let j = choose|j: nat|
                self.walk_within(false, set![self.entry as int], h, u, j);
        }
    }
}

} // verus!
