//! Structuring: from the blocks of a graph to a tree of branches and loops.

use crate::analysis::{flags_match, lemma_reach_bridge, lists_match, no_flags, Analysis};
use crate::common::ensure_sufficient_stack;
use crate::llbc::{Tree, TreeView};
use crate::reach::{closure, links};
use crate::ullbc::{Graph, Statement, SwitchTargets, Terminator};
use crate::values::ScalarValue;
use vstd::prelude::*;

verus! {

/// A loop that is open at some place in the tree.
pub struct Frame {
    /// The header of the loop.
    pub header: int,
    /// The block where control goes on when the loop is left, if there is one.
    pub exit: Option<int>,
}

/// The index of the innermost open loop with header `t`, searching from frame `k` outwards.
pub open spec fn find_header(stack: Seq<Frame>, t: int, k: nat) -> Option<nat>
    decreases stack.len() - k,
{
    if k >= stack.len() {
        None
    } else if stack[k as int].header == t {
        Some(k)
    } else {
        find_header(stack, t, k + 1)
    }
}

/// The index of the innermost open loop with exit `t`, searching from frame `k` outwards.
pub open spec fn find_exit(stack: Seq<Frame>, t: int, k: nat) -> Option<nat>
    decreases stack.len() - k,
{
    if k >= stack.len() {
        None
    } else if stack[k as int].exit == Some(t) {
        Some(k)
    } else {
        find_exit(stack, t, k + 1)
    }
}

/// The statements as leaves.
pub open spec fn leaves(stmts: Seq<Statement>) -> Seq<TreeView> {
    Seq::new(stmts.len(), |i: int| TreeView::Leaf(stmts[i]))
}

impl Graph {
    /// Whether `b` is the closest strict dominator of `j`: the least block that is one.
    pub open spec fn immediately_dominates(self, b: int, j: int) -> bool {
        self.is_idom(b, j) && forall|e: int| 0 <= e < b ==> !self.is_idom(e, j)
    }

    /// Whether `x` and `y` lie in the same loops, but for a loop that `y` itself heads.
    pub open spec fn same_loops(self, x: int, y: int) -> bool {
        forall|h: int|
            0 <= h < self.size() && h != y ==> (#[trigger] self.in_loop(h, x) == self.in_loop(h, y))
    }

    /// Whether `b` comes before `t` in the order of the blocks.
    pub open spec fn before(self, b: int, t: int) -> bool {
        self.least_round(b) < self.least_round(t) < self.size()
    }

    /// Whether `j` can be the join point of the branch that ends `b`: `b` is its closest
    /// strict dominator, it lies after `b` and in the same loops, and every arm reaches it
    /// without coming back through `b`.
    pub open spec fn join_candidate(self, b: int, j: int) -> bool {
        &&& 0 <= j < self.size()
        &&& self.immediately_dominates(b, j)
        &&& self.before(b, j)
        &&& self.same_loops(b, j)
        &&& forall|k: int|
            0 <= k < self.succs(b).len() ==> self.walks(
                false,
                set![#[trigger] self.succs(b)[k] as int],
                b,
                j,
            )
    }

    /// Whether `j` is the join point of the branch that ends `b`: the least candidate.
    pub open spec fn is_join(self, b: int, j: int) -> bool {
        self.join_candidate(b, j) && forall|i: int| 0 <= i < j ==> !self.join_candidate(b, i)
    }

    /// The join point of the branch that ends `b`, if it has one.
    pub open spec fn join_of(self, b: int) -> Option<int> {
        if exists|j: int| self.is_join(b, j) {
            Some(choose|j: int| self.is_join(b, j))
        } else {
            None
        }
    }

    /// Whether control can go on at `e` when the loop of `h` is left: `e` lies outside
    /// the loop and after `h`, a member has an edge to it, and every loop around `e`
    /// that `e` does not head lies around `h` too.
    pub open spec fn exit_candidate(self, h: int, e: int) -> bool {
        &&& 0 <= e < self.size()
        &&& !self.in_loop(h, e)
        &&& self.before(h, e)
        &&& exists|m: int| self.in_loop(h, m) && #[trigger] self.edge(m, e)
        &&& forall|k: int|
            0 <= k < self.size() && k != e && #[trigger] self.in_loop(k, e) ==> self.in_loop(k, h)
    }

    /// Whether `e` is the exit of the loop of `h`: the least candidate.
    pub open spec fn is_exit(self, h: int, e: int) -> bool {
        self.exit_candidate(h, e) && forall|i: int| 0 <= i < e ==> !self.exit_candidate(h, i)
    }

    /// The exit of the loop of `h`, if it has one.
    pub open spec fn exit_of(self, h: int) -> Option<int> {
        if exists|e: int| self.is_exit(h, e) {
            Some(choose|e: int| self.is_exit(h, e))
        } else {
            None
        }
    }

    /// What remains to be run when control passes from `from` to `t`, with `stack` the
    /// open loops, innermost first, and `next` the block that control reaches by
    /// falling off the end: nothing where `t` is that block, a `Continue` where `t`
    /// heads an open loop, a `Break` where `t` is the exit of one, else the code of `t`.
    /// The code of `t` is only asked for where `t` comes after `from` in the order of
    /// the graph, which is what lets the definition end; in a reducible graph every
    /// other edge leads to the header of an open loop.
    pub open spec fn jump(
        self,
        from: int,
        t: int,
        stack: Seq<Frame>,
        next: Option<int>,
    ) -> Seq<TreeView>
        decreases self.size() - self.least_round(from), 0nat,
    {
        if next == Some(t) {
            seq![]
        } else if find_header(stack, t, 0) is Some {
            seq![TreeView::Continue(find_header(stack, t, 0)->0)]
        } else if find_exit(stack, t, 0) is Some {
            seq![TreeView::Break(find_exit(stack, t, 0)->0)]
        } else if self.before(from, t) {
            self.block(t, stack, next)
        } else {
            seq![]
        }
    }

    /// The code of block `b` and of what follows it: a loop where `b` is a header,
    /// followed by what remains at the loop's exit.
    pub open spec fn block(self, b: int, stack: Seq<Frame>, next: Option<int>) -> Seq<TreeView>
        decreases self.size() - self.least_round(b), 2nat,
    {
        if self.is_header(b) {
            let e = self.exit_of(b);
            let inner = seq![Frame { header: b, exit: e }] + stack;
            let looped = TreeView::Loop(Box::new(TreeView::Sequence(self.body(b, inner, None))));
            match e {
                Some(e) => seq![looped] + self.jump(b, e, stack, next),
                None => seq![looped],
            }
        } else {
            self.body(b, stack, next)
        }
    }

    /// The statements of block `b`, then what its terminator leads to.
    pub open spec fn body(self, b: int, stack: Seq<Frame>, next: Option<int>) -> Seq<TreeView>
        decreases self.size() - self.least_round(b), 1nat,
    {
        let prefix = leaves(self.blocks@[b].statements@);
        match self.blocks@[b].terminator {
            Terminator::Return => prefix.push(TreeView::Return),
            Terminator::Abort(kind) => prefix.push(TreeView::Abort(kind)),
            Terminator::Goto { target } => prefix + self.jump(b, target as int, stack, next),
            Terminator::Switch { discr, targets } => {
                let join = self.join_of(b);
                let inner = if join is Some {
                    join
                } else {
                    next
                };
                let rest = match join {
                    Some(j) => self.jump(b, j, stack, next),
                    None => seq![],
                };
                match targets {
                    SwitchTargets::If(t1, t2) => prefix.push(
                        TreeView::If(
                            discr,
                            Box::new(TreeView::Sequence(self.jump(b, t1 as int, stack, inner))),
                            Box::new(TreeView::Sequence(self.jump(b, t2 as int, stack, inner))),
                        ),
                    ) + rest,
                    SwitchTargets::SwitchInt(ty, arms, otherwise) => prefix.push(
                        TreeView::Switch(
                            discr,
                            ty,
                            Seq::new(arms@.len(), |i: int| arms@[i].0),
                            Seq::new(
                                arms@.len(),
                                |i: int|
                                    TreeView::Sequence(
                                        self.jump(b, arms@[i].1 as int, stack, inner),
                                    ),
                            ),
                            Box::new(
                                TreeView::Sequence(self.jump(b, otherwise as int, stack, inner)),
                            ),
                        ),
                    ) + rest,
                }
            },
        }
    }

    /// The structured form of the graph.
    pub open spec fn tree(self) -> TreeView {
        TreeView::Sequence(self.block(self.entry as int, seq![], None))
    }
}

/// A loop that is open while its body is built.
#[derive(Clone, Copy, Debug)]
pub struct Scope {
    /// The header of the loop.
    pub header: usize,
    /// The block where control goes on when the loop is left, if there is one.
    pub exit: Option<usize>,
}

/// A block, if any, as a mathematical value.
pub open spec fn some_block(b: Option<usize>) -> Option<int> {
    match b {
        Some(x) => Some(x as int),
        None => None,
    }
}

/// The open loops as mathematical values.
pub open spec fn frames(stack: Seq<Scope>) -> Seq<Frame> {
    Seq::new(
        stack.len(),
        |i: int| Frame { header: stack[i].header as int, exit: some_block(stack[i].exit) },
    )
}

/// The trees as mathematical values.
pub open spec fn views(trees: Seq<Tree>) -> Seq<TreeView> {
    Seq::new(trees.len(), |i: int| trees[i]@)
}

/// Whether the graph is closed and reducible and the facts are its own.
pub open spec fn prepared(g: Graph, a: Analysis) -> bool {
    &&& g.closed()
    &&& a.describes(g)
    &&& forall|x: int| 0 <= x < g.size() ==> (#[trigger] a.rank@[x]) < g.size()
}

/// A sequence node shows the views of its items.
pub proof fn lemma_sequence_view(items: Vec<Tree>)
    ensures
        Tree::Sequence(items)@ == TreeView::Sequence(views(items@)),
{
    assert(Tree::Sequence(items)@->Sequence_0 =~= views(items@));
}

/// The views of two lists, one after the other, are the views of the joined list.
pub proof fn lemma_views_add(a: Seq<Tree>, b: Seq<Tree>)
    ensures
        views(a + b) == views(a) + views(b),
{
    assert(views(a + b) =~= views(a) + views(b));
}

/// With the facts of a reducible graph, the rank in the table is the round of the block.
pub proof fn lemma_rank_is_round(g: Graph, a: Analysis, x: int)
    requires
        prepared(g, a),
        0 <= x < g.size(),
    ensures
        g.least_round(x) == a.rank@[x],
        g.orderable(x),
{
    assert(g.has_rank(x, a.rank@[x] as nat));
    assert(g.placed_within(x, (a.rank@[x] + 1) as nat));
    g.lemma_least_round(x);
    g.lemma_rank_unique(x, g.least_round(x), a.rank@[x] as nat);
}

/// Looks for the innermost open loop with header `t`.
pub fn seek_header(stack: &Vec<Scope>, t: usize) -> (r: Option<usize>)
    ensures
        match r {
            Some(k) => find_header(frames(stack@), t as int, 0) == Some(k as nat),
            None => find_header(frames(stack@), t as int, 0) is None,
        },
{
    let mut k: usize = 0;
    while k < stack.len()
        invariant
            k <= stack@.len(),
            find_header(frames(stack@), t as int, 0) == find_header(
                frames(stack@),
                t as int,
                k as nat,
            ),
        decreases stack@.len() - k,
    {
        if stack[k].header == t {
            return Some(k);
        }
        k = k + 1;
    }
    None
}

/// Looks for the innermost open loop with exit `t`.
pub fn seek_exit(stack: &Vec<Scope>, t: usize) -> (r: Option<usize>)
    ensures
        match r {
            Some(k) => find_exit(frames(stack@), t as int, 0) == Some(k as nat),
            None => find_exit(frames(stack@), t as int, 0) is None,
        },
{
    let mut k: usize = 0;
    while k < stack.len()
        invariant
            k <= stack@.len(),
            find_exit(frames(stack@), t as int, 0) == find_exit(frames(stack@), t as int, k as nat),
        decreases stack@.len() - k,
    {
        let hit = match stack[k].exit {
            Some(e) => e == t,
            None => false,
        };
        if hit {
            return Some(k);
        }
        k = k + 1;
    }
    None
}

/// The open loops with one more, innermost.
pub fn open_loop(stack: &Vec<Scope>, header: usize, exit: Option<usize>) -> (inner: Vec<Scope>)
    ensures
        frames(inner@) == seq![Frame { header: header as int, exit: some_block(exit) }] + frames(
            stack@,
        ),
{
    let mut inner: Vec<Scope> = Vec::new();
    inner.push(Scope { header, exit });
    let mut k: usize = 0;
    while k < stack.len()
        invariant
            k <= stack@.len(),
            inner@.len() == k + 1,
            inner@[0] == (Scope { header, exit }),
            forall|i: int| 0 <= i < k ==> inner@[i + 1] == stack@[i],
        decreases stack@.len() - k,
    {
        inner.push(stack[k]);
        k = k + 1;
    }
    proof {
        assert(frames(inner@) =~= seq![Frame { header: header as int, exit: some_block(exit) }]
            + frames(stack@));
    }
    inner
}

/// The statements of a block as leaves.
pub fn leaf_list(stmts: &Vec<Statement>) -> (r: Vec<Tree>)
    ensures
        views(r@) == leaves(stmts@),
{
    let mut r: Vec<Tree> = Vec::new();
    let mut i: usize = 0;
    while i < stmts.len()
        invariant
            i <= stmts@.len(),
            r@.len() == i,
            forall|k: int| 0 <= k < i ==> (#[trigger] r@[k])@ == TreeView::Leaf(stmts@[k]),
        decreases stmts@.len() - i,
    {
        r.push(Tree::Leaf(stmts[i].duplicate()));
        i = i + 1;
    }
    proof {
        assert(views(r@) =~= leaves(stmts@));
    }
    r
}

impl Graph {
    /// Whether `x` and `y` lie in the same loops, but for a loop that `y` itself heads.
    pub fn in_same_loops(&self, a: &Analysis, x: usize, y: usize) -> (r: bool)
        requires
            prepared(*self, *a),
            x < self.size(),
            y < self.size(),
        ensures
            r == self.same_loops(x as int, y as int),
    {
        let n = self.blocks.len();
        let mut h: usize = 0;
        while h < n
            invariant
                n == self.size(),
                prepared(*self, *a),
                x < n,
                y < n,
                h <= n,
                forall|k: int|
                    0 <= k < h && k != y ==> (#[trigger] self.in_loop(k, x as int) == self.in_loop(
                        k,
                        y as int,
                    )),
            decreases n - h,
        {
            if h != y && a.members[h][x] != a.members[h][y] {
                assert(self.in_loop(h as int, x as int) != self.in_loop(h as int, y as int));
                return false;
            }
            h = h + 1;
        }
        true
    }

    /// For every arm of the branch that ends `b`, the blocks that the arm reaches
    /// without coming back through `b`.
    pub fn arm_reach(&self, a: &Analysis, b: usize) -> (reach: Vec<Vec<bool>>)
        requires
            prepared(*self, *a),
            b < self.size(),
        ensures
            reach@.len() == self.succs(b as int).len(),
            forall|k: int| 0 <= k < reach@.len() ==> (#[trigger] reach@[k])@.len() == self.size(),
            forall|k: int, x: int|
                0 <= k < reach@.len() && 0 <= x < self.size() ==> reach@[k]@[x] == self.walks(
                    false,
                    set![self.succs(b as int)[k] as int],
                    b as int,
                    x,
                ),
    {
        let n = self.blocks.len();
        let arms = self.blocks[b].terminator.successor_list();
        let mut reach: Vec<Vec<bool>> = Vec::new();
        let mut k: usize = 0;
        while k < arms.len()
            invariant
                n == self.size(),
                prepared(*self, *a),
                b < n,
                arms@ == self.succs(b as int),
                k <= arms@.len(),
                reach@.len() == k,
                forall|i: int| 0 <= i < k ==> (#[trigger] reach@[i])@.len() == n,
                forall|i: int, x: int|
                    0 <= i < k && 0 <= x < n ==> reach@[i]@[x] == self.walks(
                        false,
                        set![self.succs(b as int)[i] as int],
                        b as int,
                        x,
                    ),
            decreases arms@.len() - k,
        {
            let t = arms[k];
            assert(t < n) by {
                assert(self.succs(b as int)[k as int] < self.size());
            }
            let mut seeds = no_flags(n);
            seeds.set(t, true);
            let marks = closure(&a.succs, &seeds, b);
            proof {
                assert(flags_match(self.size(), seeds@, set![t as int]));
                assert forall|x: int| 0 <= x < n implies marks@[x] == self.walks(
                    false,
                    set![t as int],
                    b as int,
                    x,
                ) by {
                    lemma_reach_bridge(*self, false, a.succs@, seeds@, set![t as int], b as int, x);
                }
            }
            reach.push(marks);
            k = k + 1;
        }
        reach
    }

    /// Whether the flag of `j` is up in every row.
    fn in_every_row(reach: &Vec<Vec<bool>>, j: usize) -> (r: bool)
        requires
            forall|k: int| 0 <= k < reach@.len() ==> j < (#[trigger] reach@[k])@.len(),
        ensures
            r == forall|k: int| 0 <= k < reach@.len() ==> (#[trigger] reach@[k])@[j as int],
    {
        let mut k: usize = 0;
        while k < reach.len()
            invariant
                k <= reach@.len(),
                forall|i: int| 0 <= i < reach@.len() ==> j < (#[trigger] reach@[i])@.len(),
                forall|i: int| 0 <= i < k ==> (#[trigger] reach@[i])@[j as int],
            decreases reach@.len() - k,
        {
            if !reach[k][j] {
                return false;
            }
            k = k + 1;
        }
        true
    }

    /// The join point of the branch that ends `b`, if it has one.
    pub fn join_point(&self, a: &Analysis, b: usize) -> (r: Option<usize>)
        requires
            prepared(*self, *a),
            b < self.size(),
        ensures
            some_block(r) == self.join_of(b as int),
            r is Some ==> r->0 < self.size(),
    {
        let n = self.blocks.len();
        let reach = self.arm_reach(a, b);
        let mut j: usize = 0;
        while j < n
            invariant
                n == self.size(),
                prepared(*self, *a),
                b < n,
                j <= n,
                reach@.len() == self.succs(b as int).len(),
                forall|k: int| 0 <= k < reach@.len() ==> (#[trigger] reach@[k])@.len() == n,
                forall|k: int, x: int|
                    0 <= k < reach@.len() && 0 <= x < n ==> reach@[k]@[x] == self.walks(
                        false,
                        set![self.succs(b as int)[k] as int],
                        b as int,
                        x,
                    ),
                forall|i: int| 0 <= i < j ==> !self.join_candidate(b as int, i),
            decreases n - j,
        {
            let closest = match a.idom[j] {
                Some(d) => d == b,
                None => false,
            };
            proof {
                lemma_rank_is_round(*self, *a, b as int);
                lemma_rank_is_round(*self, *a, j as int);
                assert(closest == self.immediately_dominates(b as int, j as int)) by {
                    if self.immediately_dominates(b as int, j as int) {
                        match a.idom@[j as int] {
                            Some(d) => {
                                if d < b {
                                    assert(!self.is_idom(d as int, j as int));
                                }
                                if b < d {
                                    assert(!self.is_idom(b as int, j as int));
                                }
                            },
                            None => {
                                assert(!self.is_idom(b as int, j as int));
                            },
                        }
                    }
                }
            }
            if closest && a.rank[b] < a.rank[j] {
                let same = self.in_same_loops(a, b, j);
                if same {
                    let all = Self::in_every_row(&reach, j);
                    proof {
                        assert(all == forall|k: int|
                            0 <= k < self.succs(b as int).len() ==> self.walks(
                                false,
                                set![#[trigger] self.succs(b as int)[k] as int],
                                b as int,
                                j as int,
                            )) by {
                            if all {
                                assert forall|k: int|
                                    0 <= k < self.succs(b as int).len() implies self.walks(
                                    false,
                                    set![#[trigger] self.succs(b as int)[k] as int],
                                    b as int,
                                    j as int,
                                ) by {
                                    assert(reach@[k]@[j as int]);
                                }
                            } else {
                                let k = choose|k: int|
                                    0 <= k < reach@.len() && !(#[trigger] reach@[k])@[j as int];
                                assert(!self.walks(
                                    false,
                                    set![self.succs(b as int)[k] as int],
                                    b as int,
                                    j as int,
                                ));
                            }
                        }
                    }
                    if all {
                        proof {
                            assert(self.is_join(b as int, j as int));
                            let c = choose|c: int| self.is_join(b as int, c);
                            if c < j {
                                assert(!self.join_candidate(b as int, c));
                            }
                            if j < c {
                                assert(!self.join_candidate(b as int, j as int));
                            }
                        }
                        return Some(j);
                    }
                }
            }
            j = j + 1;
        }
        None
    }

    /// Whether a member of the loop of `h` has an edge to `e`.
    fn entered_from_loop(&self, a: &Analysis, h: usize, e: usize) -> (r: bool)
        requires
            prepared(*self, *a),
            h < self.size(),
            e < self.size(),
        ensures
            r == exists|m: int| self.in_loop(h as int, m) && #[trigger] self.edge(m, e as int),
    {
        let n = self.blocks.len();
        let mut i: usize = 0;
        while i < a.preds[e].len()
            invariant
                n == self.size(),
                prepared(*self, *a),
                h < n,
                e < n,
                i <= a.preds@[e as int]@.len(),
                forall|k: int|
                    0 <= k < i ==> !self.in_loop(
                        h as int,
                        (#[trigger] a.preds@[e as int]@[k]) as int,
                    ),
            decreases a.preds@[e as int]@.len() - i,
        {
            let m = a.preds[e][i];
            proof {
                assert(a.preds@[e as int]@.contains(m));
                assert(m < n);
                assert(links(a.preds@, e as int, m as int) == self.step(true, e as int, m as int));
            }
            if a.members[h][m] {
                assert(self.in_loop(h as int, m as int) && self.edge(m as int, e as int));
                return true;
            }
            i = i + 1;
        }
        proof {
            assert forall|m: int| self.in_loop(h as int, m) implies !#[trigger] self.edge(
                m,
                e as int,
            ) by {
                if self.edge(m, e as int) {
                    assert(links(a.preds@, e as int, m) == self.step(true, e as int, m));
                    assert(self.blocks.len() <= usize::MAX);
                    assert(a.preds@[e as int]@.contains(m as usize));
                    let k = choose|k: int|
                        0 <= k < a.preds@[e as int]@.len() && a.preds@[e as int]@[k] == m as usize;
                    assert(!self.in_loop(h as int, a.preds@[e as int]@[k] as int));
                }
            }
        }
        false
    }

    /// Whether every loop around `e` that `e` does not head lies around `h` too.
    fn loops_enclose(&self, a: &Analysis, h: usize, e: usize) -> (r: bool)
        requires
            prepared(*self, *a),
            h < self.size(),
            e < self.size(),
        ensures
            r == forall|k: int|
                0 <= k < self.size() && k != e && #[trigger] self.in_loop(k, e as int)
                    ==> self.in_loop(k, h as int),
    {
        let n = self.blocks.len();
        let mut k: usize = 0;
        while k < n
            invariant
                n == self.size(),
                prepared(*self, *a),
                h < n,
                e < n,
                k <= n,
                forall|i: int|
                    0 <= i < k && i != e && #[trigger] self.in_loop(i, e as int) ==> self.in_loop(
                        i,
                        h as int,
                    ),
            decreases n - k,
        {
            if k != e && a.members[k][e] && !a.members[k][h] {
                assert(self.in_loop(k as int, e as int) && !self.in_loop(k as int, h as int));
                return false;
            }
            k = k + 1;
        }
        true
    }

    /// The exit of the loop of `h`, if it has one.
    pub fn loop_exit(&self, a: &Analysis, h: usize) -> (r: Option<usize>)
        requires
            prepared(*self, *a),
            h < self.size(),
        ensures
            some_block(r) == self.exit_of(h as int),
            r is Some ==> r->0 < self.size(),
    {
        let n = self.blocks.len();
        let mut e: usize = 0;
        while e < n
            invariant
                n == self.size(),
                prepared(*self, *a),
                h < n,
                e <= n,
                forall|i: int| 0 <= i < e ==> !self.exit_candidate(h as int, i),
            decreases n - e,
        {
            proof {
                lemma_rank_is_round(*self, *a, h as int);
                lemma_rank_is_round(*self, *a, e as int);
            }
            if !a.members[h][e] && a.rank[h] < a.rank[e] {
                let entered = self.entered_from_loop(a, h, e);
                if entered {
                    let enclosed = self.loops_enclose(a, h, e);
                    if enclosed {
                        proof {
                            assert(self.is_exit(h as int, e as int));
                            let c = choose|c: int| self.is_exit(h as int, c);
                            if c < e {
                                assert(!self.exit_candidate(h as int, c));
                            }
                            if e < c {
                                assert(!self.exit_candidate(h as int, e as int));
                            }
                        }
                        return Some(e);
                    }
                }
            }
            e = e + 1;
        }
        None
    }
}

impl Graph {
    /// Builds what remains to be run when control passes from `from` to `t`.
    pub fn build_jump(
        &self,
        a: &Analysis,
        from: usize,
        t: usize,
        stack: &Vec<Scope>,
        next: Option<usize>,
    ) -> (r: Vec<Tree>)
        requires
            prepared(*self, *a),
            from < self.size(),
            t < self.size(),
        ensures
            views(r@) == self.jump(from as int, t as int, frames(stack@), some_block(next)),
        decreases self.size() - self.least_round(from as int), 0nat,
    {
        let falls = match next {
            Some(x) => x == t,
            None => false,
        };
        if falls {
            let r: Vec<Tree> = Vec::new();
            assert(views(r@) =~= seq![]);
            return r;
        }
        match seek_header(stack, t) {
            Some(k) => {
                let r = vec![Tree::Continue(k)];
                assert(views(r@) =~= seq![TreeView::Continue(k as nat)]);
                return r;
            },
            None => {},
        }
        match seek_exit(stack, t) {
            Some(k) => {
                let r = vec![Tree::Break(k)];
                assert(views(r@) =~= seq![TreeView::Break(k as nat)]);
                return r;
            },
            None => {},
        }
        proof {
            lemma_rank_is_round(*self, *a, from as int);
            lemma_rank_is_round(*self, *a, t as int);
        }
        if a.rank[from] < a.rank[t] {
            let deeper = || -> (r: Vec<Tree>)
                ensures
                    views(r@) == self.block(t as int, frames(stack@), some_block(next)),
                {
                    self.build_block(a, t, stack, next)
                };
            ensure_sufficient_stack(deeper)
        } else {
            let r: Vec<Tree> = Vec::new();
            assert(views(r@) =~= seq![]);
            r
        }
    }

    /// Builds the code of block `b` and of what follows it.
    pub fn build_block(&self, a: &Analysis, b: usize, stack: &Vec<Scope>, next: Option<usize>) -> (r:
        Vec<Tree>)
        requires
            prepared(*self, *a),
            b < self.size(),
        ensures
            views(r@) == self.block(b as int, frames(stack@), some_block(next)),
        decreases self.size() - self.least_round(b as int), 2nat,
    {
        if a.headers[b] {
            let e = self.loop_exit(a, b);
            let inner = open_loop(stack, b, e);
            let items = self.build_body(a, b, &inner, None);
            proof {
                lemma_sequence_view(items);
            }
            let looped = Tree::Loop(Box::new(Tree::Sequence(items)));
            let mut r = vec![looped];
            match e {
                Some(e) => {
                    let mut rest = self.build_jump(a, b, e, stack, next);
                    let ghost first = r@;
                    let ghost second = rest@;
                    r.append(&mut rest);
                    proof {
                        lemma_views_add(first, second);
                        assert(views(first) =~= seq![looped@]);
                    }
                    r
                },
                None => {
                    assert(views(r@) =~= seq![looped@]);
                    r
                },
            }
        } else {
            self.build_body(a, b, stack, next)
        }
    }

    /// Builds the statements of block `b`, then what its terminator leads to.
    pub fn build_body(&self, a: &Analysis, b: usize, stack: &Vec<Scope>, next: Option<usize>) -> (r:
        Vec<Tree>)
        requires
            prepared(*self, *a),
            b < self.size(),
        ensures
            views(r@) == self.body(b as int, frames(stack@), some_block(next)),
        decreases self.size() - self.least_round(b as int), 1nat,
    {
        let mut r = leaf_list(&self.blocks[b].statements);
        let ghost prefix = r@;
        proof {
            assert(forall|k: int|
                0 <= k < self.succs(b as int).len() ==> #[trigger] self.succs(b as int)[k]
                    < self.size());
        }
        match &self.blocks[b].terminator {
            Terminator::Return => {
                r.push(Tree::Return);
                assert(views(r@) =~= views(prefix).push(TreeView::Return));
                r
            },
            Terminator::Abort(kind) => {
                let k = kind.duplicate();
                r.push(Tree::Abort(k));
                assert(views(r@) =~= views(prefix).push(TreeView::Abort(*kind)));
                r
            },
            Terminator::Goto { target } => {
                assert(self.succs(b as int)[0] == *target);
                let mut rest = self.build_jump(a, b, *target, stack, next);
                let ghost second = rest@;
                r.append(&mut rest);
                proof {
                    lemma_views_add(prefix, second);
                }
                r
            },
            Terminator::Switch { discr, targets } => {
                let join = self.join_point(a, b);
                let inner = if join.is_some() {
                    join
                } else {
                    next
                };
                let node = match targets {
                    SwitchTargets::If(t1, t2) => {
                        assert(self.succs(b as int)[0] == *t1);
                        assert(self.succs(b as int)[1] == *t2);
                        let first = self.build_jump(a, b, *t1, stack, inner);
                        let second = self.build_jump(a, b, *t2, stack, inner);
                        proof {
                            lemma_sequence_view(first);
                            lemma_sequence_view(second);
                        }
                        let node = Tree::If(
                            discr.duplicate(),
                            Box::new(Tree::Sequence(first)),
                            Box::new(Tree::Sequence(second)),
                        );
                        assert(node@ == TreeView::If(
                            *discr,
                            Box::new(Tree::Sequence(first)@),
                            Box::new(Tree::Sequence(second)@),
                        ));
                        node
                    },
                    SwitchTargets::SwitchInt(ty, arms, otherwise) => {
                        let mut built: Vec<(ScalarValue, Tree)> = Vec::new();
                        let mut i: usize = 0;
                        while i < arms.len()
                            invariant
                                prepared(*self, *a),
                                b < self.size(),
                                self.blocks@[b as int].terminator == (Terminator::Switch {
                                    discr: *discr,
                                    targets: *targets,
                                }),
                                *targets == SwitchTargets::SwitchInt(*ty, *arms, *otherwise),
                                i <= arms@.len(),
                                built@.len() == i,
                                forall|k: int|
                                    0 <= k < i ==> (#[trigger] built@[k]).0 == arms@[k].0
                                        && built@[k].1@ == TreeView::Sequence(
                                        self.jump(
                                            b as int,
                                            arms@[k].1 as int,
                                            frames(stack@),
                                            some_block(inner),
                                        ),
                                    ),
                            decreases arms@.len() - i,
                        {
                            assert(self.succs(b as int)[i as int] == arms@[i as int].1);
                            assert(self.succs(b as int)[i as int] < self.size());
                            let items = self.build_jump(a, b, arms[i].1, stack, inner);
                            proof {
                                lemma_sequence_view(items);
                            }
                            built.push((arms[i].0, Tree::Sequence(items)));
                            i = i + 1;
                        }
                        assert(self.succs(b as int)[arms@.len() as int] == *otherwise);
                        assert(self.succs(b as int)[arms@.len() as int] < self.size());
                        let last = self.build_jump(a, b, *otherwise, stack, inner);
                        proof {
                            lemma_sequence_view(last);
                        }
                        let node = Tree::Switch(discr.duplicate(), *ty, built, Box::new(Tree::Sequence(last)));
                        node
                    },
                };
                r.push(node);
                let ghost with_node = r@;
                proof {
                    assert(views(with_node) =~= views(prefix).push(node@));
                    let ghost rest = match self.join_of(b as int) {
                        Some(j) => self.jump(b as int, j, frames(stack@), some_block(next)),
                        None => seq![],
                    };
                    assert(some_block(inner) == if self.join_of(b as int) is Some {
                        self.join_of(b as int)
                    } else {
                        some_block(next)
                    });
                    if !(*targets is If) {
                        let full = self.body(b as int, frames(stack@), some_block(next));
                        let shown = full[prefix.len() as int];
                        assert(shown->Switch_2 =~= node@->Switch_2);
                        assert(shown->Switch_3 =~= node@->Switch_3);
                        assert(shown == node@);
                        assert(full =~= views(prefix).push(node@) + rest);
                    }
                }
                match join {
                    Some(j) => {
                        let mut rest = self.build_jump(a, b, j, stack, next);
                        let ghost second = rest@;
                        r.append(&mut rest);
                        proof {
                            lemma_views_add(with_node, second);
                        }
                                r
                    },
                    None => {
                        assert(views(r@) =~= views(with_node) + seq![]);
                                r
                    },
                }
            },
        }
    }
}

/// Whether every tree of the list keeps its levels within `depth` open loops
/// and names only locals below `n`.
pub open spec fn well_scoped(trees: Seq<TreeView>, depth: nat, n: int) -> bool {
    forall|i: int|
        0 <= i < trees.len() ==> (#[trigger] trees[i]).levels_valid(depth) && trees[i].locals_below(
            n,
        )
}

/// A loop that is found is among the open loops.
pub proof fn lemma_find_header_bound(stack: Seq<Frame>, t: int, k: nat)
    ensures
        match find_header(stack, t, k) {
            Some(i) => k <= i < stack.len() && stack[i as int].header == t,
            None => forall|i: int| k <= i < stack.len() ==> stack[i].header != t,
        },
    decreases stack.len() - k,
{
    if k < stack.len() && stack[k as int].header != t {
        lemma_find_header_bound(stack, t, k + 1);
    }
}

/// A loop that is found is among the open loops.
pub proof fn lemma_find_exit_bound(stack: Seq<Frame>, t: int, k: nat)
    ensures
        match find_exit(stack, t, k) {
            Some(i) => k <= i < stack.len() && stack[i as int].exit == Some(t),
            None => forall|i: int| k <= i < stack.len() ==> stack[i].exit != Some(t),
        },
    decreases stack.len() - k,
{
    if k < stack.len() && stack[k as int].exit != Some(t) {
        lemma_find_exit_bound(stack, t, k + 1);
    }
}

impl Graph {
    /// Whether every block names only locals below `n`.
    pub open spec fn names_locals_below(self, n: int) -> bool {
        forall|b: int| 0 <= b < self.size() ==> #[trigger] self.block_locals_below(b, n)
    }

    /// The join point of a branch is a block.
    pub proof fn lemma_join_is_block(self, b: int)
        ensures
            self.join_of(b) is Some ==> self.is_join(b, self.join_of(b)->0),
    {
    }

    /// The exit of a loop is a block.
    pub proof fn lemma_exit_is_block(self, h: int)
        ensures
            self.exit_of(h) is Some ==> self.is_exit(h, self.exit_of(h)->0),
    {
    }

    /// What a jump leaves to be run keeps to the open loops and to the locals of the graph.
    pub proof fn lemma_jump_scoped(
        self,
        from: int,
        t: int,
        stack: Seq<Frame>,
        next: Option<int>,
        n: int,
    )
        requires
            self.closed(),
            self.names_locals_below(n),
            0 <= t < self.size(),
        ensures
            well_scoped(self.jump(from, t, stack, next), stack.len(), n),
        decreases self.size() - self.least_round(from), 0nat,
    {
        lemma_find_header_bound(stack, t, 0);
        lemma_find_exit_bound(stack, t, 0);
        if next != Some(t) && find_header(stack, t, 0) is None && find_exit(stack, t, 0) is None
            && self.before(from, t) {
            self.lemma_block_scoped(t, stack, next, n);
        }
    }

    /// The code of a block keeps to the open loops and to the locals of the graph.
    pub proof fn lemma_block_scoped(self, b: int, stack: Seq<Frame>, next: Option<int>, n: int)
        requires
            self.closed(),
            self.names_locals_below(n),
            0 <= b < self.size(),
        ensures
            well_scoped(self.block(b, stack, next), stack.len(), n),
        decreases self.size() - self.least_round(b), 2nat,
    {
        reveal_with_fuel(TreeView::levels_valid, 3);
        reveal_with_fuel(TreeView::locals_below, 3);
        if self.is_header(b) {
            let e = self.exit_of(b);
            let inner = seq![Frame { header: b, exit: e }] + stack;
            self.lemma_body_scoped(b, inner, None, n);
            let looped = TreeView::Loop(Box::new(TreeView::Sequence(self.body(b, inner, None))));
            assert(looped.levels_valid(stack.len()) && looped.locals_below(n));
            self.lemma_exit_is_block(b);
            if e is Some {
                self.lemma_jump_scoped(b, e->0, stack, next, n);
            }
        } else {
            self.lemma_body_scoped(b, stack, next, n);
        }
    }

    /// The body of a block keeps to the open loops and to the locals of the graph.
    pub proof fn lemma_body_scoped(self, b: int, stack: Seq<Frame>, next: Option<int>, n: int)
        requires
            self.closed(),
            self.names_locals_below(n),
            0 <= b < self.size(),
        ensures
            well_scoped(self.body(b, stack, next), stack.len(), n),
        decreases self.size() - self.least_round(b), 1nat,
    {
        reveal_with_fuel(TreeView::levels_valid, 3);
        reveal_with_fuel(TreeView::locals_below, 3);
        let prefix = leaves(self.blocks@[b].statements@);
        assert(self.block_locals_below(b, n));
        assert(well_scoped(prefix, stack.len(), n)) by {
            assert forall|i: int| 0 <= i < prefix.len() implies (#[trigger] prefix[i]).levels_valid(
                stack.len(),
            ) && prefix[i].locals_below(n) by {
                assert(self.blocks@[b].statements@[i].locals_below(n));
            }
        }
        assert(forall|k: int|
            0 <= k < self.succs(b).len() ==> #[trigger] self.succs(b)[k] < self.size());
        match self.blocks@[b].terminator {
            Terminator::Return => {},
            Terminator::Abort(kind) => {},
            Terminator::Goto { target } => {
                assert(self.succs(b)[0] == target);
                self.lemma_jump_scoped(b, target as int, stack, next, n);
            },
            Terminator::Switch { discr, targets } => {
                let join = self.join_of(b);
                let inner = if join is Some {
                    join
                } else {
                    next
                };
                self.lemma_join_is_block(b);
                if join is Some {
                    self.lemma_jump_scoped(b, join->0, stack, next, n);
                }
                match targets {
                    SwitchTargets::If(t1, t2) => {
                        assert(self.succs(b)[0] == t1);
                        assert(self.succs(b)[1] == t2);
                        self.lemma_jump_scoped(b, t1 as int, stack, inner, n);
                        self.lemma_jump_scoped(b, t2 as int, stack, inner, n);
                    },
                    SwitchTargets::SwitchInt(ty, arms, otherwise) => {
                        assert(self.succs(b)[arms@.len() as int] == otherwise);
                        self.lemma_jump_scoped(b, otherwise as int, stack, inner, n);
                        assert forall|i: int| 0 <= i < arms@.len() implies well_scoped(
                            #[trigger] self.jump(b, arms@[i].1 as int, stack, inner),
                            stack.len(),
                            n,
                        ) by {
                            assert(self.succs(b)[i] == arms@[i].1);
                            self.lemma_jump_scoped(b, arms@[i].1 as int, stack, inner, n);
                        }
                        let node = self.body(b, stack, next)[prefix.len() as int];
                        assert(node.levels_valid(stack.len()) && node.locals_below(n)) by {
                            assert forall|i: int| 0 <= i < arms@.len() implies (
                            #[trigger] node->Switch_3[i]).levels_valid(stack.len())
                                && node->Switch_3[i].locals_below(n) by {
                                assert(well_scoped(
                                    self.jump(b, arms@[i].1 as int, stack, inner),
                                    stack.len(),
                                    n,
                                ));
                            }
                        }
                    },
                }
            },
        }
    }

    /// Every `Break` and `Continue` of the structured form names a loop that is open
    /// at its place.
    pub proof fn tree_levels_valid(self)
        requires
            self.closed(),
        ensures
            self.tree().levels_valid(0),
    {
        // Any bound on the locals serves: the levels do not depend on it.
        let n = self.locals_bound();
        self.lemma_locals_bound();
        self.lemma_block_scoped(self.entry as int, seq![], None, n);
    }

    /// The structured form names no local that the graph does not name.
    pub proof fn tree_locals_below(self, n: int)
        requires
            self.closed(),
            self.names_locals_below(n),
        ensures
            self.tree().locals_below(n),
    {
        self.lemma_block_scoped(self.entry as int, seq![], None, n);
    }

    /// A bound above every local that the graph names.
    pub open spec fn locals_bound(self) -> int {
        usize::MAX + 1
    }

    /// Every local of the graph lies below the bound.
    pub proof fn lemma_locals_bound(self)
        ensures
            self.names_locals_below(self.locals_bound()),
    {
        assert forall|b: int| 0 <= b < self.size() implies #[trigger] self.block_locals_below(
            b,
            self.locals_bound(),
        ) by {
            assert forall|k: int| 0 <= k < self.blocks@[b].statements@.len() implies (
            #[trigger] self.blocks@[b].statements@[k]).locals_below(self.locals_bound()) by {}
        }
    }

    /// A graph of one block that ends in `Return` or `Abort` structures to the
    /// statements of the block and the end, with no branch and no loop.
    pub proof fn straight_line_stays(self)
        requires
            self.size() == 1,
            self.entry == 0,
            self.blocks@[0].terminator is Return || self.blocks@[0].terminator is Abort,
        ensures
            self.tree().straight(),
            self.tree() == TreeView::Sequence(self.body(0, seq![], None)),
            self.blocks@[0].terminator is Return ==> self.body(0, seq![], None) == leaves(
                self.blocks@[0].statements@,
            ).push(TreeView::Return),
            self.blocks@[0].terminator is Abort ==> self.body(0, seq![], None) == leaves(
                self.blocks@[0].statements@,
            ).push(TreeView::Abort(self.blocks@[0].terminator->Abort_0)),
    {
        assert(!self.is_header(0)) by {
            if self.is_header(0) {
                let u = choose|u: int| self.back_edge(u, 0);
                assert(self.edge(u, 0));
                assert(self.succs(0).len() == 0);
            }
        }
        let items = self.body(0, seq![], None);
        assert forall|i: int| 0 <= i < items.len() implies (#[trigger] items[i]).straight() by {}
    }
}

} // verus!
