//! The blocks that make a graph irreducible: those on a cycle of edges that are
//! no back edges.

use crate::analysis::{flags_match, Analysis};
use crate::reach::{closure, links, lists_closed, reach_within, reaches};
use crate::ullbc::{BlockId, Graph};
use vstd::prelude::*;

verus! {

impl Graph {
    /// Whether at most `k` forward edges lead from a seed to `x`.
    pub open spec fn forward_within(self, seeds: Set<int>, x: int, k: nat) -> bool
        decreases k,
    {
        &&& 0 <= x < self.size()
        &&& {
            ||| seeds.contains(x)
            ||| (k > 0 && exists|p: int|
                self.forward_within(seeds, p, (k - 1) as nat) && #[trigger] self.forward_edge(
                    p,
                    x,
                ))
        }
    }

    /// The blocks that a forward edge leads to from `x`.
    pub open spec fn forward_targets(self, x: int) -> Set<int> {
        Set::new(|v: int| self.forward_edge(x, v))
    }

    /// Whether `x` lies on a cycle of forward edges: forward edges lead from `x`
    /// back to `x`. A reducible graph has no such block.
    pub open spec fn on_forward_cycle(self, x: int) -> bool {
        exists|k: nat| self.forward_within(self.forward_targets(x), x, k)
    }
}

impl Graph {
    /// In a reducible graph what forward edges lead to from `x` is numbered in a
    /// later round than `x`.
    pub proof fn lemma_forward_rises(self, x: int, y: int, k: nat)
        requires
            self.reducible(),
            0 <= x < self.size(),
            self.forward_within(self.forward_targets(x), y, k),
        ensures
            self.least_round(x) < self.least_round(y),
        decreases k,
    {
        self.lemma_least_round(x);
        self.lemma_least_round(y);
        if self.forward_targets(x).contains(y) {
            self.lemma_rank_rises(x, y, self.least_round(x), self.least_round(y));
        } else {
            let p = choose|p: int|
                self.forward_within(self.forward_targets(x), p, (k - 1) as nat)
                    && #[trigger] self.forward_edge(p, y);
            self.lemma_forward_rises(x, p, (k - 1) as nat);
            self.lemma_least_round(p);
            self.lemma_rank_rises(p, y, self.least_round(p), self.least_round(y));
        }
    }

    /// In a reducible graph no block lies on a cycle of forward edges.
    pub proof fn reducible_graphs_have_no_forward_cycle(self, x: int)
        requires
            self.reducible(),
            0 <= x < self.size(),
        ensures
            !self.on_forward_cycle(x),
    {
        if self.on_forward_cycle(x) {
            let k = choose|k: nat| self.forward_within(self.forward_targets(x), x, k);
            self.lemma_forward_rises(x, x, k);
        }
    }
}

/// Whether the lists are the forward edges of the graph.
pub open spec fn lists_forward(g: Graph, adj: Seq<Vec<usize>>) -> bool {
    &&& adj.len() == g.size()
    &&& lists_closed(adj)
    &&& forall|u: int, v: int| #[trigger] links(adj, u, v) == g.forward_edge(u, v)
}

/// Whether the list names, in rising order, the blocks that lie on a cycle of
/// forward edges.
pub open spec fn lists_cycles(g: Graph, blocks: Seq<BlockId>) -> bool {
    &&& forall|i: int, j: int| 0 <= i < j < blocks.len() ==> blocks[i] < blocks[j]
    &&& forall|i: int|
        0 <= i < blocks.len() ==> (#[trigger] blocks[i]) < g.size() && g.on_forward_cycle(
            blocks[i] as int,
        )
    &&& forall|x: int| 0 <= x < g.size() && g.on_forward_cycle(x) ==> blocks.contains(x as usize)
}

/// Paths over lists that are the graph's forward edges are its forward walks.
pub proof fn lemma_forward_bridge(
    g: Graph,
    adj: Seq<Vec<usize>>,
    flags: Seq<bool>,
    seeds: Set<int>,
    x: int,
    k: nat,
)
    requires
        lists_forward(g, adj),
        flags_match(g.size(), flags, seeds),
    ensures
        reach_within(adj, flags, g.size(), x, k) == g.forward_within(seeds, x, k),
    decreases k,
{
    if 0 <= x < g.size() && !seeds.contains(x) && k > 0 {
        if reach_within(adj, flags, g.size(), x, k) {
            let p = choose|p: int|
                reach_within(adj, flags, g.size(), p, (k - 1) as nat) && #[trigger] links(
                    adj,
                    p,
                    x,
                );
            lemma_forward_bridge(g, adj, flags, seeds, p, (k - 1) as nat);
            assert(g.forward_within(seeds, p, (k - 1) as nat) && g.forward_edge(p, x));
        }
        if g.forward_within(seeds, x, k) {
            let p = choose|p: int|
                g.forward_within(seeds, p, (k - 1) as nat) && #[trigger] g.forward_edge(p, x);
            lemma_forward_bridge(g, adj, flags, seeds, p, (k - 1) as nat);
            assert(reach_within(adj, flags, g.size(), p, (k - 1) as nat) && links(adj, p, x));
        }
    }
}

/// For every block, the blocks that a forward edge leads to from it.
pub fn forward_lists(g: &Graph, a: &Analysis) -> (adj: Vec<Vec<usize>>)
    requires
        a.describes(*g),
    ensures
        lists_forward(*g, adj@),
{
    let n = a.succs.len();
    let mut adj: Vec<Vec<usize>> = Vec::new();
    let mut u: usize = 0;
    while u < n
        invariant
            a.describes(*g),
            n == g.size(),
            u <= n,
            adj@.len() == u,
            forall|w: int, v: int|
                0 <= w < u && 0 <= v < n ==> (#[trigger] adj@[w]@.contains(v as usize))
                    == g.forward_edge(w, v),
            forall|w: int, k: int|
                0 <= w < u && 0 <= k < adj@[w]@.len() ==> (#[trigger] adj@[w]@[k]) < n,
        decreases n - u,
    {
        let mut list: Vec<usize> = Vec::new();
        let mut k: usize = 0;
        while k < a.succs[u as usize].len()
            invariant
                a.describes(*g),
                n == g.size(),
                u < n,
                k <= a.succs@[u as int]@.len(),
                forall|i: int| 0 <= i < list@.len() ==> (#[trigger] list@[i]) < n && links(
                    a.succs@,
                    u as int,
                    list@[i] as int,
                ) && !g.dominates(list@[i] as int, u as int),
                forall|j: int|
                    0 <= j < k && !g.dominates(
                        (#[trigger] a.succs@[u as int]@[j]) as int,
                        u as int,
                    ) ==> list@.contains(a.succs@[u as int]@[j]),
            decreases a.succs@[u as int]@.len() - k,
        {
            let v = a.succs[u][k];
            assert(v < n);
            let ghost before = list@;
            if !a.dom[v][u] {
                list.push(v);
                proof {
                    assert(list@[before.len() as int] == v);
                    assert forall|j: int|
                        0 <= j < k + 1 && !g.dominates(
                            (#[trigger] a.succs@[u as int]@[j]) as int,
                            u as int,
                        ) implies list@.contains(a.succs@[u as int]@[j]) by {
                        if j < k {
                            let i = choose|i: int|
                                0 <= i < before.len() && before[i] == a.succs@[u as int]@[j];
                            assert(list@[i] == a.succs@[u as int]@[j]);
                        }
                    }
                }
            }
            k = k + 1;
        }
        proof {
            assert forall|v: int| 0 <= v < n implies (#[trigger] list@.contains(v as usize))
                == g.forward_edge(u as int, v) by {
                if list@.contains(v as usize) {
                    let i = choose|i: int| 0 <= i < list@.len() && list@[i] == v as usize;
                    assert(links(a.succs@, u as int, v));
                    assert(g.step(false, u as int, v));
                }
                if g.forward_edge(u as int, v) {
                    assert(g.step(false, u as int, v));
                    assert(links(a.succs@, u as int, v));
                    let j = choose|j: int|
                        0 <= j < a.succs@[u as int]@.len() && a.succs@[u as int]@[j] == v as usize;
                    assert(list@.contains(a.succs@[u as int]@[j]));
                }
            }
        }
        adj.push(list);
        u = u + 1;
    }
    proof {
        assert forall|w: int, v: int| #[trigger] links(adj@, w, v) == g.forward_edge(w, v) by {
            if 0 <= w < n && 0 <= v < n {
                assert(adj@[w]@.contains(v as usize) == g.forward_edge(w, v));
            }
        }
    }
    adj
}

/// Which of the `n` nodes stand in the list.
pub fn flags_of(list: &Vec<usize>, n: usize) -> (flags: Vec<bool>)
    requires
        forall|i: int| 0 <= i < list@.len() ==> list@[i] < n,
    ensures
        flags@.len() == n,
        forall|x: int| 0 <= x < n ==> flags@[x] == list@.contains(x as usize),
{
    let mut flags = crate::analysis::no_flags(n);
    let mut i: usize = 0;
    while i < list.len()
        invariant
            i <= list@.len(),
            flags@.len() == n,
            forall|k: int| 0 <= k < list@.len() ==> list@[k] < n,
            forall|x: int|
                0 <= x < n ==> flags@[x] == exists|k: int| 0 <= k < i && list@[k] == x as usize,
        decreases list@.len() - i,
    {
        let ghost before = flags@;
        flags.set(list[i], true);
        proof {
            assert forall|x: int| 0 <= x < n implies flags@[x] == exists|k: int|
                0 <= k < i + 1 && list@[k] == x as usize by {
                if x == list@[i as int] {
                    assert(list@[i as int] == x as usize);
                } else if before[x] {
                    let k = choose|k: int| 0 <= k < i && list@[k] == x as usize;
                    assert(0 <= k < i + 1 && list@[k] == x as usize);
                }
            }
        }
        i = i + 1;
    }
    flags
}

/// The blocks that lie on a cycle of forward edges, in rising order.
pub fn cycle_blocks(g: &Graph, a: &Analysis) -> (blocks: Vec<BlockId>)
    requires
        a.describes(*g),
    ensures
        lists_cycles(*g, blocks@),
{
    let adj = forward_lists(g, a);
    let n = adj.len();
    let mut blocks: Vec<BlockId> = Vec::new();
    let mut x: usize = 0;
    while x < n
        invariant
            lists_forward(*g, adj@),
            n == g.size(),
            x <= n,
            forall|i: int, j: int| 0 <= i < j < blocks@.len() ==> blocks@[i] < blocks@[j],
            forall|i: int|
                0 <= i < blocks@.len() ==> (#[trigger] blocks@[i]) < x && g.on_forward_cycle(
                    blocks@[i] as int,
                ),
            forall|y: int| 0 <= y < x && g.on_forward_cycle(y) ==> blocks@.contains(y as usize),
        decreases n - x,
    {
        let seeds = flags_of(&adj[x], n);
        let marks = closure(&adj, &seeds, n);
        proof {
            let targets = g.forward_targets(x as int);
            assert(flags_match(g.size(), seeds@, targets)) by {
                assert forall|v: int| 0 <= v < n implies seeds@[v] == targets.contains(v) by {
                    assert(links(adj@, x as int, v) == g.forward_edge(x as int, v));
                }
            }
            if marks@[x as int] {
                let k = choose|k: nat| reach_within(adj@, seeds@, n as int, x as int, k);
                lemma_forward_bridge(*g, adj@, seeds@, targets, x as int, k);
            }
            if g.on_forward_cycle(x as int) {
                let k = choose|k: nat| g.forward_within(targets, x as int, k);
                lemma_forward_bridge(*g, adj@, seeds@, targets, x as int, k);
                assert(reaches(adj@, seeds@, n as int, x as int));
            }
            assert(marks@[x as int] == g.on_forward_cycle(x as int));
        }
        if marks[x] {
            let ghost before = blocks@;
            blocks.push(x);
            proof {
                assert forall|y: int|
                    0 <= y < x + 1 && g.on_forward_cycle(y) implies blocks@.contains(
                    y as usize,
                ) by {
                    if y < x {
                        let i = choose|i: int| 0 <= i < before.len() && before[i] == y as usize;
                        assert(blocks@[i] == y as usize);
                    } else {
                        assert(blocks@[before.len() as int] == y as usize);
                    }
                }
            }
        }
        x = x + 1;
    }
    blocks
}

} // verus!
