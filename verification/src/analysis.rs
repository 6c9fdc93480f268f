//! Dominance and natural loops of a graph, and the order of its blocks.

use crate::reach::{closure, lists_closed, links, reach_within, reaches};
use crate::ullbc::Graph;
use vstd::prelude::*;

verus! {

impl Graph {
    /// One step along an edge, or against it where `rev` holds.
    pub open spec fn step(self, rev: bool, u: int, v: int) -> bool {
        if rev {
            self.edge(v, u)
        } else {
            self.edge(u, v)
        }
    }

    /// Whether at most `k` steps lead from a seed to `x` without touching `avoid`.
    pub open spec fn walk_within(
        self,
        rev: bool,
        seeds: Set<int>,
        avoid: int,
        x: int,
        k: nat,
    ) -> bool
        decreases k,
    {
        &&& 0 <= x < self.size()
        &&& x != avoid
        &&& {
            ||| seeds.contains(x)
            ||| (k > 0 && exists|p: int|
                self.walk_within(rev, seeds, avoid, p, (k - 1) as nat) && #[trigger] self.step(
                    rev,
                    p,
                    x,
                ))
        }
    }

    /// Whether steps lead from a seed to `x` without touching `avoid`.
    pub open spec fn walks(self, rev: bool, seeds: Set<int>, avoid: int, x: int) -> bool {
        exists|k: nat| self.walk_within(rev, seeds, avoid, x, k)
    }

    /// Whether control can reach `b` from the entry.
    pub open spec fn reachable(self, b: int) -> bool {
        self.walks(false, set![self.entry as int], -1, b)
    }

    /// Whether every way from the entry to `b` passes through `d`:
    /// `b` is `d`, or cannot be reached once `d` is taken away.
    pub open spec fn dominates(self, d: int, b: int) -> bool {
        &&& 0 <= d < self.size()
        &&& 0 <= b < self.size()
        &&& (d == b || !self.walks(false, set![self.entry as int], d, b))
    }

    /// An edge whose target dominates its source.
    pub open spec fn back_edge(self, u: int, h: int) -> bool {
        self.edge(u, h) && self.dominates(h, u)
    }

    /// An edge that is no back edge.
    pub open spec fn forward_edge(self, u: int, v: int) -> bool {
        self.edge(u, v) && !self.dominates(v, u)
    }

    /// A block that some back edge enters.
    pub open spec fn is_header(self, h: int) -> bool {
        exists|u: int| self.back_edge(u, h)
    }

    /// The sources of the back edges into `h`.
    pub open spec fn latches(self, h: int) -> Set<int> {
        Set::new(|u: int| self.back_edge(u, h))
    }

    /// Whether `x` belongs to the natural loop of the header `h`: it is `h`, or
    /// reaches the source of a back edge into `h` without passing through `h`.
    pub open spec fn in_loop(self, h: int, x: int) -> bool {
        &&& self.is_header(h)
        &&& 0 <= x < self.size()
        &&& (x == h || self.walks(true, self.latches(h), h, x))
    }

    /// Whether `d` is the closest strict dominator of `b`.
    pub open spec fn is_idom(self, d: int, b: int) -> bool {
        &&& d != b
        &&& self.dominates(d, b)
        &&& forall|c: int| c != b && #[trigger] self.dominates(c, b) ==> self.dominates(c, d)
    }

    /// How many of the blocks below `n` are headers of loops that hold `b`.
    pub open spec fn loops_around(self, b: int, n: int) -> nat
        decreases n,
    {
        if n <= 0 {
            0
        } else {
            self.loops_around(b, n - 1) + if self.in_loop(n - 1, b) {
                1nat
            } else {
                0nat
            }
        }
    }

    /// The number of natural loops that hold `b`.
    pub open spec fn loop_depth(self, b: int) -> nat {
        self.loops_around(b, self.size())
    }
}

/// Whether the lists are the edges of the graph, turned round where `rev` holds.
pub open spec fn lists_match(g: Graph, rev: bool, adj: Seq<Vec<usize>>) -> bool {
    &&& adj.len() == g.size()
    &&& lists_closed(adj)
    &&& forall|u: int, v: int| #[trigger] links(adj, u, v) == g.step(rev, u, v)
}

/// Whether the flags are the members of the set among the blocks.
pub open spec fn flags_match(n: int, flags: Seq<bool>, set: Set<int>) -> bool {
    &&& flags.len() == n
    &&& forall|x: int| 0 <= x < n ==> flags[x] == set.contains(x)
}

/// Paths over lists that are the graph's edges are the graph's walks.
pub proof fn lemma_walk_bridge(
    g: Graph,
    rev: bool,
    adj: Seq<Vec<usize>>,
    flags: Seq<bool>,
    seeds: Set<int>,
    avoid: int,
    x: int,
    k: nat,
)
    requires
        lists_match(g, rev, adj),
        flags_match(g.size(), flags, seeds),
    ensures
        reach_within(adj, flags, avoid, x, k) == g.walk_within(rev, seeds, avoid, x, k),
    decreases k,
{
    if 0 <= x < g.size() && x != avoid && !seeds.contains(x) && k > 0 {
        if reach_within(adj, flags, avoid, x, k) {
            let p = choose|p: int|
                reach_within(adj, flags, avoid, p, (k - 1) as nat) && #[trigger] links(adj, p, x);
            lemma_walk_bridge(g, rev, adj, flags, seeds, avoid, p, (k - 1) as nat);
            assert(g.walk_within(rev, seeds, avoid, p, (k - 1) as nat) && g.step(rev, p, x));
        }
        if g.walk_within(rev, seeds, avoid, x, k) {
            let p = choose|p: int|
                g.walk_within(rev, seeds, avoid, p, (k - 1) as nat) && #[trigger] g.step(
                    rev,
                    p,
                    x,
                );
            lemma_walk_bridge(g, rev, adj, flags, seeds, avoid, p, (k - 1) as nat);
            assert(reach_within(adj, flags, avoid, p, (k - 1) as nat) && links(adj, p, x));
        }
    }
}

/// Reaching over lists that are the graph's edges is walking in the graph.
pub proof fn lemma_reach_bridge(
    g: Graph,
    rev: bool,
    adj: Seq<Vec<usize>>,
    flags: Seq<bool>,
    seeds: Set<int>,
    avoid: int,
    x: int,
)
    requires
        lists_match(g, rev, adj),
        flags_match(g.size(), flags, seeds),
    ensures
        reaches(adj, flags, avoid, x) == g.walks(rev, seeds, avoid, x),
{
    if reaches(adj, flags, avoid, x) {
        let k = choose|k: nat| reach_within(adj, flags, avoid, x, k);
        lemma_walk_bridge(g, rev, adj, flags, seeds, avoid, x, k);
    }
    if g.walks(rev, seeds, avoid, x) {
        let k = choose|k: nat| g.walk_within(rev, seeds, avoid, x, k);
        lemma_walk_bridge(g, rev, adj, flags, seeds, avoid, x, k);
    }
}

/// A list of `n` flags, all down.
pub fn no_flags(n: usize) -> (flags: Vec<bool>)
    ensures
        flags@.len() == n,
        forall|i: int| 0 <= i < n ==> !flags@[i],
{
    let mut flags: Vec<bool> = Vec::new();
    let mut i: usize = 0;
    while i < n
        invariant
            i <= n,
            flags@.len() == i,
            forall|k: int| 0 <= k < i ==> !flags@[k],
        decreases n - i,
    {
        flags.push(false);
        i = i + 1;
    }
    flags
}

impl Graph {
    /// The successor lists are the graph's edges.
    pub proof fn lemma_successor_lists_match(self, adj: Seq<Vec<usize>>)
        requires
            self.closed(),
            adj.len() == self.size(),
            forall|b: int| 0 <= b < self.size() ==> (#[trigger] adj[b])@ == self.succs(b),
        ensures
            lists_match(self, false, adj),
    {
        assert forall|u: int, k: int| 0 <= u < adj.len() && 0 <= k < adj[u]@.len() implies (
        #[trigger] adj[u]@[k]) < adj.len() by {
            assert(self.succs(u)[k] < self.size());
        }
    }

    /// Marks the blocks that control can reach from the entry.
    pub fn reachable_blocks(&self, succs: &Vec<Vec<usize>>) -> (marks: Vec<bool>)
        requires
            self.closed(),
            lists_match(*self, false, succs@),
        ensures
            marks@.len() == self.size(),
            forall|b: int| 0 <= b < self.size() ==> marks@[b] == self.reachable(b),
    {
        let n = self.blocks.len();
        let mut seeds = no_flags(n);
        seeds.set(self.entry, true);
        let marks = closure(succs, &seeds, n);
        proof {
            assert(flags_match(self.size(), seeds@, set![self.entry as int]));
            assert forall|b: int| 0 <= b < self.size() implies marks@[b] == self.reachable(b) by {
                lemma_reach_bridge(*self, false, succs@, seeds@, set![self.entry as int], n as int, b);
                self.lemma_avoid_outside(false, set![self.entry as int], n as int, -1, b);
            }
        }
        marks
    }

    /// Two nodes to avoid that are no blocks forbid the same: nothing.
    pub proof fn lemma_avoid_outside(self, rev: bool, seeds: Set<int>, a1: int, a2: int, x: int)
        requires
            !(0 <= a1 < self.size()),
            !(0 <= a2 < self.size()),
        ensures
            self.walks(rev, seeds, a1, x) == self.walks(rev, seeds, a2, x),
    {
        if self.walks(rev, seeds, a1, x) {
            let k = choose|k: nat| self.walk_within(rev, seeds, a1, x, k);
            self.lemma_avoid_outside_within(rev, seeds, a1, a2, x, k);
        }
        if self.walks(rev, seeds, a2, x) {
            let k = choose|k: nat| self.walk_within(rev, seeds, a2, x, k);
            self.lemma_avoid_outside_within(rev, seeds, a1, a2, x, k);
        }
    }

    pub proof fn lemma_avoid_outside_within(
        self,
        rev: bool,
        seeds: Set<int>,
        a1: int,
        a2: int,
        x: int,
        k: nat,
    )
        requires
            !(0 <= a1 < self.size()),
            !(0 <= a2 < self.size()),
        ensures
            self.walk_within(rev, seeds, a1, x, k) == self.walk_within(rev, seeds, a2, x, k),
        decreases k,
    {
        if k > 0 {
            if self.walk_within(rev, seeds, a1, x, k) && !seeds.contains(x) {
                let p = choose|p: int|
                    self.walk_within(rev, seeds, a1, p, (k - 1) as nat) && #[trigger] self.step(
                        rev,
                        p,
                        x,
                    );
                self.lemma_avoid_outside_within(rev, seeds, a1, a2, p, (k - 1) as nat);
            }
            if self.walk_within(rev, seeds, a2, x, k) && !seeds.contains(x) {
                let p = choose|p: int|
                    self.walk_within(rev, seeds, a2, p, (k - 1) as nat) && #[trigger] self.step(
                        rev,
                        p,
                        x,
                    );
                self.lemma_avoid_outside_within(rev, seeds, a1, a2, p, (k - 1) as nat);
            }
        }
    }

    /// The dominance relation as a table: row `d`, column `b` says whether `d` dominates `b`.
    pub fn dominators(&self, succs: &Vec<Vec<usize>>) -> (dom: Vec<Vec<bool>>)
        requires
            self.closed(),
            lists_match(*self, false, succs@),
        ensures
            dom@.len() == self.size(),
            forall|d: int| 0 <= d < self.size() ==> (#[trigger] dom@[d])@.len() == self.size(),
            forall|d: int, b: int|
                0 <= d < self.size() && 0 <= b < self.size() ==> dom@[d]@[b] == self.dominates(
                    d,
                    b,
                ),
    {
        let n = self.blocks.len();
        let mut seeds = no_flags(n);
        seeds.set(self.entry, true);
        assert(flags_match(self.size(), seeds@, set![self.entry as int]));
        let mut dom: Vec<Vec<bool>> = Vec::new();
        let mut d: usize = 0;
        while d < n
            invariant
                n == self.size(),
                self.closed(),
                lists_match(*self, false, succs@),
                flags_match(self.size(), seeds@, set![self.entry as int]),
                d <= n,
                dom@.len() == d,
                forall|c: int| 0 <= c < d ==> (#[trigger] dom@[c])@.len() == n,
                forall|c: int, b: int|
                    0 <= c < d && 0 <= b < n ==> dom@[c]@[b] == self.dominates(c, b),
            decreases n - d,
        {
            let marks = closure(succs, &seeds, d);
            let mut row: Vec<bool> = Vec::new();
            let mut b: usize = 0;
            while b < n
                invariant
                    n == self.size(),
                    d < n,
                    b <= n,
                    marks@.len() == n,
                    row@.len() == b,
                    forall|x: int| 0 <= x < b ==> row@[x] == (x == d || !marks@[x]),
                decreases n - b,
            {
                row.push(b == d || !marks[b]);
                b = b + 1;
            }
            proof {
                assert forall|x: int| 0 <= x < n implies row@[x] == self.dominates(d as int, x) by {
                    lemma_reach_bridge(
                        *self,
                        false,
                        succs@,
                        seeds@,
                        set![self.entry as int],
                        d as int,
                        x,
                    );
                }
            }
            dom.push(row);
            d = d + 1;
        }
        dom
    }
}

/// Whether `x` stands in the list.
pub fn list_contains(l: &Vec<usize>, x: usize) -> (b: bool)
    ensures
        b == l@.contains(x),
{
    let mut i: usize = 0;
    while i < l.len()
        invariant
            i <= l@.len(),
            forall|k: int| 0 <= k < i ==> l@[k] != x,
        decreases l@.len() - i,
    {
        if l[i] == x {
            return true;
        }
        i = i + 1;
    }
    false
}

/// Whether a flag is up.
pub fn any_flag(flags: &Vec<bool>) -> (b: bool)
    ensures
        b == exists|i: int| 0 <= i < flags@.len() && flags@[i],
{
    let mut i: usize = 0;
    while i < flags.len()
        invariant
            i <= flags@.len(),
            forall|k: int| 0 <= k < i ==> !flags@[k],
        decreases flags@.len() - i,
    {
        if flags[i] {
            return true;
        }
        i = i + 1;
    }
    false
}

/// Whether the table is the dominance relation of the graph.
pub open spec fn dom_matches(g: Graph, dom: Seq<Vec<bool>>) -> bool {
    &&& dom.len() == g.size()
    &&& forall|d: int| 0 <= d < g.size() ==> (#[trigger] dom[d])@.len() == g.size()
    &&& forall|d: int, b: int|
        0 <= d < g.size() && 0 <= b < g.size() ==> dom[d]@[b] == g.dominates(d, b)
}

impl Graph {
    /// For every block, the blocks with an edge into it, in rising order.
    pub fn predecessor_lists(&self, succs: &Vec<Vec<usize>>) -> (preds: Vec<Vec<usize>>)
        requires
            self.closed(),
            lists_match(*self, false, succs@),
        ensures
            lists_match(*self, true, preds@),
    {
        let n = self.blocks.len();
        let mut preds: Vec<Vec<usize>> = Vec::new();
        let mut u: usize = 0;
        while u < n
            invariant
                n == self.size(),
                lists_match(*self, false, succs@),
                u <= n,
                preds@.len() == u,
                forall|t: int, w: usize|
                    0 <= t < u ==> (#[trigger] preds@[t]@.contains(w) <==> self.edge(w as int, t)),
            decreases n - u,
        {
            let mut row: Vec<usize> = Vec::new();
            let mut v: usize = 0;
            while v < n
                invariant
                    n == self.size(),
                    lists_match(*self, false, succs@),
                    u < n,
                    v <= n,
                    forall|w: usize| row@.contains(w) <==> (w < v && self.edge(w as int, u as int)),
                decreases n - v,
            {
                let hit = list_contains(&succs[v], u);
                proof {
                    assert(links(succs@, v as int, u as int) == self.step(false, v as int, u as int));
                }
                if hit {
                    let ghost before = row@;
                    row.push(v);
                    proof {
                        assert forall|w: usize| row@.contains(w) <==> (w < v + 1 && self.edge(
                            w as int,
                            u as int,
                        )) by {
                            if row@.contains(w) {
                                let i = choose|i: int| 0 <= i < row@.len() && row@[i] == w;
                                if i < before.len() {
                                    assert(before.contains(w));
                                }
                            }
                            if w < v + 1 && self.edge(w as int, u as int) {
                                if w == v {
                                    assert(row@[before.len() as int] == w);
                                } else {
                                    assert(before.contains(w));
                                    let i = choose|i: int| 0 <= i < before.len() && before[i] == w;
                                    assert(row@[i] == w);
                                }
                            }
                        }
                    }
                }
                v = v + 1;
            }
            preds.push(row);
            u = u + 1;
        }
        proof {
            assert forall|a: int, k: int| 0 <= a < preds@.len() && 0 <= k < preds@[a]@.len() implies (
            #[trigger] preds@[a]@[k]) < preds@.len() by {
                assert(preds@[a]@.contains(preds@[a]@[k]));
            }
            assert forall|a: int, b: int| #[trigger] links(preds@, a, b) == self.step(true, a, b) by {
                if 0 <= a < n && 0 <= b < n {
                    assert(preds@[a]@.contains(b as usize) <==> self.edge((b as usize) as int, a));
                }
            }
        }
        preds
    }

    /// Flags the sources of the back edges into `h`.
    pub fn latch_flags(&self, succs: &Vec<Vec<usize>>, dom: &Vec<Vec<bool>>, h: usize) -> (flags:
        Vec<bool>)
        requires
            self.closed(),
            lists_match(*self, false, succs@),
            dom_matches(*self, dom@),
            h < self.size(),
        ensures
            flags_match(self.size(), flags@, self.latches(h as int)),
    {
        let n = self.blocks.len();
        let mut flags: Vec<bool> = Vec::new();
        let mut u: usize = 0;
        while u < n
            invariant
                n == self.size(),
                lists_match(*self, false, succs@),
                dom_matches(*self, dom@),
                h < n,
                u <= n,
                flags@.len() == u,
                forall|x: int| 0 <= x < u ==> flags@[x] == self.back_edge(x, h as int),
            decreases n - u,
        {
            let hit = list_contains(&succs[u], h);
            proof {
                assert(links(succs@, u as int, h as int) == self.step(false, u as int, h as int));
            }
            flags.push(hit && dom[h][u]);
            u = u + 1;
        }
        flags
    }

    /// The members of the natural loop of `h`, as flags; none where `h` is no header.
    pub fn loop_members(
        &self,
        succs: &Vec<Vec<usize>>,
        preds: &Vec<Vec<usize>>,
        dom: &Vec<Vec<bool>>,
        h: usize,
    ) -> (members: Vec<bool>)
        requires
            self.closed(),
            lists_match(*self, false, succs@),
            lists_match(*self, true, preds@),
            dom_matches(*self, dom@),
            h < self.size(),
        ensures
            members@.len() == self.size(),
            forall|x: int| 0 <= x < self.size() ==> members@[x] == self.in_loop(h as int, x),
    {
        let n = self.blocks.len();
        let latches = self.latch_flags(succs, dom, h);
        let header = any_flag(&latches);
        proof {
            if header {
                let u = choose|i: int| 0 <= i < latches@.len() && latches@[i];
                assert(self.back_edge(u, h as int));
            }
            if self.is_header(h as int) {
                let u = choose|u: int| self.back_edge(u, h as int);
                assert(latches@[u]);
            }
        }
        if header {
            let mut members = closure(preds, &latches, h);
            proof {
                assert forall|x: int| 0 <= x < n implies members@[x] == self.walks(
                    true,
                    self.latches(h as int),
                    h as int,
                    x,
                ) by {
                    lemma_reach_bridge(
                        *self,
                        true,
                        preds@,
                        latches@,
                        self.latches(h as int),
                        h as int,
                        x,
                    );
                }
                assert(!self.walks(true, self.latches(h as int), h as int, h as int));
            }
            members.set(h, true);
            members
        } else {
            no_flags(n)
        }
    }

    /// The closest strict dominator of `b`: the least block that is one, if any is.
    pub fn immediate_dominator(&self, dom: &Vec<Vec<bool>>, b: usize) -> (r: Option<usize>)
        requires
            dom_matches(*self, dom@),
            b < self.size(),
        ensures
            match r {
                Some(d) => d < self.size() && self.is_idom(d as int, b as int) && forall|e: int|
                    0 <= e < d ==> !self.is_idom(e, b as int),
                None => forall|e: int| !self.is_idom(e, b as int),
            },
    {
        let n = self.blocks.len();
        let mut d: usize = 0;
        while d < n
            invariant
                n == self.size(),
                dom_matches(*self, dom@),
                b < n,
                d <= n,
                forall|e: int| 0 <= e < d ==> !self.is_idom(e, b as int),
            decreases n - d,
        {
            if d != b && dom[d][b] {
                let mut c: usize = 0;
                let mut closest = true;
                while c < n
                    invariant
                        n == self.size(),
                        dom_matches(*self, dom@),
                        b < n,
                        d < n,
                        c <= n,
                        closest ==> forall|e: int|
                            0 <= e < c && e != b && #[trigger] self.dominates(e, b as int)
                                ==> self.dominates(e, d as int),
                        !closest ==> exists|e: int|
                            e != b && #[trigger] self.dominates(e, b as int) && !self.dominates(
                                e,
                                d as int,
                            ),
                    decreases n - c,
                {
                    if c != b && dom[c][b] && !dom[c][d] {
                        closest = false;
                        assert(self.dominates(c as int, b as int));
                    }
                    c = c + 1;
                }
                if closest {
                    return Some(d);
                }
            }
            d = d + 1;
        }
        None
    }

    /// The number of natural loops around `b`.
    pub fn nesting_depth(&self, members: &Vec<Vec<bool>>, b: usize) -> (depth: usize)
        requires
            b < self.size(),
            members@.len() == self.size(),
            forall|h: int| 0 <= h < self.size() ==> (#[trigger] members@[h])@.len() == self.size(),
            forall|h: int, x: int|
                0 <= h < self.size() && 0 <= x < self.size() ==> members@[h]@[x] == self.in_loop(
                    h,
                    x,
                ),
        ensures
            depth == self.loop_depth(b as int),
    {
        let n = self.blocks.len();
        let mut depth: usize = 0;
        let mut h: usize = 0;
        while h < n
            invariant
                n == self.size(),
                b < n,
                h <= n,
                depth <= h,
                depth == self.loops_around(b as int, h as int),
                members@.len() == n,
                forall|k: int| 0 <= k < n ==> (#[trigger] members@[k])@.len() == n,
                forall|k: int, x: int|
                    0 <= k < n && 0 <= x < n ==> members@[k]@[x] == self.in_loop(k, x),
            decreases n - h,
        {
            if members[h][b] {
                depth = depth + 1;
            }
            h = h + 1;
        }
        depth
    }
}

impl Graph {
    /// Whether `x` can be numbered within `k` rounds, where a round numbers every
    /// block whose forward edges all come from blocks numbered in earlier rounds.
    pub open spec fn placed_within(self, x: int, k: nat) -> bool
        decreases k,
    {
        &&& 0 <= x < self.size()
        &&& k > 0
        &&& {
            ||| self.placed_within(x, (k - 1) as nat)
            ||| forall|u: int| #[trigger]
                self.forward_edge(u, x) ==> self.placed_within(u, (k - 1) as nat)
        }
    }

    /// Whether `x` is numbered in round `r` and in none before.
    pub open spec fn has_rank(self, x: int, r: nat) -> bool {
        self.placed_within(x, r + 1) && !self.placed_within(x, r)
    }

    /// Whether some round numbers `x`.
    pub open spec fn orderable(self, x: int) -> bool {
        exists|k: nat| self.placed_within(x, k)
    }

    /// Whether the graph is reducible: every block can be numbered.
    pub open spec fn reducible(self) -> bool {
        forall|x: int| 0 <= x < self.size() ==> self.orderable(x)
    }

    /// Whether `f` numbers the blocks so that every forward edge goes up.
    pub open spec fn numbered_by(self, f: spec_fn(int) -> nat) -> bool {
        forall|u: int, v: int| #[trigger] self.forward_edge(u, v) ==> f(u) < f(v)
    }

    /// What is numbered within `a` rounds is numbered within any more.
    pub proof fn lemma_placed_monotone(self, x: int, a: nat, b: nat)
        requires
            self.placed_within(x, a),
            a <= b,
        ensures
            self.placed_within(x, b),
        decreases b,
    {
        if a < b {
            self.lemma_placed_monotone(x, a, (b - 1) as nat);
        }
    }

    /// Once a round numbers nothing new, no later round does.
    pub proof fn lemma_rounds_settle(self, r: nat, x: int, k: nat)
        requires
            forall|y: int| self.placed_within(y, r + 1) ==> self.placed_within(y, r),
            self.placed_within(x, k),
        ensures
            self.placed_within(x, r),
        decreases k,
    {
        if self.placed_within(x, (k - 1) as nat) {
            self.lemma_rounds_settle(r, x, (k - 1) as nat);
        } else {
            assert forall|u: int| #[trigger] self.forward_edge(u, x) implies self.placed_within(
                u,
                r,
            ) by {
                self.lemma_rounds_settle(r, u, (k - 1) as nat);
            }
            assert(self.placed_within(x, r + 1));
        }
    }

    /// A forward edge leads from a lower rank to a higher one.
    pub proof fn lemma_rank_rises(self, u: int, v: int, ru: nat, rv: nat)
        requires
            self.forward_edge(u, v),
            self.has_rank(u, ru),
            self.has_rank(v, rv),
        ensures
            ru < rv,
    {
        assert(self.placed_within(u, rv));
        if ru >= rv {
            self.lemma_placed_monotone(u, rv, ru);
        }
    }

    /// Under a numbering that goes up along every forward edge, every block can be ordered.
    pub proof fn lemma_numbered_orderable(self, f: spec_fn(int) -> nat, x: int, m: nat)
        requires
            self.numbered_by(f),
            0 <= x < self.size(),
            f(x) <= m,
        ensures
            self.orderable(x),
        decreases m,
    {
        assert forall|u: int| #[trigger] self.forward_edge(u, x) implies self.orderable(u) by {
            assert(f(u) < f(x));
            self.lemma_numbered_orderable(f, u, (m - 1) as nat);
        }
        self.lemma_common_round(x, self.size() as nat);
    }

    /// Where every forward edge into `x` comes from an orderable block, one round
    /// has numbered all of those among the blocks below `n`; with `n` the size, `x` follows.
    pub proof fn lemma_common_round(self, x: int, n: nat) -> (k: nat)
        requires
            0 <= x < self.size(),
            n <= self.size(),
            forall|u: int| #[trigger] self.forward_edge(u, x) ==> self.orderable(u),
        ensures
            forall|u: int| 0 <= u < n && #[trigger] self.forward_edge(u, x) ==> self.placed_within(u, k),
            n == self.size() ==> self.orderable(x),
        decreases n,
    {
        if n == 0 {
            let k = 0nat;
            if n == self.size() {
                assert(self.placed_within(x, 1));
            }
            k
        } else {
            let k0 = self.lemma_common_round(x, (n - 1) as nat);
            let last: int = n - 1;
            let k = if self.forward_edge(last, x) {
                let k1 = choose|k1: nat| self.placed_within(last, k1);
                if k1 > k0 {
                    k1
                } else {
                    k0
                }
            } else {
                k0
            };
            assert forall|u: int| 0 <= u < n && #[trigger] self.forward_edge(u, x) implies self.placed_within(
                u,
                k,
            ) by {
                if u == last {
                    let k1 = choose|k1: nat| self.placed_within(last, k1);
                    self.lemma_placed_monotone(u, k1, k);
                } else {
                    self.lemma_placed_monotone(u, k0, k);
                }
            }
            if n == self.size() {
                assert(self.placed_within(x, k + 1));
            }
            k
        }
    }

    /// A graph is reducible if and only if its blocks can be numbered so that
    /// every edge that is no back edge leads to a higher number.
    pub proof fn reducible_iff_numbered(self)
        ensures
            self.reducible() <==> exists|f: spec_fn(int) -> nat| self.numbered_by(f),
    {
        if self.reducible() {
            let f = |x: int| self.least_round(x);
            assert forall|u: int, v: int| #[trigger] self.forward_edge(u, v) implies f(u) < f(
                v,
            ) by {
                self.lemma_least_round(u);
                self.lemma_least_round(v);
                self.lemma_rank_rises(u, v, f(u), f(v));
            }
            assert(self.numbered_by(f));
        }
        if exists|f: spec_fn(int) -> nat| self.numbered_by(f) {
            let f = choose|f: spec_fn(int) -> nat| self.numbered_by(f);
            assert forall|x: int| 0 <= x < self.size() implies self.orderable(x) by {
                self.lemma_numbered_orderable(f, x, f(x));
            }
        }
    }

    /// The round that numbers `x`.
    pub open spec fn least_round(self, x: int) -> nat {
        choose|r: nat| self.has_rank(x, r)
    }

    /// An orderable block is numbered in exactly one round.
    pub proof fn lemma_least_round(self, x: int)
        requires
            self.orderable(x),
        ensures
            self.has_rank(x, self.least_round(x)),
    {
        let k = choose|k: nat| self.placed_within(x, k);
        self.lemma_first_round(x, k);
    }

    /// Below a round that has numbered `x` lies the round that numbers it first.
    pub proof fn lemma_first_round(self, x: int, k: nat)
        requires
            self.placed_within(x, k),
        ensures
            exists|r: nat| self.has_rank(x, r),
        decreases k,
    {
        if self.placed_within(x, (k - 1) as nat) {
            self.lemma_first_round(x, (k - 1) as nat);
        } else {
            assert(self.has_rank(x, (k - 1) as nat));
        }
    }

    /// A block has one rank at most.
    pub proof fn lemma_rank_unique(self, x: int, a: nat, b: nat)
        requires
            self.has_rank(x, a),
            self.has_rank(x, b),
        ensures
            a == b,
    {
        if a < b {
            self.lemma_placed_monotone(x, a + 1, b);
        }
        if b < a {
            self.lemma_placed_monotone(x, b + 1, a);
        }
    }
}

/// Whether the ranks are those of the graph: the round that numbers each block,
/// or the size of the graph for a block that no round numbers.
pub open spec fn ranks_match(g: Graph, rank: Seq<usize>) -> bool {
    &&& rank.len() == g.size()
    &&& forall|x: int|
        0 <= x < g.size() ==> {
            &&& (#[trigger] rank[x]) <= g.size()
            &&& rank[x] < g.size() ==> g.has_rank(x, rank[x] as nat)
            &&& rank[x] == g.size() ==> !g.orderable(x)
        }
}

impl Graph {
    /// Whether every forward edge into `v` comes from a block of rank below `r`.
    fn ready(&self, preds: &Vec<Vec<usize>>, dom: &Vec<Vec<bool>>, rank: &Vec<usize>, v: usize, r: usize) -> (b:
        bool)
        requires
            lists_match(*self, true, preds@),
            dom_matches(*self, dom@),
            rank@.len() == self.size(),
            v < self.size(),
        ensures
            b == forall|u: int| #[trigger] self.forward_edge(u, v as int) ==> rank@[u] < r,
    {
        let mut i: usize = 0;
        while i < preds[v].len()
            invariant
                lists_match(*self, true, preds@),
                dom_matches(*self, dom@),
                rank@.len() == self.size(),
                v < self.size(),
                i <= preds@[v as int]@.len(),
                lists_closed(preds@),
                forall|k: int|
                    0 <= k < i ==> dom@[v as int]@[(#[trigger] preds@[v as int]@[k]) as int]
                        || rank@[preds@[v as int]@[k] as int] < r,
            decreases preds@[v as int]@.len() - i,
        {
            let u = preds[v][i];
            assert(u < self.size());
            proof {
                assert(preds@[v as int]@.contains(u));
                assert(links(preds@, v as int, u as int) == self.step(true, v as int, u as int));
            }
            if !dom[v][u] && !(rank[u] < r) {
                assert(self.forward_edge(u as int, v as int));
                return false;
            }
            i = i + 1;
        }
        proof {
            assert forall|u: int| #[trigger] self.forward_edge(u, v as int) implies rank@[u] < r by {
                assert(links(preds@, v as int, u) == self.step(true, v as int, u));
                assert(0 <= u < self.size());
                assert(self.blocks.len() <= usize::MAX);
                assert((u as usize) as int == u);
                assert(preds@[v as int]@.contains(u as usize));
                let k = choose|k: int|
                    0 <= k < preds@[v as int]@.len() && preds@[v as int]@[k] == u as usize;
                assert(preds@[v as int]@[k] as int == u);
                assert(!self.dominates(v as int, u));
                assert(!dom@[v as int]@[u]);
            }
        }
        true
    }

    /// The rank of every block: the round that numbers it, where a round numbers
    /// the blocks whose forward edges all come from blocks numbered before. A block
    /// that no round numbers gets the size of the graph.
    pub fn ranks(&self, preds: &Vec<Vec<usize>>, dom: &Vec<Vec<bool>>) -> (rank: Vec<usize>)
        requires
            lists_match(*self, true, preds@),
            dom_matches(*self, dom@),
        ensures
            ranks_match(*self, rank@),
    {
        let n = self.blocks.len();
        let mut rank: Vec<usize> = Vec::new();
        let mut i: usize = 0;
        while i < n
            invariant
                i <= n,
                rank@.len() == i,
                forall|k: int| 0 <= k < i ==> rank@[k] == n,
            decreases n - i,
        {
            rank.push(n);
            i = i + 1;
        }
        let mut order: Vec<usize> = Vec::new();
        let mut r: usize = 0;
        loop
            invariant
                n == self.size(),
                lists_match(*self, true, preds@),
                dom_matches(*self, dom@),
                rank@.len() == n,
                r <= order@.len(),
                r <= n,
                order@.no_duplicates(),
                forall|k: int| 0 <= k < order@.len() ==> order@[k] < n && rank@[order@[k] as int] < n,
                forall|x: int| 0 <= x < n && rank@[x] < n ==> order@.contains(x as usize),
                forall|x: int| 0 <= x < n ==> (#[trigger] rank@[x]) <= n,
                forall|x: int| 0 <= x < n ==> (#[trigger] rank@[x] < r <==> self.placed_within(x, r as nat)),
                forall|x: int| 0 <= x < n ==> (#[trigger] rank@[x] < n <==> self.placed_within(x, r as nat)),
                forall|x: int|
                    0 <= x < n && #[trigger] rank@[x] < n ==> self.has_rank(x, rank@[x] as nat),
            ensures
                ranks_match(*self, rank@),
            decreases n - r,
        {
            let mut changed = false;
            let mut v: usize = 0;
            let ghost len0 = order@.len();
            while v < n
                invariant
                    n == self.size(),
                    lists_match(*self, true, preds@),
                    dom_matches(*self, dom@),
                    rank@.len() == n,
                    v <= n,
                    r <= len0,
                    len0 <= order@.len(),
                    changed ==> len0 < order@.len(),
                    !changed ==> forall|x: int| 0 <= x < v && #[trigger] self.placed_within(x, (r + 1) as nat) ==> self.placed_within(x, r as nat),
                    order@.no_duplicates(),
                    forall|k: int|
                        0 <= k < order@.len() ==> order@[k] < n && rank@[order@[k] as int] < n,
                    forall|x: int| 0 <= x < n && rank@[x] < n ==> order@.contains(x as usize),
                    forall|x: int| 0 <= x < n ==> (#[trigger] rank@[x]) <= n,
                    forall|x: int|
                        0 <= x < n ==> (#[trigger] rank@[x] < r <==> self.placed_within(x, r as nat)),
                    forall|x: int|
                        0 <= x < v ==> (#[trigger] rank@[x] < n <==> self.placed_within(
                            x,
                            (r + 1) as nat,
                        )),
                    forall|x: int|
                        v <= x < n ==> (#[trigger] rank@[x] < n <==> self.placed_within(x, r as nat)),
                    forall|x: int|
                        0 <= x < n && #[trigger] rank@[x] < n ==> self.has_rank(x, rank@[x] as nat),
                decreases n - v,
            {
                if rank[v] == n {
                    let ok = self.ready(preds, dom, &rank, v, r);
                    proof {
                        assert(ok == forall|u: int| #[trigger]
                            self.forward_edge(u, v as int) ==> self.placed_within(u, r as nat)) by {
                            assert forall|u: int| #[trigger] self.forward_edge(u, v as int) implies (rank@[u] < r <==> self.placed_within(u, r as nat)) by {}
                        }
                        assert(ok == self.placed_within(v as int, (r + 1) as nat));
                    }
                    if ok {
                        let ghost before = order@;
                        let ghost old_rank = rank@;
                        proof {
                            assert(!before.contains(v)) by {
                                if before.contains(v) {
                                    let k = choose|k: int| 0 <= k < before.len() && before[k] == v;
                                    assert(rank@[before[k] as int] < n);
                                }
                            }
                        }
                        order.push(v);
                        proof {
                            assert(order@.no_duplicates()) by {
                                assert forall|a: int, b: int|
                                    0 <= a < order@.len() && 0 <= b < order@.len() && a != b implies order@[a]
                                    != order@[b] by {
                                    if a < before.len() && b < before.len() {
                                        assert(before[a] != before[b]);
                                    } else if a < before.len() {
                                        assert(before.contains(before[a]));
                                    } else {
                                        assert(before.contains(before[b]));
                                    }
                                }
                            }
                            crate::reach::lemma_distinct_bounded(order@, n as nat);
                        }
                        rank.set(v, r);
                        changed = true;
                        proof {
                            assert forall|x: int| 0 <= x < n && rank@[x] < n implies order@.contains(
                                x as usize,
                            ) by {
                                if x == v {
                                    assert(order@[before.len() as int] == v);
                                } else {
                                    assert(old_rank[x] < n);
                                    let k = choose|k: int|
                                        0 <= k < before.len() && before[k] == x as usize;
                                    assert(order@[k] == x as usize);
                                }
                            }
                            assert forall|k: int| 0 <= k < order@.len() implies order@[k] < n
                                && rank@[order@[k] as int] < n by {
                                if k < before.len() {
                                    assert(order@[k] == before[k]);
                                }
                            }
                        }
                    }
                } else {
                    proof {
                        self.lemma_placed_monotone(v as int, r as nat, (r + 1) as nat);
                    }
                }
                v = v + 1;
            }
            if !changed {
                proof {
                    assert forall|x: int| 0 <= x < n implies {
                        &&& (#[trigger] rank@[x]) <= n
                        &&& rank@[x] < n ==> self.has_rank(x, rank@[x] as nat)
                        &&& rank@[x] == n ==> !self.orderable(x)
                    } by {
                        if rank@[x] == n && self.orderable(x) {
                            let k = choose|k: nat| self.placed_within(x, k);
                            self.lemma_rounds_settle(r as nat, x, k);
                        }
                    }
                }
                break;
            }
            proof {
                crate::reach::lemma_distinct_bounded(order@, n as nat);
                assert forall|x: int| 0 <= x < n implies (#[trigger] rank@[x] < r + 1
                    <==> self.placed_within(x, (r + 1) as nat)) by {
                    if rank@[x] < n {
                        assert(self.has_rank(x, rank@[x] as nat));
                        if rank@[x] >= r + 1 {
                            self.lemma_placed_monotone(x, (r + 1) as nat, rank@[x] as nat);
                        }
                    }
                }
            }
            r = r + 1;
        }
        rank
    }
}

/// Whether the table holds the natural loops of the graph: row `h`, column `x`
/// says whether `x` belongs to the loop of the header `h`.
pub open spec fn loops_match(g: Graph, members: Seq<Vec<bool>>) -> bool {
    &&& members.len() == g.size()
    &&& forall|h: int| 0 <= h < g.size() ==> (#[trigger] members[h])@.len() == g.size()
    &&& forall|h: int, x: int|
        0 <= h < g.size() && 0 <= x < g.size() ==> members[h]@[x] == g.in_loop(h, x)
}

/// The facts that structuring draws on.
#[derive(Debug)]
pub struct Analysis {
    /// The successors of every block.
    pub succs: Vec<Vec<usize>>,
    /// The predecessors of every block.
    pub preds: Vec<Vec<usize>>,
    /// Row `d`, column `b`: whether `d` dominates `b`.
    pub dom: Vec<Vec<bool>>,
    /// The closest strict dominator of every block.
    pub idom: Vec<Option<usize>>,
    /// Which blocks are loop headers.
    pub headers: Vec<bool>,
    /// Row `h`, column `x`: whether `x` belongs to the natural loop of `h`.
    pub members: Vec<Vec<bool>>,
    /// The number of natural loops around every block.
    pub depth: Vec<usize>,
    /// The rank of every block, or the size of the graph where it has none.
    pub rank: Vec<usize>,
}

impl Analysis {
    /// Whether the facts are those of the graph.
    pub open spec fn describes(&self, g: Graph) -> bool {
        &&& lists_match(g, false, self.succs@)
        &&& lists_match(g, true, self.preds@)
        &&& dom_matches(g, self.dom@)
        &&& self.idom@.len() == g.size()
        &&& forall|b: int|
            0 <= b < g.size() ==> match #[trigger] self.idom@[b] {
                Some(d) => d < g.size() && g.is_idom(d as int, b) && forall|e: int|
                    0 <= e < d ==> !g.is_idom(e, b),
                None => forall|e: int| !g.is_idom(e, b),
            }
        &&& self.headers@.len() == g.size()
        &&& forall|h: int| 0 <= h < g.size() ==> #[trigger] self.headers@[h] == g.is_header(h)
        &&& loops_match(g, self.members@)
        &&& self.depth@.len() == g.size()
        &&& forall|b: int| 0 <= b < g.size() ==> #[trigger] self.depth@[b] == g.loop_depth(b)
        &&& ranks_match(g, self.rank@)
    }

    /// Whether every block has a rank.
    pub fn all_ranked(&self) -> (b: bool)
        ensures
            b == forall|x: int| 0 <= x < self.rank@.len() ==> self.rank@[x] < self.rank@.len(),
    {
        let n = self.rank.len();
        let mut x: usize = 0;
        while x < n
            invariant
                n == self.rank@.len(),
                x <= n,
                forall|y: int| 0 <= y < x ==> self.rank@[y] < n,
            decreases n - x,
        {
            if !(self.rank[x] < n) {
                return false;
            }
            x = x + 1;
        }
        true
    }
}

/// Computes dominance, the natural loops and the ranks of a graph.
pub fn analyze(g: &Graph) -> (a: Analysis)
    requires
        g.closed(),
    ensures
        a.describes(*g),
{
    let n = g.blocks.len();
    let succs = g.successor_lists();
    proof {
        g.lemma_successor_lists_match(succs@);
    }
    let preds = g.predecessor_lists(&succs);
    let dom = g.dominators(&succs);
    let mut idom: Vec<Option<usize>> = Vec::new();
    let mut headers: Vec<bool> = Vec::new();
    let mut members: Vec<Vec<bool>> = Vec::new();
    let mut b: usize = 0;
    while b < n
        invariant
            n == g.size(),
            g.closed(),
            lists_match(*g, false, succs@),
            lists_match(*g, true, preds@),
            dom_matches(*g, dom@),
            b <= n,
            idom@.len() == b,
            headers@.len() == b,
            members@.len() == b,
            forall|c: int|
                0 <= c < b ==> match #[trigger] idom@[c] {
                    Some(d) => d < g.size() && g.is_idom(d as int, c) && forall|e: int|
                        0 <= e < d ==> !g.is_idom(e, c),
                    None => forall|e: int| !g.is_idom(e, c),
                },
            forall|h: int| 0 <= h < b ==> #[trigger] headers@[h] == g.is_header(h),
            forall|h: int| 0 <= h < b ==> (#[trigger] members@[h])@.len() == n,
            forall|h: int, x: int| 0 <= h < b && 0 <= x < n ==> members@[h]@[x] == g.in_loop(h, x),
        decreases n - b,
    {
        let d = g.immediate_dominator(&dom, b);
        idom.push(d);
        let row = g.loop_members(&succs, &preds, &dom, b);
        headers.push(row[b]);
        members.push(row);
        b = b + 1;
    }
    let mut depth: Vec<usize> = Vec::new();
    let mut c: usize = 0;
    while c < n
        invariant
            n == g.size(),
            loops_match(*g, members@),
            c <= n,
            depth@.len() == c,
            forall|x: int| 0 <= x < c ==> #[trigger] depth@[x] == g.loop_depth(x),
        decreases n - c,
    {
        let k = g.nesting_depth(&members, c);
        depth.push(k);
        c = c + 1;
    }
    let rank = g.ranks(&preds, &dom);
    Analysis { succs, preds, dom, idom, headers, members, depth, rank }
}

} // verus!
