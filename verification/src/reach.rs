//! Reachability over adjacency lists, with one node that paths may not touch.

use vstd::prelude::*;
use vstd::set_lib::*;

verus! {

/// Whether the lists name only nodes of the graph.
pub open spec fn lists_closed(adj: Seq<Vec<usize>>) -> bool {
    forall|u: int, k: int|
        0 <= u < adj.len() && 0 <= k < adj[u]@.len() ==> (#[trigger] adj[u]@[k]) < adj.len()
}

/// Whether `v` stands in the list of `u`.
pub open spec fn links(adj: Seq<Vec<usize>>, u: int, v: int) -> bool {
    0 <= u < adj.len() && 0 <= v < adj.len() && adj[u]@.contains(v as usize)
}

/// Whether a path of at most `k` links leads from a seed to `x` and never touches `avoid`.
pub open spec fn reach_within(
    adj: Seq<Vec<usize>>,
    seeds: Seq<bool>,
    avoid: int,
    x: int,
    k: nat,
) -> bool
    decreases k,
{
    &&& 0 <= x < adj.len()
    &&& x != avoid
    &&& {
        ||| (x < seeds.len() && seeds[x])
        ||| (k > 0 && exists|p: int|
            reach_within(adj, seeds, avoid, p, (k - 1) as nat) && #[trigger] links(adj, p, x))
    }
}

/// Whether some path leads from a seed to `x` and never touches `avoid`.
pub open spec fn reaches(adj: Seq<Vec<usize>>, seeds: Seq<bool>, avoid: int, x: int) -> bool {
    exists|k: nat| reach_within(adj, seeds, avoid, x, k)
}

/// A seed other than `avoid` is reached.
pub proof fn lemma_seed_reached(adj: Seq<Vec<usize>>, seeds: Seq<bool>, avoid: int, x: int)
    requires
        0 <= x < adj.len(),
        x < seeds.len(),
        seeds[x],
        x != avoid,
    ensures
        reaches(adj, seeds, avoid, x),
{
    assert(reach_within(adj, seeds, avoid, x, 0));
}

/// What is linked from a reached node is reached, unless it is `avoid`.
pub proof fn lemma_link_reached(
    adj: Seq<Vec<usize>>,
    seeds: Seq<bool>,
    avoid: int,
    p: int,
    x: int,
)
    requires
        reaches(adj, seeds, avoid, p),
        links(adj, p, x),
        x != avoid,
    ensures
        reaches(adj, seeds, avoid, x),
{
    let k = choose|k: nat| reach_within(adj, seeds, avoid, p, k);
    assert(reach_within(adj, seeds, avoid, x, k + 1));
}

/// A set that holds the seeds and is closed under links holds all that is reached.
pub proof fn lemma_closed_holds_reached(
    adj: Seq<Vec<usize>>,
    seeds: Seq<bool>,
    avoid: int,
    marks: Seq<bool>,
    x: int,
    k: nat,
)
    requires
        marks.len() == adj.len(),
        forall|s: int|
            0 <= s < adj.len() && s < seeds.len() && seeds[s] && s != avoid ==> marks[s],
        forall|p: int, q: int|
            0 <= p < adj.len() && marks[p] && #[trigger] links(adj, p, q) && q != avoid
                ==> marks[q],
        reach_within(adj, seeds, avoid, x, k),
    ensures
        marks[x],
    decreases k,
{
    if !(x < seeds.len() && seeds[x]) {
        let p = choose|p: int|
            reach_within(adj, seeds, avoid, p, (k - 1) as nat) && #[trigger] links(adj, p, x);
        lemma_closed_holds_reached(adj, seeds, avoid, marks, p, (k - 1) as nat);
    }
}

/// A list of integers without repeats, all from 0 up to `n`, has at most `n` items.
pub proof fn lemma_distinct_ints(t: Seq<int>, n: nat)
    requires
        t.no_duplicates(),
        forall|i: int| 0 <= i < t.len() ==> 0 <= #[trigger] t[i] < n,
    ensures
        t.len() <= n,
{
    t.unique_seq_to_set();
    lemma_int_range(0, n as int);
    assert(t.to_set().subset_of(set_int_range(0, n as int))) by {
        assert forall|v: int| t.to_set().contains(v) implies set_int_range(0, n as int).contains(
            v,
        ) by {
            let i = choose|i: int| 0 <= i < t.len() && t[i] == v;
            assert(0 <= t[i] < n);
        }
    }
    lemma_len_subset(t.to_set(), set_int_range(0, n as int));
}

/// A list without repeats whose items lie below `n` has at most `n` items.
pub proof fn lemma_distinct_bounded(s: Seq<usize>, n: nat)
    requires
        s.no_duplicates(),
        forall|i: int| 0 <= i < s.len() ==> s[i] < n,
    ensures
        s.len() <= n,
{
    let t = s.map_values(|x: usize| x as int);
    assert(t.no_duplicates()) by {
        assert forall|i: int, j: int| 0 <= i < t.len() && 0 <= j < t.len() && i != j implies t[i]
            != t[j] by {
            assert(s[i] != s[j]);
        }
    }
    assert forall|i: int| 0 <= i < t.len() implies 0 <= #[trigger] t[i] < n by {
        assert(s[i] < n);
    }
    lemma_distinct_ints(t, n);
}

/// Marks every node that some path from a seed reaches without touching `avoid`.
/// An `avoid` that names no node forbids nothing.
pub fn closure(adj: &Vec<Vec<usize>>, seeds: &Vec<bool>, avoid: usize) -> (marks: Vec<bool>)
    requires
        lists_closed(adj@),
        seeds@.len() == adj@.len(),
    ensures
        marks@.len() == adj@.len(),
        forall|x: int|
            0 <= x < adj@.len() ==> marks@[x] == reaches(adj@, seeds@, avoid as int, x),
{
    let n = adj.len();
    let mut marks: Vec<bool> = Vec::new();
    let mut order: Vec<usize> = Vec::new();
    let mut s: usize = 0;
    while s < n
        invariant
            n == adj@.len(),
            seeds@.len() == n,
            s <= n,
            marks@.len() == s,
            forall|x: int| 0 <= x < s ==> marks@[x] == (seeds@[x] && x != avoid),
            forall|i: int| 0 <= i < order@.len() ==> order@[i] < s && marks@[order@[i] as int],
            forall|x: int| 0 <= x < s && marks@[x] ==> order@.contains(x as usize),
            order@.no_duplicates(),
        decreases n - s,
    {
        let m = seeds[s] && s != avoid;
        marks.push(m);
        if m {
            let ghost before = order@;
            order.push(s);
            assert forall|x: int| 0 <= x < s + 1 && marks@[x] implies order@.contains(
                x as usize,
            ) by {
                if x < s {
                    let i = choose|i: int| 0 <= i < before.len() && before[i] == x as usize;
                    assert(order@[i] == x as usize);
                } else {
                    assert(order@[before.len() as int] == x as usize);
                }
            }
        }
        s = s + 1;
    }
    proof {
        assert forall|x: int| 0 <= x < n && marks@[x] implies reaches(
            adj@,
            seeds@,
            avoid as int,
            x,
        ) by {
            lemma_seed_reached(adj@, seeds@, avoid as int, x);
        }
    }
    let mut i: usize = 0;
    while i < order.len()
        invariant
            n == adj@.len(),
            lists_closed(adj@),
            seeds@.len() == n,
            marks@.len() == n,
            i <= order@.len(),
            forall|x: int| 0 <= x < n && seeds@[x] && x != avoid ==> marks@[x],
            forall|x: int| 0 <= x < n && marks@[x] ==> reaches(adj@, seeds@, avoid as int, x),
            forall|k: int| 0 <= k < order@.len() ==> order@[k] < n && marks@[order@[k] as int],
            forall|x: int| 0 <= x < n && marks@[x] ==> order@.contains(x as usize),
            order@.no_duplicates(),
            forall|k: int, q: int|
                0 <= k < i && #[trigger] links(adj@, order@[k] as int, q) && q != avoid
                    ==> marks@[q],
        decreases n - i,
    {
        proof {
            lemma_distinct_bounded(order@, n as nat);
        }
        let u = order[i];
        let mut j: usize = 0;
        while j < adj[u].len()
            invariant
                n == adj@.len(),
                lists_closed(adj@),
                seeds@.len() == n,
                marks@.len() == n,
                i < order@.len(),
                u == order@[i as int],
                u < n,
                j <= adj@[u as int]@.len(),
                forall|x: int| 0 <= x < n && seeds@[x] && x != avoid ==> marks@[x],
                forall|x: int|
                    0 <= x < n && marks@[x] ==> reaches(adj@, seeds@, avoid as int, x),
                forall|k: int|
                    0 <= k < order@.len() ==> order@[k] < n && marks@[order@[k] as int],
                forall|x: int| 0 <= x < n && marks@[x] ==> order@.contains(x as usize),
                order@.no_duplicates(),
                forall|k: int, q: int|
                    0 <= k < i && #[trigger] links(adj@, order@[k] as int, q) && q != avoid
                        ==> marks@[q],
                forall|k: int|
                    0 <= k < j && adj@[u as int]@[k] != avoid ==> marks@[adj@[u as int]@[k] as int],
            decreases adj@[u as int]@.len() - j,
        {
            let v = adj[u][j];
            assert(v < n);
            if v != avoid && !marks[v] {
                let ghost before = order@;
                let ghost old_marks = marks@;
                marks.set(v, true);
                order.push(v);
                proof {
                    assert(links(adj@, u as int, v as int));
                    lemma_link_reached(adj@, seeds@, avoid as int, u as int, v as int);
                    assert forall|x: int| 0 <= x < n && marks@[x] implies order@.contains(
                        x as usize,
                    ) by {
                        if x == v {
                            assert(order@[before.len() as int] == x as usize);
                        } else {
                            assert(old_marks[x]);
                            let t = choose|t: int| 0 <= t < before.len() && before[t] == x as usize;
                            assert(order@[t] == x as usize);
                        }
                    }
                    assert(order@.no_duplicates()) by {
                        assert forall|a: int, b: int|
                            0 <= a < order@.len() && 0 <= b < order@.len() && a != b implies order@[a]
                            != order@[b] by {
                            if a < before.len() && b < before.len() {
                                assert(before[a] != before[b]);
                            } else if a < before.len() {
                                assert(old_marks[before[a] as int]);
                            } else {
                                assert(old_marks[before[b] as int]);
                            }
                        }
                    }
                }
            }
            j = j + 1;
        }
        proof {
            assert forall|q: int|
                #[trigger] links(adj@, order@[i as int] as int, q) && q != avoid implies marks@[q] by {
                let k = choose|k: int|
                    0 <= k < adj@[u as int]@.len() && adj@[u as int]@[k] == q as usize;
                assert(marks@[adj@[u as int]@[k] as int]);
            }
        }
        i = i + 1;
    }
    proof {
        assert forall|p: int, q: int|
            0 <= p < n && marks@[p] && #[trigger] links(adj@, p, q) && q != avoid implies marks@[q] by {
            let k = choose|k: int| 0 <= k < order@.len() && order@[k] == p as usize;
            assert(links(adj@, order@[k] as int, q));
        }
        assert forall|x: int| 0 <= x < n implies marks@[x] == reaches(
            adj@,
            seeds@,
            avoid as int,
            x,
        ) by {
            if reaches(adj@, seeds@, avoid as int, x) {
                let k = choose|k: nat| reach_within(adj@, seeds@, avoid as int, x, k);
                lemma_closed_holds_reached(adj@, seeds@, avoid as int, marks@, x, k);
            }
        }
    }
    marks
}

/// Whether the list of the `p`-th node of the order names `x` at place `s`.
pub open spec fn refers(adj: Seq<Vec<usize>>, order: Seq<usize>, p: int, s: int, x: usize) -> bool {
    &&& 0 <= p < order.len()
    &&& 0 <= s < adj[order[p] as int]@.len()
    &&& adj[order[p] as int]@[s] == x
}

/// Whether place `s1` of the first node comes before place `s2` of the second.
pub open spec fn earlier(first: int, s1: int, second: int, s2: int) -> bool {
    first < second || (first == second && s1 < s2)
}

/// Whether `from` gives, for every node of the order but the first, the place where
/// the lists name it first, and the nodes stand in the order of those places.
pub open spec fn orders_by_first_mention(
    adj: Seq<Vec<usize>>,
    order: Seq<usize>,
    from: Seq<(int, int)>,
) -> bool {
    &&& from.len() == order.len()
    &&& forall|j: int|
        1 <= j < order.len() ==> {
            &&& (#[trigger] from[j]).0 < j
            &&& refers(adj, order, from[j].0, from[j].1, order[j])
        }
    &&& forall|j: int, p: int, s: int|
        1 <= j < order.len() && #[trigger] refers(adj, order, p, s, order[j]) ==> !earlier(
            p,
            s,
            (#[trigger] from[j]).0,
            from[j].1,
        )
    &&& forall|i: int, j: int|
        1 <= i < j < order.len() ==> earlier(
            (#[trigger] from[i]).0,
            from[i].1,
            (#[trigger] from[j]).0,
            from[j].1,
        )
}

/// Whether the nodes stand in the order in which a walk through the lists meets them:
/// the start first, then every other node where the lists of the nodes before it name
/// it first.
pub open spec fn in_discovery_order(adj: Seq<Vec<usize>>, order: Seq<usize>) -> bool {
    exists|from: Seq<(int, int)>| orders_by_first_mention(adj, order, from)
}

/// The flags with only that of `start` up.
pub open spec fn only(n: int, start: int) -> Seq<bool> {
    Seq::new(n as nat, |i: int| i == start)
}

/// The nodes that paths from `start` reach, each once, in the order in which a walk
/// meets them that takes the nodes in the order found and the list of each in its order.
pub fn discover(adj: &Vec<Vec<usize>>, start: usize) -> (order: Vec<usize>)
    requires
        lists_closed(adj@),
        start < adj@.len(),
    ensures
        order@.len() >= 1,
        order@[0] == start,
        order@.no_duplicates(),
        forall|i: int| 0 <= i < order@.len() ==> order@[i] < adj@.len(),
        forall|x: usize|
            x < adj@.len() ==> (#[trigger] order@.contains(x) <==> reaches(
                adj@,
                only(adj@.len() as int, start as int),
                -1,
                x as int,
            )),
        in_discovery_order(adj@, order@),
{
    let n = adj.len();
    let ghost seeds = only(n as int, start as int);
    let mut marks: Vec<bool> = Vec::new();
    let mut k: usize = 0;
    while k < n
        invariant
            k <= n,
            marks@.len() == k,
            forall|x: int| 0 <= x < k ==> marks@[x] == (x == start),
        decreases n - k,
    {
        marks.push(k == start);
        k = k + 1;
    }
    let mut order: Vec<usize> = Vec::new();
    order.push(start);
    let ghost mut from: Seq<(int, int)> = seq![(0int, 0int)];
    proof {
        lemma_seed_reached(adj@, seeds, -1, start as int);
        assert(order@.no_duplicates());
        assert(order@[0] == start);
        assert(order@.contains(start));
    }
    let mut i: usize = 0;
    while i < order.len()
        invariant
            n == adj@.len(),
            lists_closed(adj@),
            start < n,
            seeds == only(n as int, start as int),
            marks@.len() == n,
            i <= order@.len(),
            order@.len() >= 1,
            order@[0] == start,
            forall|x: int| 0 <= x < n && marks@[x] ==> reaches(adj@, seeds, -1, x),
            forall|k: int| 0 <= k < order@.len() ==> order@[k] < n && marks@[order@[k] as int],
            forall|x: int| 0 <= x < n && marks@[x] ==> order@.contains(x as usize),
            order@.no_duplicates(),
            forall|k: int, q: int|
                0 <= k < i && #[trigger] links(adj@, order@[k] as int, q) ==> marks@[q],
            from.len() == order@.len(),
            forall|j: int|
                1 <= j < order@.len() ==> {
                    &&& (#[trigger] from[j]).0 < j
                    &&& from[j].0 < i
                    &&& refers(adj@, order@, from[j].0, from[j].1, order@[j])
                },
            forall|j: int, p: int, s: int|
                1 <= j < order@.len() && #[trigger] refers(adj@, order@, p, s, order@[j])
                    ==> !earlier(p, s, (#[trigger] from[j]).0, from[j].1),
            forall|a: int, b: int|
                1 <= a < b < order@.len() ==> earlier(
                    (#[trigger] from[a]).0,
                    from[a].1,
                    (#[trigger] from[b]).0,
                    from[b].1,
                ),
        decreases n - i,
    {
        proof {
            lemma_distinct_bounded(order@, n as nat);
        }
        let u = order[i];
        let mut j: usize = 0;
        while j < adj[u].len()
            invariant
                n == adj@.len(),
                lists_closed(adj@),
                start < n,
                seeds == only(n as int, start as int),
                marks@.len() == n,
                i < order@.len(),
                u == order@[i as int],
                u < n,
                j <= adj@[u as int]@.len(),
                order@.len() >= 1,
                order@[0] == start,
                forall|x: int| 0 <= x < n && marks@[x] ==> reaches(adj@, seeds, -1, x),
                forall|k: int| 0 <= k < order@.len() ==> order@[k] < n && marks@[order@[k] as int],
                forall|x: int| 0 <= x < n && marks@[x] ==> order@.contains(x as usize),
                order@.no_duplicates(),
                forall|k: int, q: int|
                    0 <= k < i && #[trigger] links(adj@, order@[k] as int, q) ==> marks@[q],
                forall|k: int| 0 <= k < j ==> marks@[(#[trigger] adj@[u as int]@[k]) as int],
                from.len() == order@.len(),
                forall|t: int|
                    1 <= t < order@.len() ==> {
                        &&& (#[trigger] from[t]).0 < t
                        &&& earlier(from[t].0, from[t].1, i as int, j as int)
                        &&& refers(adj@, order@, from[t].0, from[t].1, order@[t])
                    },
                forall|t: int, p: int, s: int|
                    1 <= t < order@.len() && #[trigger] refers(adj@, order@, p, s, order@[t])
                        ==> !earlier(p, s, (#[trigger] from[t]).0, from[t].1),
                forall|a: int, b: int|
                    1 <= a < b < order@.len() ==> earlier(
                        (#[trigger] from[a]).0,
                        from[a].1,
                        (#[trigger] from[b]).0,
                        from[b].1,
                    ),
            decreases adj@[u as int]@.len() - j,
        {
            let v = adj[u][j];
            assert(v < n);
            if !marks[v] {
                let ghost before = order@;
                let ghost old_marks = marks@;
                let ghost old_from = from;
                marks.set(v, true);
                order.push(v);
                proof {
                    from = from.push((i as int, j as int));
                    assert(links(adj@, u as int, v as int));
                    lemma_link_reached(adj@, seeds, -1, u as int, v as int);
                    assert forall|x: int| 0 <= x < n && marks@[x] implies order@.contains(
                        x as usize,
                    ) by {
                        if x == v {
                            assert(order@[before.len() as int] == x as usize);
                        } else {
                            assert(old_marks[x]);
                            let t = choose|t: int| 0 <= t < before.len() && before[t] == x as usize;
                            assert(order@[t] == x as usize);
                        }
                    }
                    assert(order@.no_duplicates()) by {
                        assert forall|a: int, b: int|
                            0 <= a < order@.len() && 0 <= b < order@.len() && a != b implies order@[a]
                            != order@[b] by {
                            if a < before.len() && b < before.len() {
                                assert(before[a] != before[b]);
                            } else if a < before.len() {
                                assert(old_marks[before[a] as int]);
                            } else {
                                assert(old_marks[before[b] as int]);
                            }
                        }
                    }
                    let last = before.len() as int;
                    assert forall|t: int| 1 <= t < order@.len() implies {
                        &&& (#[trigger] from[t]).0 < t
                        &&& earlier(from[t].0, from[t].1, i as int, j + 1)
                        &&& refers(adj@, order@, from[t].0, from[t].1, order@[t])
                    } by {
                        if t < last {
                            assert(from[t] == old_from[t]);
                            assert(refers(adj@, before, old_from[t].0, old_from[t].1, before[t]));
                            assert(order@[old_from[t].0] == before[old_from[t].0]);
                        }
                    }
                    assert forall|t: int, p: int, s: int|
                        1 <= t < order@.len() && #[trigger] refers(
                            adj@,
                            order@,
                            p,
                            s,
                            order@[t],
                        ) implies !earlier(p, s, (#[trigger] from[t]).0, from[t].1) by {
                        if earlier(p, s, from[t].0, from[t].1) {
                            if t < last {
                                assert(from[t] == old_from[t]);
                                assert(old_from[t].0 < t);
                                assert(order@[p] == before[p]);
                                assert(refers(adj@, before, p, s, before[t]));
                            } else {
                                // an earlier place would have marked `v` before
                                assert(order@[p] == before[p]);
                                if p < i {
                                    assert(links(adj@, before[p] as int, v as int)) by {
                                        assert(adj@[before[p] as int]@[s] == v);
                                    }
                                    assert(old_marks[v as int]);
                                } else {
                                    assert(old_marks[adj@[u as int]@[s] as int]);
                                }
                            }
                        }
                    }
                    assert forall|a: int, b: int| 1 <= a < b < order@.len() implies earlier(
                        (#[trigger] from[a]).0,
                        from[a].1,
                        (#[trigger] from[b]).0,
                        from[b].1,
                    ) by {
                        if b < last {
                            assert(from[a] == old_from[a] && from[b] == old_from[b]);
                        } else {
                            assert(from[a] == old_from[a]);
                            assert(earlier(old_from[a].0, old_from[a].1, i as int, j as int));
                        }
                    }
                }
            } else {
                proof {
                    assert forall|t: int| 1 <= t < order@.len() implies earlier(
                        (#[trigger] from[t]).0,
                        from[t].1,
                        i as int,
                        j + 1,
                    ) by {
                        assert(earlier(from[t].0, from[t].1, i as int, j as int));
                    }
                }
            }
            j = j + 1;
        }
        proof {
            assert forall|q: int| #[trigger] links(adj@, order@[i as int] as int, q) implies marks@[q] by {
                let k = choose|k: int|
                    0 <= k < adj@[u as int]@.len() && adj@[u as int]@[k] == q as usize;
                assert(marks@[adj@[u as int]@[k] as int]);
            }
            assert forall|t: int| 1 <= t < order@.len() implies (#[trigger] from[t]).0 < i + 1 by {
                assert(earlier(from[t].0, from[t].1, i as int, j as int));
            }
        }
        i = i + 1;
    }
    proof {
        assert forall|p: int, q: int|
            0 <= p < n && marks@[p] && #[trigger] links(adj@, p, q) && q != -1 implies marks@[q] by {
            let k = choose|k: int| 0 <= k < order@.len() && order@[k] == p as usize;
            assert(links(adj@, order@[k] as int, q));
        }
        assert forall|x: usize| x < n implies (#[trigger] order@.contains(x) <==> reaches(
            adj@,
            seeds,
            -1,
            x as int,
        )) by {
            let xi = x as int;
            let none: int = -1;
            if reaches(adj@, seeds, none, xi) {
                let k = choose|k: nat| reach_within(adj@, seeds, none, xi, k);
                lemma_closed_holds_reached(adj@, seeds, none, marks@, xi, k);
                assert(marks@[xi]);
            }
            if order@.contains(x) {
                let t = choose|t: int| 0 <= t < order@.len() && order@[t] == x;
                assert(marks@[order@[t] as int]);
            }
        }
        assert(orders_by_first_mention(adj@, order@, from));
    }
    order
}

} // verus!
