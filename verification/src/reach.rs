//! Reachability in a directed graph given as a list of edges over the nodes
//! `0..n`: adjacency lists, breadth-first closure from one node, and the
//! mutual-reachability relation that defines strongly connected components.
use vstd::prelude::*;

verus! {

/// `(u, v)` is one of the edges.
pub open spec fn has_edge(edges: Seq<(usize, usize)>, u: int, v: int) -> bool {
    exists|e: int| 0 <= e < edges.len() && edges[e].0 == u && edges[e].1 == v
}

/// `p` is a walk along edges.
pub open spec fn is_walk(edges: Seq<(usize, usize)>, p: Seq<int>) -> bool {
    p.len() >= 1 && forall|i: int| 0 <= i < p.len() - 1 ==> #[trigger] has_edge(edges, p[i], p[i + 1])
}

/// There is a walk (possibly empty) from `u` to `v`.
pub open spec fn reaches(edges: Seq<(usize, usize)>, u: int, v: int) -> bool {
    exists|p: Seq<int>| #[trigger] is_walk(edges, p) && p[0] == u && p[p.len() - 1] == v
}

/// `u` and `v` reach each other: they lie in one strongly connected component.
pub open spec fn mutual(edges: Seq<(usize, usize)>, u: int, v: int) -> bool {
    reaches(edges, u, v) && reaches(edges, v, u)
}

/// Every edge ends inside `0..n`.
pub open spec fn edges_within(edges: Seq<(usize, usize)>, n: int) -> bool {
    forall|e: int| 0 <= e < edges.len() ==> #[trigger] edges[e].0 < n && edges[e].1 < n
}

pub proof fn lemma_reaches_refl(edges: Seq<(usize, usize)>, u: int)
    ensures
        reaches(edges, u, u),
{
    let p = seq![u];
    assert(is_walk(edges, p));
}

pub proof fn lemma_reaches_edge(edges: Seq<(usize, usize)>, u: int, v: int)
    requires
        has_edge(edges, u, v),
    ensures
        reaches(edges, u, v),
{
    let p = seq![u, v];
    assert(has_edge(edges, p[0], p[1]));
    assert(is_walk(edges, p));
}

pub proof fn lemma_reaches_trans(edges: Seq<(usize, usize)>, u: int, v: int, w: int)
    requires
        reaches(edges, u, v),
        reaches(edges, v, w),
    ensures
        reaches(edges, u, w),
{
    let p = choose|p: Seq<int>| #[trigger] is_walk(edges, p) && p[0] == u && p[p.len() - 1] == v;
    let q = choose|q: Seq<int>| #[trigger] is_walk(edges, q) && q[0] == v && q[q.len() - 1] == w;
    let r = p + q.subrange(1, q.len() as int);
    assert forall|i: int| 0 <= i < r.len() - 1 implies #[trigger] has_edge(edges, r[i], r[i + 1]) by {
        if i < p.len() - 1 {
            assert(r[i] == p[i] && r[i + 1] == p[i + 1]);
            assert(has_edge(edges, p[i], p[i + 1]));
        } else if i == p.len() - 1 {
            assert(r[i] == q[0] && r[i + 1] == q[1]);
            assert(has_edge(edges, q[0], q[1]));
        } else {
            let k = i - p.len() + 1;
            assert(r[i] == q[k] && r[i + 1] == q[k + 1]);
            assert(has_edge(edges, q[k], q[k + 1]));
        }
    }
    assert(is_walk(edges, r));
    if q.len() == 1 {
        assert(r =~= p);
    }
}

pub proof fn lemma_reaches_step(edges: Seq<(usize, usize)>, u: int, v: int, w: int)
    requires
        reaches(edges, u, v),
        has_edge(edges, v, w),
    ensures
        reaches(edges, u, w),
{
    lemma_reaches_edge(edges, v, w);
    lemma_reaches_trans(edges, u, v, w);
}

/// A set of nodes that holds `u` and is closed under edges holds every node
/// that `u` reaches.
pub proof fn lemma_closed_holds_reached(
    edges: Seq<(usize, usize)>,
    set: spec_fn(int) -> bool,
    u: int,
    v: int,
)
    requires
        set(u),
        forall|e: int| 0 <= e < edges.len() && #[trigger] set(edges[e].0 as int) ==> set(edges[e].1 as int),
        reaches(edges, u, v),
    ensures
        set(v),
{
    let p = choose|p: Seq<int>| #[trigger] is_walk(edges, p) && p[0] == u && p[p.len() - 1] == v;
    lemma_closed_walk(edges, set, p, p.len() - 1);
}

proof fn lemma_closed_walk(edges: Seq<(usize, usize)>, set: spec_fn(int) -> bool, p: Seq<int>, k: int)
    requires
        is_walk(edges, p),
        set(p[0]),
        0 <= k < p.len(),
        forall|e: int| 0 <= e < edges.len() && #[trigger] set(edges[e].0 as int) ==> set(edges[e].1 as int),
    ensures
        set(p[k]),
    decreases k,
{
    if k > 0 {
        lemma_closed_walk(edges, set, p, k - 1);
        let j = k - 1;
        assert(has_edge(edges, p[j], p[j + 1]));
        let e = choose|e: int| 0 <= e < edges.len() && edges[e].0 == p[k - 1] && edges[e].1 == p[k];
        assert(set(edges[e].0 as int));
    }
}

/// For each node, the targets of its outgoing edges, in edge order.
pub open spec fn adjacency_ok(edges: Seq<(usize, usize)>, n: int, adj: Seq<Vec<usize>>) -> bool {
    &&& adj.len() == n
    &&& forall|u: int, k: int| 0 <= u < n && 0 <= k < adj[u]@.len() ==> #[trigger] has_edge(edges, u, adj[u]@[k] as int)
    &&& forall|e: int| 0 <= e < edges.len() ==> #[trigger] adj[edges[e].0 as int]@.contains(edges[e].1)
}

pub fn successor_lists(edges: &Vec<(usize, usize)>, n: usize) -> (adj: Vec<Vec<usize>>)
    requires
        edges_within(edges@, n as int),
    ensures
        adjacency_ok(edges@, n as int, adj@),
{
    let mut adj: Vec<Vec<usize>> = Vec::new();
    let mut i: usize = 0;
    while i < n
        invariant
            i <= n,
            adj@.len() == i,
            forall|u: int| 0 <= u < i ==> (#[trigger] adj@[u])@.len() == 0,
        decreases n - i,
    {
        adj.push(Vec::new());
        i += 1;
    }
    let mut e: usize = 0;
    while e < edges.len()
        invariant
            edges_within(edges@, n as int),
            adj@.len() == n,
            e <= edges@.len(),
            forall|u: int, k: int| 0 <= u < n && 0 <= k < adj@[u]@.len() ==> #[trigger] has_edge(edges@, u, adj@[u]@[k] as int),
            forall|f: int| 0 <= f < e ==> #[trigger] adj@[edges@[f].0 as int]@.contains(edges@[f].1),
        decreases edges@.len() - e,
    {
        let (u, v) = edges[e];
        assert(edges@[e as int].0 < n && edges@[e as int].1 < n);
        let ghost before = adj@;
        adj[u].push(v);
        proof {
            assert(adj@[u as int]@ == before[u as int]@.push(v));
            assert forall|w: int| 0 <= w < n && w != u implies adj@[w] == before[w] by {}
            assert(has_edge(edges@, u as int, v as int));
            assert forall|w: int, k: int| 0 <= w < n && 0 <= k < adj@[w]@.len() implies #[trigger] has_edge(edges@, w, adj@[w]@[k] as int) by {
                if w == u && k == adj@[w]@.len() - 1 {
                } else {
                    assert(adj@[w]@[k] == before[w]@[k]);
                }
            }
            assert forall|f: int| 0 <= f < e + 1 implies #[trigger] adj@[edges@[f].0 as int]@.contains(edges@[f].1) by {
                if f == e {
                    assert(adj@[u as int]@[adj@[u as int]@.len() - 1] == v);
                    assert(adj@[u as int]@.contains(v));
                } else {
                    let w = edges@[f].0 as int;
                    assert(before[w]@.contains(edges@[f].1));
                    let k = choose|k: int| 0 <= k < before[w]@.len() && before[w]@[k] == edges@[f].1;
                    assert(adj@[w]@[k] == before[w]@[k]);
                }
            }
        }
        e += 1;
    }
    adj
}

/// Number of `true` entries.
pub open spec fn count_true(s: Seq<bool>) -> nat
    decreases s.len(),
{
    if s.len() == 0 {
        0
    } else {
        count_true(s.subrange(0, s.len() - 1)) + if s[s.len() - 1] { 1nat } else { 0nat }
    }
}

pub proof fn lemma_count_true_bound(s: Seq<bool>)
    ensures
        count_true(s) <= s.len(),
    decreases s.len(),
{
    if s.len() > 0 {
        lemma_count_true_bound(s.subrange(0, s.len() - 1));
    }
}

pub proof fn lemma_count_true_set(s: Seq<bool>, i: int)
    requires
        0 <= i < s.len(),
        !s[i],
    ensures
        count_true(s.update(i, true)) == count_true(s) + 1,
    decreases s.len(),
{
    let t = s.update(i, true);
    if i == s.len() - 1 {
        assert(t.subrange(0, t.len() - 1) =~= s.subrange(0, s.len() - 1));
    } else {
        lemma_count_true_set(s.subrange(0, s.len() - 1), i);
        assert(t.subrange(0, t.len() - 1) =~= s.subrange(0, s.len() - 1).update(i, true));
    }
}

/// Marks every node that `start` reaches.
pub fn reached_from(adj: &Vec<Vec<usize>>, edges: Ghost<Seq<(usize, usize)>>, n: usize, start: usize) -> (seen: Vec<bool>)
    requires
        start < n,
        adjacency_ok(edges@, n as int, adj@),
        edges_within(edges@, n as int),
    ensures
        seen@.len() == n,
        forall|v: int| 0 <= v < n ==> (#[trigger] seen@[v] <==> reaches(edges@, start as int, v)),
{
    let ghost es = edges@;
    let mut seen: Vec<bool> = Vec::new();
    let mut i: usize = 0;
    while i < n
        invariant
            i <= n,
            seen@.len() == i,
            forall|v: int| 0 <= v < i ==> !(#[trigger] seen@[v]),
        decreases n - i,
    {
        seen.push(false);
        i += 1;
    }
    proof {
        lemma_count_true_set(seen@, start as int);
    }
    seen.set(start, true);
    proof {
        lemma_reaches_refl(es, start as int);
        lemma_count_true_bound(seen@);
    }
    let mut stack: Vec<usize> = Vec::new();
    stack.push(start);
    assert(stack@[0] == start);
    assert(stack@.contains(start));
    while stack.len() > 0
        invariant
            adjacency_ok(es, n as int, adj@),
            edges_within(es, n as int),
            seen@.len() == n,
            start < n,
            seen@[start as int],
            count_true(seen@) <= n,
            forall|v: int| 0 <= v < n && #[trigger] seen@[v] ==> reaches(es, start as int, v),
            forall|k: int| 0 <= k < stack@.len() ==> #[trigger] stack@[k] < n && seen@[stack@[k] as int],
            forall|e: int| 0 <= e < es.len() && #[trigger] seen@[es[e].0 as int] && !stack@.contains(es[e].0) ==> seen@[es[e].1 as int],
        decreases 2 * (n - count_true(seen@)) + stack@.len(),
    {
        let ghost measure = 2 * (n - count_true(seen@)) + stack@.len();
        let ghost old_stack = stack@;
        let u = stack.pop().unwrap();
        proof {
            assert(old_stack =~= stack@.push(u));
            assert forall|e: int| 0 <= e < es.len() && #[trigger] seen@[es[e].0 as int] && !stack@.contains(es[e].0) && es[e].0 != u implies seen@[es[e].1 as int] by {
                if old_stack.contains(es[e].0) {
                    let k = choose|k: int| 0 <= k < old_stack.len() && old_stack[k] == es[e].0;
                    if k < stack@.len() {
                        assert(stack@[k] == es[e].0);
                        assert(stack@.contains(es[e].0));
                    }
                }
            }
            assert(u < n && seen@[u as int]) by {
                assert(old_stack[old_stack.len() - 1] == u);
            }
        }
        let targets = &adj[u];
        let mut k: usize = 0;
        while k < targets.len()
            invariant
                adjacency_ok(es, n as int, adj@),
                edges_within(es, n as int),
                targets@ == adj@[u as int]@,
                u < n,
                k <= targets@.len(),
                seen@.len() == n,
                start < n,
                seen@[start as int],
                seen@[u as int],
                reaches(es, start as int, u as int),
                count_true(seen@) <= n,
                2 * (n - count_true(seen@)) + stack@.len() < measure,
                forall|v: int| 0 <= v < n && #[trigger] seen@[v] ==> reaches(es, start as int, v),
                forall|j: int| 0 <= j < stack@.len() ==> #[trigger] stack@[j] < n && seen@[stack@[j] as int],
                forall|e: int| 0 <= e < es.len() && #[trigger] seen@[es[e].0 as int] && !stack@.contains(es[e].0) && es[e].0 != u ==> seen@[es[e].1 as int],
                forall|j: int| 0 <= j < k ==> #[trigger] seen@[targets@[j] as int],
            decreases targets@.len() - k,
        {
            let v = targets[k];
            proof {
                assert(has_edge(es, u as int, v as int));
                let e = choose|e: int| 0 <= e < es.len() && es[e].0 == u && es[e].1 == v;
                assert(es[e].1 < n);
            }
            let ghost old_seen = seen@;
            if !seen[v] {
                proof {
                    lemma_reaches_step(es, start as int, u as int, v as int);
                    lemma_count_true_set(seen@, v as int);
                    lemma_count_true_bound(seen@.update(v as int, true));
                }
                let ghost before = stack@;
                seen.set(v, true);
                stack.push(v);
                proof {
                    assert forall|e: int| 0 <= e < es.len() && #[trigger] seen@[es[e].0 as int] && !stack@.contains(es[e].0) && es[e].0 != u implies seen@[es[e].1 as int] by {
                        if es[e].0 != v {
                            if before.contains(es[e].0) {
                                let j = choose|j: int| 0 <= j < before.len() && before[j] == es[e].0;
                                assert(stack@[j] == es[e].0);
                            }
                        } else {
                            assert(stack@[stack@.len() - 1] == v);
                        }
                    }
                }
            }
            assert(seen@[v as int]);
            assert forall|j: int| 0 <= j < k + 1 implies #[trigger] seen@[targets@[j] as int] by {
                if j < k {
                    assert(old_seen[targets@[j] as int]);
                    assert(has_edge(es, u as int, targets@[j] as int));
                    let e = choose|e: int| 0 <= e < es.len() && es[e].0 == u && es[e].1 == targets@[j];
                    assert(es[e].1 < n);
                }
            }
            k += 1;
        }
        proof {
            assert forall|e: int| 0 <= e < es.len() && #[trigger] seen@[es[e].0 as int] && !stack@.contains(es[e].0) implies seen@[es[e].1 as int] by {
                if es[e].0 == u {
                    assert(adj@[u as int]@.contains(es[e].1));
                    let j = choose|j: int| 0 <= j < targets@.len() && targets@[j] == es[e].1;
                    assert(seen@[targets@[j] as int]);
                }
            }
        }
    }
    proof {
        assert forall|v: int| 0 <= v < n && reaches(es, start as int, v) implies #[trigger] seen@[v] by {
            let set = |w: int| 0 <= w < n && seen@[w];
            assert forall|e: int| 0 <= e < es.len() && #[trigger] set(es[e].0 as int) implies set(es[e].1 as int) by {
                assert(!stack@.contains(es[e].0));
                assert(es[e].1 < n);
            }
            lemma_closed_holds_reached(es, set, start as int, v);
        }
    }
    seen
}

} // verus!
