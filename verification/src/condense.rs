//! Strongly connected components of a directed graph and the longest-path
//! level of each component in the acyclic graph they form.
use crate::reach::{lemma_reaches_edge, adjacency_ok, edges_within, has_edge, lemma_reaches_refl, lemma_reaches_trans, mutual, reached_from, reaches, successor_lists};
use vstd::prelude::*;

verus! {

/// Number of `x` in `0..n` with `p(x)`.
pub open spec fn count_where(n: nat, p: spec_fn(int) -> bool) -> nat
    decreases n,
{
    if n == 0 {
        0
    } else {
        count_where((n - 1) as nat, p) + if p(n - 1) { 1nat } else { 0nat }
    }
}

pub proof fn lemma_count_where_bound(n: nat, p: spec_fn(int) -> bool, x: int)
    requires
        0 <= x < n,
        !p(x),
    ensures
        count_where(n, p) < n,
    decreases n,
{
    lemma_count_where_le(n, p);
    if x < n - 1 {
        lemma_count_where_bound((n - 1) as nat, p, x);
    } else {
        lemma_count_where_le((n - 1) as nat, p);
    }
}

pub proof fn lemma_count_where_le(n: nat, p: spec_fn(int) -> bool)
    ensures
        count_where(n, p) <= n,
    decreases n,
{
    if n > 0 {
        lemma_count_where_le((n - 1) as nat, p);
    }
}

/// Counting a smaller predicate gives no more, and strictly less when some
/// `x` satisfies only the larger one.
pub proof fn lemma_count_where_mono(n: nat, a: spec_fn(int) -> bool, b: spec_fn(int) -> bool)
    requires
        forall|x: int| 0 <= x < n && #[trigger] a(x) ==> b(x),
    ensures
        count_where(n, a) <= count_where(n, b),
        (exists|x: int| 0 <= x < n && #[trigger] b(x) && !a(x)) ==> count_where(n, a) < count_where(n, b),
    decreases n,
{
    if n > 0 {
        lemma_count_where_mono((n - 1) as nat, a, b);
        if exists|x: int| 0 <= x < n && #[trigger] b(x) && !a(x) {
            let x = choose|x: int| 0 <= x < n && #[trigger] b(x) && !a(x);
            if x < n - 1 {
                assert(exists|y: int| 0 <= y < n - 1 && #[trigger] b(y) && !a(y));
            }
        }
    }
}

/// Each node's component number; equal numbers exactly for nodes that reach
/// each other, and every number below `count` used.
pub open spec fn components_ok(es: Seq<(usize, usize)>, n: int, comp: Seq<usize>, count: int) -> bool {
    &&& comp.len() == n
    &&& forall|u: int| 0 <= u < n ==> #[trigger] comp[u] < count
    &&& forall|u: int, v: int| 0 <= u < n && 0 <= v < n ==> (comp[u] == comp[v] <==> #[trigger] mutual(es, u, v))
    &&& forall|c: int| 0 <= c < count ==> #[trigger] numbered(comp, n, c)
}

/// Some node among the first `n` carries component number `c`.
pub open spec fn numbered(comp: Seq<usize>, n: int, c: int) -> bool {
    exists|u: int| 0 <= u < n && #[trigger] comp[u] == c
}

/// Edge `e` joins two different components.
pub open spec fn crosses(es: Seq<(usize, usize)>, comp: Seq<usize>, e: int) -> bool {
    comp[es[e].0 as int] != comp[es[e].1 as int]
}

/// Each node's level is the length of the longest chain of components that
/// leads to its own: every crossing edge climbs at least one level, a node's
/// whole component shares its level, and a positive level is attained by some
/// crossing edge into the component.
pub open spec fn levels_ok(es: Seq<(usize, usize)>, n: int, comp: Seq<usize>, level: Seq<usize>) -> bool {
    &&& level.len() == n
    &&& forall|e: int| 0 <= e < es.len() && #[trigger] crosses(es, comp, e) ==> level[es[e].0 as int] + 1 <= level[es[e].1 as int]
    &&& forall|u: int, v: int| 0 <= u < n && 0 <= v < n && #[trigger] comp[u] == #[trigger] comp[v] ==> level[u] == level[v]
    &&& forall|v: int| 0 <= v < n ==> #[trigger] level[v] == 0 || exists|e: int| 0 <= e < es.len() && crosses(es, comp, e) && comp[es[e].1 as int] == comp[v] && #[trigger] level[es[e].0 as int] + 1 == level[v]
}

/// The reachability table: row `u` marks the nodes that `u` reaches.
pub open spec fn table_ok(es: Seq<(usize, usize)>, n: int, table: Seq<Vec<bool>>) -> bool {
    &&& table.len() == n
    &&& forall|u: int| 0 <= u < n ==> (#[trigger] table[u])@.len() == n
    &&& forall|u: int, v: int| 0 <= u < n && 0 <= v < n ==> (table[u]@[v] <==> #[trigger] reaches(es, u, v))
}

pub fn reach_table(edges: &Vec<(usize, usize)>, n: usize) -> (table: Vec<Vec<bool>>)
    requires
        edges_within(edges@, n as int),
    ensures
        table_ok(edges@, n as int, table@),
{
    let adj = successor_lists(edges, n);
    let mut table: Vec<Vec<bool>> = Vec::new();
    let mut u: usize = 0;
    while u < n
        invariant
            u <= n,
            edges_within(edges@, n as int),
            adjacency_ok(edges@, n as int, adj@),
            table@.len() == u,
            forall|w: int| 0 <= w < u ==> (#[trigger] table@[w])@.len() == n,
            forall|w: int, v: int| 0 <= w < u && 0 <= v < n ==> (table@[w]@[v] <==> #[trigger] reaches(edges@, w, v)),
        decreases n - u,
    {
        let row = reached_from(&adj, Ghost(edges@), n, u);
        table.push(row);
        u += 1;
    }
    table
}

pub proof fn lemma_mutual_trans(es: Seq<(usize, usize)>, u: int, v: int, w: int)
    requires
        mutual(es, u, v),
        mutual(es, v, w),
    ensures
        mutual(es, u, w),
{
    lemma_reaches_trans(es, u, v, w);
    lemma_reaches_trans(es, w, v, u);
}

/// Numbers the components in the order of their first node.
pub fn number_components(table: &Vec<Vec<bool>>, es: Ghost<Seq<(usize, usize)>>, n: usize) -> (r: (Vec<usize>, usize))
    requires
        table_ok(es@, n as int, table@),
    ensures
        components_ok(es@, n as int, r.0@, r.1 as int),
        r.1 <= n,
{
    let mut comp: Vec<usize> = Vec::new();
    let mut count: usize = 0;
    let mut i: usize = 0;
    while i < n
        invariant
            i <= n,
            count <= i,
            table_ok(es@, n as int, table@),
            comp@.len() == i,
            forall|u: int| 0 <= u < i ==> #[trigger] comp@[u] < count,
            forall|u: int, v: int| 0 <= u < i && 0 <= v < i ==> (comp@[u] == comp@[v] <==> #[trigger] mutual(es@, u, v)),
            forall|c: int| 0 <= c < count ==> #[trigger] numbered(comp@, i as int, c),
        decreases n - i,
    {
        let mut v: usize = 0;
        while v < i && !(table[i][v] && table[v][i])
            invariant
                v <= i < n,
                table_ok(es@, n as int, table@),
                forall|w: int| 0 <= w < v ==> !#[trigger] mutual(es@, i as int, w),
            decreases i - v,
        {
            proof {
                assert(table@[i as int]@[v as int] <==> reaches(es@, i as int, v as int));
                assert(table@[v as int]@[i as int] <==> reaches(es@, v as int, i as int));
            }
            v += 1;
        }
        let ghost before = comp@;
        if v < i {
            proof {
                assert(table@[i as int]@[v as int] <==> reaches(es@, i as int, v as int));
                assert(table@[v as int]@[i as int] <==> reaches(es@, v as int, i as int));
                assert(mutual(es@, i as int, v as int));
            }
            let c = comp[v];
            comp.push(c);
            proof {
                assert forall|a: int, b: int| 0 <= a < i + 1 && 0 <= b < i + 1 implies (comp@[a] == comp@[b] <==> #[trigger] mutual(es@, a, b)) by {
                    if a == i && b == i {
                        lemma_reaches_refl(es@, a);
                    } else if a == i {
                        assert(comp@[b] == before[b]);
                        if mutual(es@, a, b) {
                            lemma_mutual_trans(es@, v as int, a, b);
                        } else if comp@[a] == comp@[b] {
                            assert(mutual(es@, v as int, b));
                            lemma_mutual_trans(es@, a, v as int, b);
                        }
                    } else if b == i {
                        assert(comp@[a] == before[a]);
                        if mutual(es@, a, b) {
                            lemma_mutual_trans(es@, a, b, v as int);
                        } else if comp@[a] == comp@[b] {
                            assert(mutual(es@, a, v as int));
                            lemma_mutual_trans(es@, a, v as int, b);
                        }
                    } else {
                        assert(comp@[a] == before[a] && comp@[b] == before[b]);
                    }
                }
                assert forall|cc: int| 0 <= cc < count implies #[trigger] numbered(comp@, i + 1, cc) by {
                    assert(numbered(before, i as int, cc));
                    let u = choose|u: int| 0 <= u < i && #[trigger] before[u] == cc;
                    assert(comp@[u] == cc);
                }
            }
        } else {
            comp.push(count);
            proof {
                assert forall|a: int, b: int| 0 <= a < i + 1 && 0 <= b < i + 1 implies (comp@[a] == comp@[b] <==> #[trigger] mutual(es@, a, b)) by {
                    if a == i && b == i {
                        lemma_reaches_refl(es@, a);
                    } else if a == i {
                        assert(comp@[b] == before[b]);
                        assert(!mutual(es@, i as int, b));
                    } else if b == i {
                        assert(comp@[a] == before[a]);
                        assert(!mutual(es@, i as int, a));
                    } else {
                        assert(comp@[a] == before[a] && comp@[b] == before[b]);
                    }
                }
                assert forall|cc: int| 0 <= cc < count + 1 implies #[trigger] numbered(comp@, i + 1, cc) by {
                    if cc == count {
                        assert(comp@[i as int] == cc);
                    } else {
                        assert(numbered(before, i as int, cc));
                        let u = choose|u: int| 0 <= u < i && #[trigger] before[u] == cc;
                        assert(comp@[u] == cc);
                    }
                }
            }
            count += 1;
        }
        i += 1;
    }
    (comp, count)
}

} // verus!

verus! {

/// The nodes that reach `v` without being reached back from it.
pub open spec fn strict_anc(es: Seq<(usize, usize)>, v: int) -> spec_fn(int) -> bool {
    |x: int| reaches(es, x, v) && !reaches(es, v, x)
}

/// How many nodes lie strictly upstream of `v`; it grows along every edge
/// that leaves a component, so it orders the components topologically.
pub open spec fn upstream(es: Seq<(usize, usize)>, n: int, v: int) -> nat {
    count_where(n as nat, strict_anc(es, v))
}

pub proof fn lemma_upstream_bound(es: Seq<(usize, usize)>, n: int, v: int)
    requires
        0 <= v < n,
    ensures
        upstream(es, n, v) < n,
{
    lemma_reaches_refl(es, v);
    lemma_count_where_bound(n as nat, strict_anc(es, v), v);
}

pub proof fn lemma_upstream_same(es: Seq<(usize, usize)>, n: int, v: int, w: int)
    requires
        0 <= n,
        mutual(es, v, w),
    ensures
        upstream(es, n, v) == upstream(es, n, w),
{
    let a = strict_anc(es, v);
    let b = strict_anc(es, w);
    assert forall|x: int| 0 <= x < n && #[trigger] a(x) implies b(x) by {
        lemma_reaches_trans(es, x, v, w);
        if reaches(es, w, x) {
            lemma_reaches_trans(es, v, w, x);
        }
    }
    assert forall|x: int| 0 <= x < n && #[trigger] b(x) implies a(x) by {
        lemma_reaches_trans(es, x, w, v);
        if reaches(es, v, x) {
            lemma_reaches_trans(es, w, v, x);
        }
    }
    lemma_count_where_mono(n as nat, a, b);
    lemma_count_where_mono(n as nat, b, a);
}

pub proof fn lemma_upstream_grows(es: Seq<(usize, usize)>, n: int, u: int, v: int)
    requires
        0 <= u < n,
        has_edge(es, u, v),
        !mutual(es, u, v),
    ensures
        upstream(es, n, u) < upstream(es, n, v),
{
    let a = strict_anc(es, u);
    let b = strict_anc(es, v);
    lemma_reaches_edge(es, u, v);
    assert forall|x: int| 0 <= x < n && #[trigger] a(x) implies b(x) by {
        lemma_reaches_trans(es, x, u, v);
        if reaches(es, v, x) {
            lemma_reaches_trans(es, v, x, u);
        }
    }
    lemma_reaches_refl(es, u);
    assert(b(u) && !a(u));
    lemma_count_where_mono(n as nat, a, b);
}

pub fn upstream_counts(table: &Vec<Vec<bool>>, es: Ghost<Seq<(usize, usize)>>, n: usize) -> (key: Vec<usize>)
    requires
        table_ok(es@, n as int, table@),
    ensures
        key@.len() == n,
        forall|v: int| 0 <= v < n ==> #[trigger] key@[v] == upstream(es@, n as int, v),
{
    let mut key: Vec<usize> = Vec::new();
    let mut v: usize = 0;
    while v < n
        invariant
            v <= n,
            table_ok(es@, n as int, table@),
            key@.len() == v,
            forall|w: int| 0 <= w < v ==> #[trigger] key@[w] == upstream(es@, n as int, w),
        decreases n - v,
    {
        let ghost p = strict_anc(es@, v as int);
        let mut cnt: usize = 0;
        let mut x: usize = 0;
        while x < n
            invariant
                x <= n,
                v < n,
                table_ok(es@, n as int, table@),
                p == strict_anc(es@, v as int),
                cnt == count_where(x as nat, p),
                cnt <= x,
            decreases n - x,
        {
            proof {
                assert(table@[x as int]@[v as int] <==> reaches(es@, x as int, v as int));
                assert(table@[v as int]@[x as int] <==> reaches(es@, v as int, x as int));
            }
            if table[x][v] && !table[v][x] {
                cnt += 1;
            }
            x += 1;
        }
        key.push(cnt);
        v += 1;
    }
    key
}

} // verus!

verus! {

/// `v`'s level is the longest-chain level over the crossing edges into its
/// component, and no larger than its upstream count.
pub open spec fn settled(es: Seq<(usize, usize)>, comp: Seq<usize>, key: Seq<usize>, level: Seq<usize>, v: int) -> bool {
    &&& level[v] <= key[v]
    &&& forall|e: int| 0 <= e < es.len() && #[trigger] crosses(es, comp, e) && comp[es[e].1 as int] == comp[v] ==> level[es[e].0 as int] + 1 <= level[v]
    &&& level[v] == 0 || exists|e: int| 0 <= e < es.len() && #[trigger] crosses(es, comp, e) && comp[es[e].1 as int] == comp[v] && level[es[e].0 as int] + 1 == level[v]
}

pub fn component_levels(
    edges: &Vec<(usize, usize)>,
    n: usize,
    comp: &Vec<usize>,
    count: Ghost<int>,
    key: &Vec<usize>,
) -> (level: Vec<usize>)
    requires
        edges_within(edges@, n as int),
        components_ok(edges@, n as int, comp@, count@),
        key@.len() == n,
        forall|v: int| 0 <= v < n ==> #[trigger] key@[v] == upstream(edges@, n as int, v),
    ensures
        levels_ok(edges@, n as int, comp@, level@),
        forall|v: int| 0 <= v < n ==> #[trigger] level@[v] < n,
{
    let ghost es = edges@;
    let mut level: Vec<usize> = Vec::new();
    let mut i: usize = 0;
    while i < n
        invariant
            i <= n,
            level@.len() == i,
            forall|v: int| 0 <= v < i ==> #[trigger] level@[v] == 0,
        decreases n - i,
    {
        level.push(0);
        i += 1;
    }
    let mut s: usize = 0;
    while s < n
        invariant
            s <= n,
            es == edges@,
            edges_within(es, n as int),
            components_ok(es, n as int, comp@, count@),
            key@.len() == n,
            forall|v: int| 0 <= v < n ==> #[trigger] key@[v] == upstream(es, n as int, v),
            level@.len() == n,
            forall|v: int| 0 <= v < n && #[trigger] key@[v] < s ==> settled(es, comp@, key@, level@, v),
        decreases n - s,
    {
        let mut x: usize = 0;
        while x < n
            invariant
                s < n,
                x <= n,
                es == edges@,
                edges_within(es, n as int),
                components_ok(es, n as int, comp@, count@),
                key@.len() == n,
                forall|v: int| 0 <= v < n ==> #[trigger] key@[v] == upstream(es, n as int, v),
                level@.len() == n,
                forall|v: int| 0 <= v < n && (#[trigger] key@[v] < s || (key@[v] == s && v < x)) ==> settled(es, comp@, key@, level@, v),
            decreases n - x,
        {
            if key[x] == s {
                let mut m: usize = 0;
                let mut j: usize = 0;
                while j < edges.len()
                    invariant
                        s < n,
                        x < n,
                        key@[x as int] == s,
                        j <= es.len(),
                        es == edges@,
                        edges_within(es, n as int),
                        components_ok(es, n as int, comp@, count@),
                        key@.len() == n,
                        forall|v: int| 0 <= v < n ==> #[trigger] key@[v] == upstream(es, n as int, v),
                        level@.len() == n,
                        forall|v: int| 0 <= v < n && (#[trigger] key@[v] < s || (key@[v] == s && v < x)) ==> settled(es, comp@, key@, level@, v),
                        m <= s,
                        forall|e: int| 0 <= e < j && #[trigger] crosses(es, comp@, e) && comp@[es[e].1 as int] == comp@[x as int] ==> level@[es[e].0 as int] + 1 <= m,
                        m == 0 || exists|e: int| 0 <= e < j && #[trigger] crosses(es, comp@, e) && comp@[es[e].1 as int] == comp@[x as int] && level@[es[e].0 as int] + 1 == m,
                    decreases es.len() - j,
                {
                    let (a, b) = edges[j];
                    proof {
                        assert(es[j as int].0 < n && es[j as int].1 < n);
                    }
                    if comp[a] != comp[b] && comp[b] == comp[x] {
                        proof {
                            assert(has_edge(es, a as int, b as int));
                            assert(!mutual(es, a as int, b as int));
                            lemma_upstream_grows(es, n as int, a as int, b as int);
                            assert(mutual(es, b as int, x as int));
                            lemma_upstream_same(es, n as int, b as int, x as int);
                            assert(key@[a as int] < s);
                            assert(settled(es, comp@, key@, level@, a as int));
                        }
                        if level[a] + 1 > m {
                            m = level[a] + 1;
                            assert(crosses(es, comp@, j as int) && comp@[es[j as int].1 as int] == comp@[x as int] && level@[es[j as int].0 as int] + 1 == m);
                        }
                    }
                    j += 1;
                }
                let ghost old_level = level@;
                level.set(x, m);
                proof {
                    assert forall|v: int| 0 <= v < n && (#[trigger] key@[v] < s || (key@[v] == s && v < x + 1)) implies settled(es, comp@, key@, level@, v) by {
                        if v == x {
                            assert forall|e: int| 0 <= e < es.len() && #[trigger] crosses(es, comp@, e) && comp@[es[e].1 as int] == comp@[v] implies level@[es[e].0 as int] + 1 <= level@[v] by {
                                let a = es[e].0 as int;
                                let b = es[e].1 as int;
                                assert(has_edge(es, a, b));
                                lemma_upstream_grows(es, n as int, a, b);
                                lemma_upstream_same(es, n as int, b, x as int);
                                assert(level@[a] == old_level[a]);
                            }
                            if m > 0 {
                                let e = choose|e: int| 0 <= e < j && #[trigger] crosses(es, comp@, e) && comp@[es[e].1 as int] == comp@[x as int] && old_level[es[e].0 as int] + 1 == m;
                                let a = es[e].0 as int;
                                let b = es[e].1 as int;
                                assert(has_edge(es, a, b));
                                lemma_upstream_grows(es, n as int, a, b);
                                lemma_upstream_same(es, n as int, b, x as int);
                                assert(level@[a] == old_level[a]);
                            }
                        } else {
                            assert(settled(es, comp@, key@, old_level, v));
                            assert forall|e: int| 0 <= e < es.len() && #[trigger] crosses(es, comp@, e) && comp@[es[e].1 as int] == comp@[v] implies level@[es[e].0 as int] + 1 <= level@[v] by {
                                let a = es[e].0 as int;
                                let b = es[e].1 as int;
                                assert(has_edge(es, a, b));
                                lemma_upstream_grows(es, n as int, a, b);
                                lemma_upstream_same(es, n as int, b, v);
                                assert(level@[a] == old_level[a]);
                            }
                            if level@[v] > 0 {
                                let e = choose|e: int| 0 <= e < es.len() && #[trigger] crosses(es, comp@, e) && comp@[es[e].1 as int] == comp@[v] && old_level[es[e].0 as int] + 1 == old_level[v];
                                let a = es[e].0 as int;
                                let b = es[e].1 as int;
                                assert(has_edge(es, a, b));
                                lemma_upstream_grows(es, n as int, a, b);
                                lemma_upstream_same(es, n as int, b, v);
                                assert(level@[a] == old_level[a]);
                            }
                        }
                    }
                }
            }
            x += 1;
        }
        s += 1;
    }
    proof {
        assert forall|v: int| 0 <= v < n implies #[trigger] settled(es, comp@, key@, level@, v) by {
            lemma_upstream_bound(es, n as int, v);
        }
        assert forall|v: int| 0 <= v < n implies #[trigger] level@[v] < n by {
            assert(settled(es, comp@, key@, level@, v));
            lemma_upstream_bound(es, n as int, v);
        }
        assert forall|u: int, v: int| 0 <= u < n && 0 <= v < n && #[trigger] comp@[u] == #[trigger] comp@[v] implies level@[u] == level@[v] by {
            assert(settled(es, comp@, key@, level@, u));
            assert(settled(es, comp@, key@, level@, v));
            if level@[u] > 0 {
                let e = choose|e: int| 0 <= e < es.len() && #[trigger] crosses(es, comp@, e) && comp@[es[e].1 as int] == comp@[u] && level@[es[e].0 as int] + 1 == level@[u];
            }
            if level@[v] > 0 {
                let e = choose|e: int| 0 <= e < es.len() && #[trigger] crosses(es, comp@, e) && comp@[es[e].1 as int] == comp@[v] && level@[es[e].0 as int] + 1 == level@[v];
            }
        }
        assert forall|e: int| 0 <= e < es.len() && #[trigger] crosses(es, comp@, e) implies level@[es[e].0 as int] + 1 <= level@[es[e].1 as int] by {
            assert(es[e].1 < n);
            assert(settled(es, comp@, key@, level@, es[e].1 as int));
        }
        assert forall|v: int| 0 <= v < n implies #[trigger] level@[v] == 0 || exists|e: int| 0 <= e < es.len() && crosses(es, comp@, e) && comp@[es[e].1 as int] == comp@[v] && #[trigger] level@[es[e].0 as int] + 1 == level@[v] by {
            assert(settled(es, comp@, key@, level@, v));
        }
    }
    level
}

} // verus!

verus! {

/// Component numbers, their count, and the level of each node.
pub fn condense(edges: &Vec<(usize, usize)>, n: usize) -> (r: (Vec<usize>, usize, Vec<usize>))
    requires
        edges_within(edges@, n as int),
    ensures
        components_ok(edges@, n as int, r.0@, r.1 as int),
        r.1 <= n,
        levels_ok(edges@, n as int, r.0@, r.2@),
        forall|v: int| 0 <= v < n ==> #[trigger] r.2@[v] < n,
{
    let table = reach_table(edges, n);
    let (comp, count) = number_components(&table, Ghost(edges@), n);
    let key = upstream_counts(&table, Ghost(edges@), n);
    let level = component_levels(edges, n, &comp, Ghost(count as int), &key);
    (comp, count, level)
}

} // verus!
