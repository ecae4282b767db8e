//! Column layout of a relationship graph: each node goes to the column of its
//! level, nodes that end the graph share one final column, and the order
//! within each column follows the positions of connected nodes.
use crate::dependency_graph::{DependencyGraph, DependencyGraphNode};
use crate::order::{chars_lt, lemma_chars_lt_irrefl, lemma_chars_lt_total, lemma_chars_lt_trans, sort_indices, sorted_by, str_less, strict_total_on};
use vstd::prelude::*;

verus! {

/// Which neighbours place a node: those with an edge into it, or those it
/// has an edge to.
#[derive(Clone, Copy, PartialEq, Eq, Structural)]
enum NeighborDirection {
    Incoming,
    Outgoing,
}

/// The bound on node positions and edge counts under which ranks are computed.
pub open spec fn layout_bound() -> int {
    0x1_0000_0000
}

/// Edge `e` links `x` with a neighbour in direction `incoming`.
pub open spec fn links(edges: Seq<(usize, usize)>, x: usize, incoming: bool, e: int) -> bool {
    if incoming { edges[e].1 == x } else { edges[e].0 == x }
}

/// The neighbour of `x` across edge `e`.
pub open spec fn across(edges: Seq<(usize, usize)>, incoming: bool, e: int) -> usize {
    if incoming { edges[e].0 } else { edges[e].1 }
}

/// The number of neighbours of `x` among the first `k` edges.
pub open spec fn neighbor_count(edges: Seq<(usize, usize)>, x: usize, incoming: bool, k: int) -> int
    decreases k,
{
    if k <= 0 {
        0
    } else {
        neighbor_count(edges, x, incoming, k - 1) + if links(edges, x, incoming, k - 1) { 1int } else { 0int }
    }
}

/// The sum of the positions of those neighbours.
pub open spec fn neighbor_sum(edges: Seq<(usize, usize)>, positions: Seq<usize>, x: usize, incoming: bool, k: int) -> int
    decreases k,
{
    if k <= 0 {
        0
    } else {
        neighbor_sum(edges, positions, x, incoming, k - 1) + if links(edges, x, incoming, k - 1) {
            positions[across(edges, incoming, k - 1) as int] as int
        } else {
            0int
        }
    }
}

/// The rank of a node: whether it has neighbours, the sum of their positions
/// and their number (their mean position, as a fraction).
fn neighbor_rank(node: usize, positions: &Vec<usize>, edges: &Vec<(usize, usize)>, direction: NeighborDirection) -> (r: (bool, u128, u128))
    requires
        edges@.len() < layout_bound(),
        forall|e: int| 0 <= e < edges@.len() ==> (#[trigger] edges@[e]).0 < positions@.len() && edges@[e].1 < positions@.len(),
        forall|v: int| 0 <= v < positions@.len() ==> #[trigger] positions@[v] < layout_bound(),
    ensures
        r.2 == neighbor_count(edges@, node, direction == NeighborDirection::Incoming, edges@.len() as int),
        r.1 == neighbor_sum(edges@, positions@, node, direction == NeighborDirection::Incoming, edges@.len() as int),
        r.0 == (r.2 > 0),
        r.1 < layout_bound() * layout_bound(),
        r.2 < layout_bound(),
{
    let incoming = direction == NeighborDirection::Incoming;
    let mut sum: u128 = 0;
    let mut count: u128 = 0;
    let mut e: usize = 0;
    while e < edges.len()
        invariant
            incoming == (direction == NeighborDirection::Incoming),
            edges@.len() < layout_bound(),
            forall|f: int| 0 <= f < edges@.len() ==> (#[trigger] edges@[f]).0 < positions@.len() && edges@[f].1 < positions@.len(),
            forall|v: int| 0 <= v < positions@.len() ==> #[trigger] positions@[v] < layout_bound(),
            e <= edges@.len(),
            count == neighbor_count(edges@, node, incoming, e as int),
            sum == neighbor_sum(edges@, positions@, node, incoming, e as int),
            count <= e,
            sum <= e * layout_bound(),
        decreases edges@.len() - e,
    {
        let (source, target) = edges[e];
        if incoming && target == node {
            sum = sum + positions[source] as u128;
            count = count + 1;
        } else if !incoming && source == node {
            sum = sum + positions[target] as u128;
            count = count + 1;
        }
        e += 1;
    }
    proof {
        assert(e * layout_bound() < layout_bound() * layout_bound()) by (nonlinear_arith)
            requires
                e < layout_bound(),
                layout_bound() > 0;
    }
    (count > 0, sum, count)
}

/// `a` ranks before `b`: a smaller mean position, or some neighbours against none.
pub open spec fn rank_lt(a: (bool, u128, u128), b: (bool, u128, u128)) -> bool {
    if a.0 && b.0 { a.1 * b.2 < b.1 * a.2 } else { a.0 && !b.0 }
}

pub open spec fn rank_eq(a: (bool, u128, u128), b: (bool, u128, u128)) -> bool {
    if a.0 && b.0 { a.1 * b.2 == b.1 * a.2 } else { a.0 == b.0 }
}

/// The order of positions in a column: by rank, then by name, then by the
/// earlier position (the sort is stable).
pub open spec fn layer_lt(rk: Seq<(bool, u128, u128)>, names: Seq<Seq<char>>) -> spec_fn(usize, usize) -> bool {
    |i: usize, j: usize| rank_lt(rk[i as int], rk[j as int]) || (rank_eq(rk[i as int], rk[j as int]) && (
    chars_lt(names[i as int], names[j as int]) || (names[i as int] == names[j as int] && i < j)))
}

proof fn lemma_frac_lt_lt(a: int, b: int, c: int, d: int, e: int, f: int)
    requires
        b > 0,
        d > 0,
        f > 0,
        a * d < c * b,
        c * f < e * d,
    ensures
        a * f < e * b,
{
    assert(a * d * f < c * b * f) by (nonlinear_arith)
        requires
            a * d < c * b,
            f > 0;
    assert(c * f * b < e * d * b) by (nonlinear_arith)
        requires
            c * f < e * d,
            b > 0;
    assert(a * f < e * b) by (nonlinear_arith)
        requires
            a * d * f < c * b * f,
            c * f * b < e * d * b,
            d > 0;
}

proof fn lemma_frac_lt_eq(a: int, b: int, c: int, d: int, e: int, f: int)
    requires
        b > 0,
        d > 0,
        f > 0,
        a * d < c * b,
        c * f == e * d,
    ensures
        a * f < e * b,
{
    assert(a * d * f < c * b * f) by (nonlinear_arith)
        requires
            a * d < c * b,
            f > 0;
    assert(c * f * b == e * d * b) by (nonlinear_arith)
        requires
            c * f == e * d;
    assert(a * f < e * b) by (nonlinear_arith)
        requires
            a * d * f < c * b * f,
            c * f * b == e * d * b,
            d > 0;
}

proof fn lemma_frac_eq_lt(a: int, b: int, c: int, d: int, e: int, f: int)
    requires
        b > 0,
        d > 0,
        f > 0,
        a * d == c * b,
        c * f < e * d,
    ensures
        a * f < e * b,
{
    assert(a * d * f == c * b * f) by (nonlinear_arith)
        requires
            a * d == c * b;
    assert(c * f * b < e * d * b) by (nonlinear_arith)
        requires
            c * f < e * d,
            b > 0;
    assert(a * f < e * b) by (nonlinear_arith)
        requires
            a * d * f == c * b * f,
            c * f * b < e * d * b,
            d > 0;
}

proof fn lemma_frac_eq_eq(a: int, b: int, c: int, d: int, e: int, f: int)
    requires
        b > 0,
        d > 0,
        f > 0,
        a * d == c * b,
        c * f == e * d,
    ensures
        a * f == e * b,
{
    assert(a * d * f == c * b * f) by (nonlinear_arith)
        requires
            a * d == c * b;
    assert(c * f * b == e * d * b) by (nonlinear_arith)
        requires
            c * f == e * d;
    assert(a * f == e * b) by (nonlinear_arith)
        requires
            a * d * f == c * b * f,
            c * f * b == e * d * b,
            d > 0;
}

proof fn lemma_rank_trans(x: (bool, u128, u128), y: (bool, u128, u128), z: (bool, u128, u128))
    requires
        x.0 ==> x.2 > 0,
        y.0 ==> y.2 > 0,
        z.0 ==> z.2 > 0,
    ensures
        rank_lt(x, y) && rank_lt(y, z) ==> rank_lt(x, z),
        rank_lt(x, y) && rank_eq(y, z) ==> rank_lt(x, z),
        rank_eq(x, y) && rank_lt(y, z) ==> rank_lt(x, z),
        rank_eq(x, y) && rank_eq(y, z) ==> rank_eq(x, z),
        !rank_lt(x, x),
        rank_eq(x, x),
        rank_lt(x, y) || rank_lt(y, x) || rank_eq(x, y),
        !(rank_lt(x, y) && rank_eq(x, y)),
        !(rank_lt(x, y) && rank_lt(y, x)),
        rank_eq(x, y) ==> rank_eq(y, x),
{
    if x.0 && y.0 && z.0 {
        let (a, b, c, d, e, f) = (x.1 as int, x.2 as int, y.1 as int, y.2 as int, z.1 as int, z.2 as int);
        if a * d < c * b && c * f < e * d {
            lemma_frac_lt_lt(a, b, c, d, e, f);
        }
        if a * d < c * b && c * f == e * d {
            lemma_frac_lt_eq(a, b, c, d, e, f);
        }
        if a * d == c * b && c * f < e * d {
            lemma_frac_eq_lt(a, b, c, d, e, f);
        }
        if a * d == c * b && c * f == e * d {
            lemma_frac_eq_eq(a, b, c, d, e, f);
        }
    }
}

proof fn lemma_layer_lt_order(rk: Seq<(bool, u128, u128)>, names: Seq<Seq<char>>, s: Seq<usize>)
    requires
        forall|i: int| 0 <= i < rk.len() ==> (#[trigger] rk[i]).0 ==> rk[i].2 > 0,
        forall|x: usize| s.contains(x) ==> x < rk.len(),
    ensures
        strict_total_on(s, layer_lt(rk, names)),
{
    let lt = layer_lt(rk, names);
    assert forall|x: usize| s.contains(x) implies !#[trigger] lt(x, x) by {
        lemma_rank_trans(rk[x as int], rk[x as int], rk[x as int]);
        lemma_chars_lt_irrefl(names[x as int]);
    }
    assert forall|x: usize, y: usize, z: usize| s.contains(x) && s.contains(y) && s.contains(z) && #[trigger] lt(x, y) && #[trigger] lt(y, z) implies lt(x, z) by {
        lemma_rank_trans(rk[x as int], rk[y as int], rk[z as int]);
        lemma_rank_trans(rk[y as int], rk[x as int], rk[z as int]);
        lemma_rank_trans(rk[x as int], rk[z as int], rk[y as int]);
        lemma_rank_trans(rk[z as int], rk[y as int], rk[x as int]);
        let nx = names[x as int];
        let ny = names[y as int];
        let nz = names[z as int];
        if chars_lt(nx, ny) && chars_lt(ny, nz) {
            lemma_chars_lt_trans(nx, ny, nz);
        }
    }
    assert forall|x: usize, y: usize| s.contains(x) && s.contains(y) && x != y implies #[trigger] lt(x, y) || #[trigger] lt(y, x) by {
        lemma_rank_trans(rk[x as int], rk[y as int], rk[x as int]);
        lemma_rank_trans(rk[y as int], rk[x as int], rk[y as int]);
        lemma_chars_lt_total(names[x as int], names[y as int]);
    }
}

/// The names of the nodes of a column, by position.
pub open spec fn layer_names(nodes: Seq<DependencyGraphNode>, layer: Seq<usize>) -> Seq<Seq<char>> {
    Seq::new(layer.len(), |i: int| nodes[layer[i] as int].name@)
}

/// The edges join nodes, node positions and the number of edges stay under
/// the layout bound.
pub open spec fn layout_inputs_ok(edges: Seq<(usize, usize)>, positions: Seq<usize>) -> bool {
    &&& edges.len() < layout_bound()
    &&& forall|e: int| 0 <= e < edges.len() ==> (#[trigger] edges[e]).0 < positions.len() && edges[e].1 < positions.len()
    &&& forall|v: int| 0 <= v < positions.len() ==> #[trigger] positions[v] < layout_bound()
}

/// The rank of node `x` when placed by its neighbours in direction
/// `incoming` (`None`: every node ranks alike).
pub open spec fn rank_of(edges: Seq<(usize, usize)>, positions: Seq<usize>, x: usize, incoming: Option<bool>) -> (bool, u128, u128) {
    match incoming {
        Some(d) => {
            let c = neighbor_count(edges, x, d, edges.len() as int);
            (c > 0, neighbor_sum(edges, positions, x, d, edges.len() as int) as u128, c as u128)
        },
        None => (false, 0u128, 0u128),
    }
}

pub open spec fn layer_ranks(layer: Seq<usize>, edges: Seq<(usize, usize)>, positions: Seq<usize>, incoming: Option<bool>) -> Seq<(bool, u128, u128)> {
    Seq::new(layer.len(), |i: int| rank_of(edges, positions, layer[i], incoming))
}

/// `s` lists the positions below `len` in increasing order under `lt`.
pub open spec fn is_index_order(s: Seq<usize>, len: nat, lt: spec_fn(usize, usize) -> bool) -> bool {
    &&& s.len() == len
    &&& forall|x: usize| s.contains(x) <==> x < len
    &&& sorted_by(s, lt)
}

/// The positions below `len` in increasing order under `lt`.
pub open spec fn index_order(len: nat, lt: spec_fn(usize, usize) -> bool) -> Seq<usize> {
    choose|s: Seq<usize>| is_index_order(s, len, lt)
}

/// The column `layer` in the order that placing it by its neighbours in
/// direction `incoming` gives: by rank, then by name, then by the earlier
/// position.
pub open spec fn arranged(layer: Seq<usize>, nodes: Seq<DependencyGraphNode>, edges: Seq<(usize, usize)>, positions: Seq<usize>, incoming: Option<bool>) -> Seq<usize> {
    let lt = layer_lt(layer_ranks(layer, edges, positions, incoming), layer_names(nodes, layer));
    index_order(layer.len(), lt).map_values(|i: usize| layer[i as int])
}

/// Two sequences sorted under the same strict total order, with the same
/// elements, are equal.
proof fn lemma_sorted_unique(s: Seq<usize>, t: Seq<usize>, lt: spec_fn(usize, usize) -> bool)
    requires
        sorted_by(s, lt),
        sorted_by(t, lt),
        s.len() == t.len(),
        forall|x: usize| s.contains(x) <==> t.contains(x),
        strict_total_on(s, lt),
    ensures
        s == t,
    decreases s.len(),
{
    if s.len() == 0 {
        assert(s =~= t);
    } else {
        assert(s.contains(s[0]));
        assert(t.contains(t[0]));
        if s[0] != t[0] {
            let j = choose|j: int| 0 <= j < s.len() && s[j] == t[0];
            let i = choose|i: int| 0 <= i < t.len() && t[i] == s[0];
            assert(j != 0);
            assert(i != 0);
            assert(lt(s[0], s[j]));
            assert(lt(t[0], t[i]));
            assert(s.contains(t[0]));
            assert(lt(s[0], s[0]));
        }
        let s2 = s.drop_first();
        let t2 = t.drop_first();
        assert forall|a: int, b: int| 0 <= a < b < s2.len() implies #[trigger] lt(s2[a], s2[b]) by {
            assert(s2[a] == s[a + 1]);
            assert(s2[b] == s[b + 1]);
        }
        assert forall|a: int, b: int| 0 <= a < b < t2.len() implies #[trigger] lt(t2[a], t2[b]) by {
            assert(t2[a] == t[a + 1]);
            assert(t2[b] == t[b + 1]);
        }
        assert forall|x: usize| s2.contains(x) <==> t2.contains(x) by {
            if s2.contains(x) {
                let k = choose|k: int| 0 <= k < s2.len() && s2[k] == x;
                assert(s[k + 1] == x);
                assert(s.contains(x));
                assert(x != s[0]) by {
                    assert(lt(s[0], s[k + 1]));
                    if x == s[0] {
                        assert(s.contains(s[0]));
                    }
                }
                let m = choose|m: int| 0 <= m < t.len() && t[m] == x;
                assert(m != 0);
                assert(t2[m - 1] == x);
            }
            if t2.contains(x) {
                let k = choose|k: int| 0 <= k < t2.len() && t2[k] == x;
                assert(t[k + 1] == x);
                assert(t.contains(x));
                assert(s.contains(x));
                let m = choose|m: int| 0 <= m < s.len() && s[m] == x;
                assert(x != t[0]) by {
                    assert(lt(t[0], t[k + 1]));
                    if x == t[0] {
                        assert(s.contains(t[0]));
                        assert(!lt(t[0], t[0]));
                    }
                }
                assert(m != 0);
                assert(s2[m - 1] == x);
            }
        }
        assert forall|x: usize| s2.contains(x) implies s.contains(x) by {
            let k = choose|k: int| 0 <= k < s2.len() && s2[k] == x;
            assert(s[k + 1] == x);
        }
        lemma_sorted_unique(s2, t2, lt);
        assert(s =~= seq![s[0]] + s2);
        assert(t =~= seq![t[0]] + t2);
    }
}

/// The column `layer` reordered by the rank of each node in `direction`
/// (every rank equal when there is none), then by name, then by the earlier
/// position.
fn reorder_layer(
    layer: &Vec<usize>,
    positions: &Vec<usize>,
    edges: &Vec<(usize, usize)>,
    nodes: &Vec<DependencyGraphNode>,
    direction: Option<NeighborDirection>,
) -> (out: Vec<usize>)
    requires
        layer@.no_duplicates(),
        forall|k: int| 0 <= k < layer@.len() ==> #[trigger] layer@[k] < nodes@.len(),
        positions@.len() == nodes@.len(),
        layout_inputs_ok(edges@, positions@),
    ensures
        out@.len() == layer@.len(),
        out@.no_duplicates(),
        forall|x: usize| out@.contains(x) <==> layer@.contains(x),
        out@ == arranged(layer@, nodes@, edges@, positions@, match direction {
            Some(d) => Some(d == NeighborDirection::Incoming),
            None => None,
        }),
{
    let ghost incoming = match direction {
        Some(d) => Some(d == NeighborDirection::Incoming),
        None => None,
    };
    let len = layer.len();
    let mut rk: Vec<(bool, u128, u128)> = Vec::new();
    let mut idx: Vec<usize> = Vec::new();
    let mut i: usize = 0;
    while i < len
        invariant
            len == layer@.len(),
            forall|k: int| 0 <= k < layer@.len() ==> #[trigger] layer@[k] < nodes@.len(),
            positions@.len() == nodes@.len(),
            layout_inputs_ok(edges@, positions@),
            i <= len,
            rk@.len() == i,
            idx@.len() == i,
            forall|k: int| 0 <= k < i ==> #[trigger] idx@[k] == k,
            forall|k: int| 0 <= k < i ==> (#[trigger] rk@[k]).0 ==> rk@[k].2 > 0,
            forall|k: int| 0 <= k < i ==> (#[trigger] rk@[k]).1 < layout_bound() * layout_bound() && rk@[k].2 < layout_bound(),
            incoming == match direction {
                Some(d) => Some(d == NeighborDirection::Incoming),
                None => None,
            },
            forall|k: int| 0 <= k < i ==> #[trigger] rk@[k] == rank_of(edges@, positions@, layer@[k], incoming),
        decreases len - i,
    {
        let r = match direction {
            Some(d) => neighbor_rank(layer[i], positions, edges, d),
            None => (false, 0u128, 0u128),
        };
        rk.push(r);
        idx.push(i);
        i += 1;
    }
    proof {
        assert forall|k: int, l: int| 0 <= k < l < idx@.len() implies idx@[k] != idx@[l] by {}
        assert forall|x: usize| idx@.contains(x) implies x < rk@.len() by {}
        lemma_layer_lt_order(rk@, layer_names(nodes@, layer@), idx@);
    }
    let less = |a: usize, b: usize| -> (r: bool)
        requires
            a < rk@.len(),
            b < rk@.len(),
            rk@.len() == layer@.len(),
            forall|k: int| 0 <= k < rk@.len() ==> (#[trigger] rk@[k]).1 < layout_bound() * layout_bound() && rk@[k].2 < layout_bound(),
            forall|k: int| 0 <= k < layer@.len() ==> #[trigger] layer@[k] < nodes@.len(),
        ensures
            r == layer_lt(rk@, layer_names(nodes@, layer@))(a, b),
    {
        let ra = rk[a];
        let rb = rk[b];
        let (before, same) = if ra.0 && rb.0 {
            proof {
                let bb = layout_bound();
                assert(ra.1 * rb.2 <= bb * bb * bb) by (nonlinear_arith)
                    requires
                        ra.1 < bb * bb,
                        rb.2 < bb,
                        bb > 0;
                assert(rb.1 * ra.2 <= bb * bb * bb) by (nonlinear_arith)
                    requires
                        rb.1 < bb * bb,
                        ra.2 < bb,
                        bb > 0;
            }
            let l = ra.1 * rb.2;
            let r = rb.1 * ra.2;
            (l < r, l == r)
        } else {
            (ra.0 && !rb.0, ra.0 == rb.0)
        };
        if before {
            true
        } else if !same {
            false
        } else {
            let na = &nodes[layer[a]].name;
            let nb = &nodes[layer[b]].name;
            if str_less(na.as_str(), nb.as_str()) {
                true
            } else if *na == *nb {
                a < b
            } else {
                false
            }
        }
    };
    let sorted = sort_indices(&idx, &less, Ghost(layer_lt(rk@, layer_names(nodes@, layer@))));
    proof {
        assert forall|x: usize| idx@.contains(x) <==> x < len by {
            if x < len {
                assert(idx@[x as int] == x);
            }
        }
    }
    let mut out: Vec<usize> = Vec::new();
    let mut k: usize = 0;
    while k < len
        invariant
            len == layer@.len(),
            sorted@.len() == len,
            forall|x: usize| sorted@.contains(x) <==> idx@.contains(x),
            forall|x: usize| idx@.contains(x) <==> x < len,
            k <= len,
            out@.len() == k,
            forall|j: int| 0 <= j < k ==> #[trigger] out@[j] == layer@[sorted@[j] as int],
        decreases len - k,
    {
        proof {
            assert(sorted@.contains(sorted@[k as int]));
        }
        out.push(layer[sorted[k]]);
        k += 1;
    }
    proof {
        assert forall|x: usize| idx@.contains(x) <==> x < len by {
            if x < len {
                assert(idx@[x as int] == x);
            }
        }
        assert forall|a: int, b: int| 0 <= a < b < len implies out@[a] != out@[b] by {
            assert(layer_lt(rk@, layer_names(nodes@, layer@))(sorted@[a], sorted@[b]));
            assert(sorted@[a] != sorted@[b]) by {
                lemma_layer_lt_order(rk@, layer_names(nodes@, layer@), sorted@);
                assert(sorted@.contains(sorted@[a]));
            }
            assert(sorted@.contains(sorted@[a]));
            assert(sorted@.contains(sorted@[b]));
        }
        let lt = layer_lt(rk@, layer_names(nodes@, layer@));
        assert(rk@ =~= layer_ranks(layer@, edges@, positions@, incoming));
        assert(is_index_order(sorted@, len as nat, lt));
        let chosen = index_order(len as nat, lt);
        assert(is_index_order(chosen, len as nat, lt));
        lemma_layer_lt_order(rk@, layer_names(nodes@, layer@), sorted@);
        assert forall|x: usize| sorted@.contains(x) <==> chosen.contains(x) by {}
        lemma_sorted_unique(sorted@, chosen, lt);
        assert(out@ =~= chosen.map_values(|i: usize| layer@[i as int]));
        assert forall|x: usize| out@.contains(x) <==> layer@.contains(x) by {
            if out@.contains(x) {
                let j = choose|j: int| 0 <= j < out@.len() && out@[j] == x;
                assert(sorted@.contains(sorted@[j]));
            }
            if layer@.contains(x) {
                let p = choose|p: int| 0 <= p < layer@.len() && layer@[p] == x;
                assert(idx@.contains(p as usize));
                assert(sorted@.contains(p as usize));
                let j = choose|j: int| 0 <= j < sorted@.len() && sorted@[j] == p as usize;
                assert(out@[j] == x);
            }
        }
    }
    out
}

/// Distinct numbers below `n` are at most `n` many.
proof fn lemma_distinct_below(s: Seq<usize>, n: int)
    requires
        n >= 0,
        s.no_duplicates(),
        forall|k: int| 0 <= k < s.len() ==> #[trigger] s[k] < n,
    ensures
        s.len() <= n,
    decreases n,
{
    if s.len() > 0 {
        assert(s[0] < n);
        let top = n - 1;
        if top <= usize::MAX && s.contains(top as usize) {
            let i = choose|i: int| 0 <= i < s.len() && s[i] == top as usize;
            let t = s.remove(i);
            assert forall|a: int, b: int| 0 <= a < b < t.len() implies t[a] != t[b] by {
                let a2 = if a < i { a } else { a + 1 };
                let b2 = if b < i { b } else { b + 1 };
                assert(t[a] == s[a2]);
                assert(t[b] == s[b2]);
            }
            assert forall|k: int| 0 <= k < t.len() implies #[trigger] t[k] < top by {
                let k2 = if k < i { k } else { k + 1 };
                assert(t[k] == s[k2]);
            }
            lemma_distinct_below(t, top);
        } else {
            assert forall|k: int| 0 <= k < s.len() implies #[trigger] s[k] < top by {
                if top <= usize::MAX && s[k] == top as usize {
                    assert(s.contains(top as usize));
                }
            }
            lemma_distinct_below(s, top);
        }
    }
}

/// The place of `v` in `layer`.
pub open spec fn index_in(layer: Seq<usize>, v: usize) -> int {
    choose|k: int| 0 <= k < layer.len() && layer[k] == v
}

/// The positions after the nodes of `layer` take their places in it.
pub open spec fn placed(positions: Seq<usize>, layer: Seq<usize>) -> Seq<usize> {
    Seq::new(positions.len(), |v: int| if layer.contains(v as usize) { index_in(layer, v as usize) as usize } else { positions[v] })
}

/// The positions after the nodes of the first `j` columns take their places.
pub open spec fn placed_upto(layers: Seq<Seq<usize>>, positions: Seq<usize>, j: int) -> Seq<usize>
    decreases j,
{
    if j <= 0 {
        positions
    } else {
        placed(placed_upto(layers, positions, j - 1), layers[j - 1])
    }
}

/// The views of the columns.
pub open spec fn layer_views(layers: Seq<Vec<usize>>) -> Seq<Seq<usize>> {
    layers.map_values(|v: Vec<usize>| v@)
}

/// Each node of `layer` takes its position in the column.
fn update_layer_positions(layer: &Vec<usize>, positions: &mut Vec<usize>)
    requires
        layer@.no_duplicates(),
        forall|k: int| 0 <= k < layer@.len() ==> #[trigger] layer@[k] < old(positions)@.len(),
    ensures
        final(positions)@.len() == old(positions)@.len(),
        forall|k: int| 0 <= k < layer@.len() ==> #[trigger] final(positions)@[layer@[k] as int] == k,
        forall|v: int| 0 <= v < old(positions)@.len() && !layer@.contains(v as usize) ==> #[trigger] final(positions)@[v] == old(positions)@[v],
        final(positions)@ == placed(old(positions)@, layer@),
{
    let mut i: usize = 0;
    while i < layer.len()
        invariant
            layer@.no_duplicates(),
            forall|k: int| 0 <= k < layer@.len() ==> #[trigger] layer@[k] < old(positions)@.len(),
            positions@.len() == old(positions)@.len(),
            i <= layer@.len(),
            forall|k: int| 0 <= k < i ==> #[trigger] positions@[layer@[k] as int] == k,
            forall|v: int| 0 <= v < positions@.len() && !layer@.subrange(0, i as int).contains(v as usize) ==> #[trigger] positions@[v] == old(positions)@[v],
        decreases layer@.len() - i,
    {
        let node = layer[i];
        let ghost before = positions@;
        positions[node] = i;
        proof {
            assert forall|k: int| 0 <= k < i + 1 implies #[trigger] positions@[layer@[k] as int] == k by {
                if k < i {
                    assert(layer@[k] != layer@[i as int]);
                }
            }
            assert forall|v: int| 0 <= v < positions@.len() && !layer@.subrange(0, i + 1).contains(v as usize) implies #[trigger] positions@[v] == old(positions)@[v] by {
                assert(layer@.subrange(0, i + 1)[i as int] == node);
                if layer@.subrange(0, i as int).contains(v as usize) {
                    let k = choose|k: int| 0 <= k < i && layer@.subrange(0, i as int)[k] == v as usize;
                    assert(layer@.subrange(0, i + 1)[k] == v as usize);
                }
            }
        }
        i += 1;
    }
    proof {
        assert(layer@.subrange(0, layer@.len() as int) =~= layer@);
        assert forall|v: int| 0 <= v < positions@.len() implies #[trigger] positions@[v] == placed(old(positions)@, layer@)[v] by {
            let pl = placed(old(positions)@, layer@);
            assert(v < positions.len());
            if layer@.contains(v as usize) {
                let k = index_in(layer@, v as usize);
                assert(0 <= k < layer@.len() && layer@[k] == v as usize);
                assert(positions@[layer@[k] as int] == k);
                assert(layer@[k] as int == v);
                assert(pl[v] == k as usize);
            } else {
                assert(!layer@.subrange(0, layer@.len() as int).contains(v as usize));
                assert(positions@[v] == old(positions)@[v]);
                assert(pl[v] == old(positions)@[v]);
            }
        }
        assert(positions@ =~= placed(old(positions)@, layer@));
    }
}

impl DependencyGraph {
    /// Node `v` is drawn in the final column.
    #[verifier::opaque]
    pub open spec fn ends(&self, v: int) -> bool {
        1 <= v && self.aligned(v)
    }

    /// The deepest level among the first `k` nodes not drawn in the final column.
    pub open spec fn internal_max(&self, k: int) -> int
        decreases k,
    {
        if k <= 0 {
            0
        } else {
            let m = self.internal_max(k - 1);
            let l = self.nodes@[k - 1].dependency_level as int;
            if !self.ends(k - 1) && l > m { l } else { m }
        }
    }

    pub proof fn lemma_ends(&self, v: int)
        ensures
            self.ends(v) == (1 <= v && self.aligned(v)),
    {
        reveal(DependencyGraph::ends);
    }

    /// Every node outside the final column lies at most at the deepest level.
    pub proof fn lemma_internal_max_bound(&self, k: int)
        requires
            0 <= k <= self.nodes@.len(),
        ensures
            forall|v: int| 0 <= v < k && !self.ends(v) ==> #[trigger] self.nodes@[v].dependency_level <= self.internal_max(k),
            self.internal_max(k) >= 0,
        decreases k,
    {
        if k > 0 {
            self.lemma_internal_max_bound(k - 1);
        }
    }

    pub open spec fn any_end(&self) -> bool {
        exists|v: int| 0 <= v < self.nodes@.len() && #[trigger] self.ends(v)
    }

    /// The column of node `v`: its level, or one past the deepest other level
    /// for nodes drawn in the final column.
    pub open spec fn column(&self, v: int) -> int {
        if self.ends(v) { self.internal_max(self.nodes@.len() as int) + 1 } else { self.nodes@[v].dependency_level as int }
    }

    pub open spec fn column_count(&self) -> int {
        self.internal_max(self.nodes@.len() as int) + if self.any_end() { 2int } else { 1int }
    }

    /// The nodes among the first `k` whose column is `l`, in node order.
    pub open spec fn column_nodes(&self, l: int, k: int) -> Seq<usize>
        decreases k,
    {
        if k <= 0 {
            Seq::empty()
        } else {
            let s = self.column_nodes(l, k - 1);
            if self.column(k - 1) == l { s.push((k - 1) as usize) } else { s }
        }
    }

    /// Every node at position zero.
    pub open spec fn zero_positions(&self) -> Seq<usize> {
        Seq::new(self.nodes@.len(), |v: int| 0usize)
    }

    /// The columns before any sweep: the nodes of each column by name.
    pub open spec fn initial_layers(&self) -> Seq<Seq<usize>> {
        Seq::new(
            self.column_count() as nat,
            |l: int| arranged(self.column_nodes(l, self.nodes@.len() as int), self.nodes@, self.edges@, self.zero_positions(), None),
        )
    }

    /// The layout before any sweep: the initial columns, each node at its place
    /// in its column.
    pub open spec fn initial_state(&self) -> (Seq<Seq<usize>>, Seq<usize>) {
        let cols = self.initial_layers();
        (cols, placed_upto(cols, self.zero_positions(), cols.len() as int))
    }

    /// One sweep: column `a` reordered by its neighbours in direction
    /// `incoming`, and its nodes take their new places.
    pub open spec fn sweep_step(&self, st: (Seq<Seq<usize>>, Seq<usize>), a: int, incoming: bool) -> (Seq<Seq<usize>>, Seq<usize>) {
        let layer = arranged(st.0[a], self.nodes@, self.edges@, st.1, Some(incoming));
        (st.0.update(a, layer), placed(st.1, layer))
    }

    /// The sweeps down over columns `1 .. a`, each by the column before it.
    pub open spec fn down_sweeps(&self, st: (Seq<Seq<usize>>, Seq<usize>), a: int) -> (Seq<Seq<usize>>, Seq<usize>)
        decreases a,
    {
        if a <= 1 {
            st
        } else {
            self.sweep_step(self.down_sweeps(st, a - 1), a - 1, true)
        }
    }

    /// The first `m` sweeps back up, from the last column but one, each by
    /// the column after it.
    pub open spec fn up_sweeps(&self, st: (Seq<Seq<usize>>, Seq<usize>), m: int) -> (Seq<Seq<usize>>, Seq<usize>)
        decreases m,
    {
        if m <= 0 {
            st
        } else {
            self.sweep_step(self.up_sweeps(st, m - 1), self.column_count() - 1 - m, false)
        }
    }

    /// `r` rounds of sweeps down and back up.
    pub open spec fn rounds(&self, st: (Seq<Seq<usize>>, Seq<usize>), r: int) -> (Seq<Seq<usize>>, Seq<usize>)
        decreases r,
    {
        if r <= 0 {
            st
        } else {
            let count = self.column_count();
            self.up_sweeps(self.down_sweeps(self.rounds(st, r - 1), count), count - 1)
        }
    }

    /// The columns of the layout: three rounds of sweeps from the initial one.
    pub open spec fn laid_out(&self) -> Seq<Seq<usize>> {
        self.rounds(self.initial_state(), 3).0
    }

    /// The nodes by column. Within a column the nodes start in name order, then
    /// three rounds of sweeps, down and back up, order each column by the mean
    /// position of the nodes linked to it in the column before (after).
    pub fn ordered_layers(&self) -> (layers: Vec<Vec<usize>>)
        requires
            self.well_formed(),
            self.nodes@.len() + 2 < layout_bound(),
            self.edges@.len() < layout_bound(),
        ensures
            layers@.len() == self.column_count(),
            forall|l: int, k: int| 0 <= l < layers@.len() && 0 <= k < layers@[l]@.len() ==> #[trigger] layers@[l]@[k] < self.nodes@.len()
                && self.column(layers@[l]@[k] as int) == l,
            forall|v: int| 0 <= v < self.nodes@.len() ==> #[trigger] layers@[self.column(v)]@.contains(v as usize),
            forall|l: int| 0 <= l < layers@.len() ==> (#[trigger] layers@[l])@.no_duplicates(),
            layer_views(layers@) == self.laid_out(),
            column_law(self, layer_views(layers@)),
    {
        let n = self.nodes.len();
        let (ends, maxl, any) = self.end_marks();
        let count = if any { maxl + 2 } else { maxl + 1 };
        let mut positions: Vec<usize> = Vec::new();
        let mut w: usize = 0;
        while w < n
            invariant
                w <= n,
                positions@.len() == w,
                forall|u: int| 0 <= u < w ==> #[trigger] positions@[u] == 0,
            decreases n - w,
        {
            positions.push(0);
            w += 1;
        }
        proof {
            assert(positions@ =~= self.zero_positions());
        }
        let mut layers: Vec<Vec<usize>> = Vec::new();
        let mut l: usize = 0;
        while l < count
            invariant
                self.well_formed(),
                n == self.nodes@.len(),
                n + 2 < layout_bound(),
                self.edges@.len() < layout_bound(),
                ends@.len() == n,
                forall|u: int| 0 <= u < n ==> #[trigger] ends@[u] == self.ends(u),
                maxl == self.internal_max(n as int),
                maxl <= n,
                count == self.column_count(),
                positions@.len() == n,
                forall|u: int| 0 <= u < n ==> #[trigger] positions@[u] < layout_bound(),
                l <= count,
                layers@.len() == l,
                forall|j: int, k: int| 0 <= j < l && 0 <= k < layers@[j]@.len() ==> #[trigger] layers@[j]@[k] < n && self.column(layers@[j]@[k] as int) == j,
                forall|u: int| 0 <= u < n && self.column(u) < l ==> #[trigger] layers@[self.column(u)]@.contains(u as usize),
                forall|j: int| 0 <= j < l ==> (#[trigger] layers@[j])@.no_duplicates(),
                positions@ == self.zero_positions(),
                forall|j: int| 0 <= j < l ==> (#[trigger] layers@[j])@ == self.initial_layers()[j],
            decreases count - l,
        {
            let layer = self.column_members(&ends, maxl, l);
            let sorted = reorder_layer(&layer, &positions, &self.edges, &self.nodes, None);
            layers.push(sorted);
            proof {
                assert(layers@[l as int]@ == sorted@);
                assert(layers@[l as int]@ == self.initial_layers()[l as int]);
                assert forall|x: int| 0 <= x < n && self.column(x) < l + 1 implies #[trigger] layers@[self.column(x)]@.contains(x as usize) by {
                    if self.column(x) == l {
                        assert(layer@.contains(x as usize));
                    }
                }
                assert forall|j: int, k: int| 0 <= j < l + 1 && 0 <= k < layers@[j]@.len() implies #[trigger] layers@[j]@[k] < n && self.column(layers@[j]@[k] as int) == j by {
                    if j == l {
                        assert(sorted@.contains(sorted@[k]));
                    }
                }
            }
            l += 1;
        }
        let ghost final_cols = layers@;
        proof {
            assert(layer_views(layers@) =~= self.initial_layers());
            assert(count >= 1);
            assert forall|e: int| 0 <= e < self.edges@.len() implies (#[trigger] self.edges@[e]).0 < positions@.len() && self.edges@[e].1 < positions@.len() by {}
        }
        let mut j: usize = 0;
        while j < count
            invariant
                self.well_formed(),
                n == self.nodes@.len(),
                n + 2 < layout_bound(),
                self.edges@.len() < layout_bound(),
                layers@.len() == count,
                forall|a: int, k: int| 0 <= a < count && 0 <= k < layers@[a]@.len() ==> #[trigger] layers@[a]@[k] < n,
                forall|a: int| 0 <= a < count ==> (#[trigger] layers@[a])@.no_duplicates(),
                positions@.len() == n,
                forall|u: int| 0 <= u < n ==> #[trigger] positions@[u] < layout_bound(),
                j <= count,
                count == self.column_count(),
                layer_views(layers@) == self.initial_layers(),
                positions@ == placed_upto(self.initial_layers(), self.zero_positions(), j as int),
            decreases count - j,
        {
            proof {
                assert(layer_views(layers@)[j as int] == layers@[j as int]@);
            }
            proof {
                lemma_distinct_below(layers@[j as int]@, n as int);
            }
            update_layer_positions(&layers[j], &mut positions);
            proof {
                assert forall|u: int| 0 <= u < n implies #[trigger] positions@[u] < layout_bound() by {
                    if layers@[j as int]@.contains(u as usize) {
                        let k = choose|k: int| 0 <= k < layers@[j as int]@.len() && layers@[j as int]@[k] == u as usize;
                        assert(positions@[layers@[j as int]@[k] as int] == k);
                    }
                }
            }
            j += 1;
        }
        let ghost start = self.initial_state();
        proof {
            assert(layer_views(layers@) == start.0);
            assert(positions@ == start.1);
        }
        let mut round: usize = 0;
        while round < 3
            invariant
                self.well_formed(),
                n == self.nodes@.len(),
                n + 2 < layout_bound(),
                self.edges@.len() < layout_bound(),
                count >= 1,
                layers@.len() == count,
                final_cols.len() == count,
                forall|a: int| 0 <= a < count ==> (#[trigger] layers@[a])@.no_duplicates(),
                forall|a: int, x: usize| 0 <= a < count ==> (#[trigger] layers@[a]@.contains(x) <==> final_cols[a]@.contains(x)),
                forall|a: int, k: int| 0 <= a < count && 0 <= k < final_cols[a]@.len() ==> #[trigger] final_cols[a]@[k] < n,
                positions@.len() == n,
                forall|u: int| 0 <= u < n ==> #[trigger] positions@[u] < layout_bound(),
                round <= 3,
                count == self.column_count(),
                layer_views(layers@) == self.rounds(start, round as int).0,
                positions@ == self.rounds(start, round as int).1,
            decreases 3 - round,
        {
            let ghost before_round = self.rounds(start, round as int);
            let mut a: usize = 1;
            while a < count
                invariant
                    self.well_formed(),
                    n == self.nodes@.len(),
                    n + 2 < layout_bound(),
                    self.edges@.len() < layout_bound(),
                    layers@.len() == count,
                    final_cols.len() == count,
                    forall|b: int| 0 <= b < count ==> (#[trigger] layers@[b])@.no_duplicates(),
                    forall|b: int, x: usize| 0 <= b < count ==> (#[trigger] layers@[b]@.contains(x) <==> final_cols[b]@.contains(x)),
                    forall|b: int, k: int| 0 <= b < count && 0 <= k < final_cols[b]@.len() ==> #[trigger] final_cols[b]@[k] < n,
                    positions@.len() == n,
                    forall|u: int| 0 <= u < n ==> #[trigger] positions@[u] < layout_bound(),
                    1 <= a <= count,
                    count == self.column_count(),
                    layer_views(layers@) == self.down_sweeps(before_round, a as int).0,
                    positions@ == self.down_sweeps(before_round, a as int).1,
                decreases count - a,
            {
                self.sweep_layer(&mut layers, a, &mut positions, NeighborDirection::Incoming, Ghost(final_cols));
                a += 1;
            }
            let mut b: usize = count - 1;
            while b > 0
                invariant
                    self.well_formed(),
                    n == self.nodes@.len(),
                    n + 2 < layout_bound(),
                    self.edges@.len() < layout_bound(),
                    layers@.len() == count,
                    final_cols.len() == count,
                    forall|c: int| 0 <= c < count ==> (#[trigger] layers@[c])@.no_duplicates(),
                    forall|c: int, x: usize| 0 <= c < count ==> (#[trigger] layers@[c]@.contains(x) <==> final_cols[c]@.contains(x)),
                    forall|c: int, k: int| 0 <= c < count && 0 <= k < final_cols[c]@.len() ==> #[trigger] final_cols[c]@[k] < n,
                    positions@.len() == n,
                    forall|u: int| 0 <= u < n ==> #[trigger] positions@[u] < layout_bound(),
                    b < count,
                    count == self.column_count(),
                    layer_views(layers@) == self.up_sweeps(self.down_sweeps(before_round, count as int), count - 1 - b).0,
                    positions@ == self.up_sweeps(self.down_sweeps(before_round, count as int), count - 1 - b).1,
                decreases b,
            {
                self.sweep_layer(&mut layers, b - 1, &mut positions, NeighborDirection::Outgoing, Ghost(final_cols));
                b -= 1;
            }
            round += 1;
        }
        proof {
            self.lemma_internal_max_bound(n as int);
            assert forall|u: int| 0 <= u < n implies #[trigger] self.column(u) < count by {
                if self.ends(u) {
                    assert(self.any_end());
                }
            }
            assert forall|l2: int, k: int| 0 <= l2 < layers@.len() && 0 <= k < layers@[l2]@.len() implies #[trigger] layers@[l2]@[k] < self.nodes@.len()
                && self.column(layers@[l2]@[k] as int) == l2 by {
                assert(layers@[l2]@.contains(layers@[l2]@[k]));
                assert(final_cols[l2]@.contains(layers@[l2]@[k]));
                let k2 = choose|k2: int| 0 <= k2 < final_cols[l2]@.len() && final_cols[l2]@[k2] == layers@[l2]@[k];
            }
            assert forall|u: int| 0 <= u < self.nodes@.len() implies #[trigger] layers@[self.column(u)]@.contains(u as usize) by {
                assert(final_cols[self.column(u)]@.contains(u as usize));
            }
            lemma_views_laid(self, layers@);
            lemma_layout_columns(self, layer_views(layers@));
        }
        layers
    }

    /// Which nodes are drawn in the final column, the deepest level among the
    /// others, and whether there is any such node.
        fn end_marks(&self) -> (r: (Vec<bool>, usize, bool))
        requires
            self.well_formed(),
        ensures
            r.0@.len() == self.nodes@.len(),
            forall|w: int| 0 <= w < self.nodes@.len() ==> #[trigger] r.0@[w] == self.ends(w),
            r.1 == self.internal_max(self.nodes@.len() as int),
            r.1 <= self.nodes@.len(),
            r.2 == self.any_end(),
    {
        let n = self.nodes.len();
        let mut ends: Vec<bool> = Vec::new();
        let mut maxl: usize = 0;
        let mut any = false;
        let mut v: usize = 0;
        while v < n
            invariant
                self.well_formed(),
                n == self.nodes@.len(),
                v <= n,
                ends@.len() == v,
                forall|w: int| 0 <= w < v ==> #[trigger] ends@[w] == self.ends(w),
                maxl == self.internal_max(v as int),
                maxl <= n,
                any == exists|w: int| 0 <= w < v && #[trigger] self.ends(w),
            decreases n - v,
        {
            let e = self.end_mark(v);
            ends.push(e);
            if e {
                any = true;
            } else if self.nodes[v].dependency_level > maxl {
                maxl = self.nodes[v].dependency_level;
            }
            proof {
                if !e {
                    assert forall|w: int| 0 <= w < v + 1 && #[trigger] self.ends(w) implies w < v by {}
                }
                assert(ends@[v as int] == self.ends(v as int));
            }
            v += 1;
        }
        (ends, maxl, any)
    }

    /// Whether node `v` is drawn in the final column.
    fn end_mark(&self, v: usize) -> (r: bool)
        requires
            self.well_formed(),
            v < self.nodes@.len(),
        ensures
            r == self.ends(v as int),
    {
        proof {
            self.lemma_ends(v as int);
        }
        v >= 1 && self.is_aligned_terminal(v)
    }

    /// The nodes of column `l`, in node order.
    fn column_members(&self, ends: &Vec<bool>, maxl: usize, l: usize) -> (layer: Vec<usize>)
        requires
            self.well_formed(),
            ends@.len() == self.nodes@.len(),
            forall|x: int| 0 <= x < self.nodes@.len() ==> #[trigger] ends@[x] == self.ends(x),
            maxl == self.internal_max(self.nodes@.len() as int),
            maxl <= self.nodes@.len(),
            self.nodes@.len() + 2 < layout_bound(),
        ensures
            layer@.no_duplicates(),
            forall|k: int| 0 <= k < layer@.len() ==> #[trigger] layer@[k] < self.nodes@.len() && self.column(layer@[k] as int) == l,
            forall|x: int| 0 <= x < self.nodes@.len() && self.column(x) == l ==> #[trigger] layer@.contains(x as usize),
            layer@ == self.column_nodes(l as int, self.nodes@.len() as int),
    {
        let n = self.nodes.len();
        let mut layer: Vec<usize> = Vec::new();
        let mut u: usize = 0;
        while u < n
            invariant
                self.well_formed(),
                n == self.nodes@.len(),
                n + 2 < layout_bound(),
                ends@.len() == n,
                forall|x: int| 0 <= x < n ==> #[trigger] ends@[x] == self.ends(x),
                maxl == self.internal_max(n as int),
                maxl <= n,
                u <= n,
                layer@.no_duplicates(),
                forall|k: int| 0 <= k < layer@.len() ==> #[trigger] layer@[k] < u && self.column(layer@[k] as int) == l,
                forall|x: int| 0 <= x < u && self.column(x) == l ==> #[trigger] layer@.contains(x as usize),
                layer@ == self.column_nodes(l as int, u as int),
            decreases n - u,
        {
            let col = if ends[u] { maxl + 1 } else { self.nodes[u].dependency_level };
            if col == l {
                let ghost old_layer = layer@;
                layer.push(u);
                proof {
                    assert(layer@[layer@.len() - 1] == u);
                    assert forall|x: int| 0 <= x < u + 1 && self.column(x) == l implies #[trigger] layer@.contains(x as usize) by {
                        if x < u {
                            assert(old_layer.contains(x as usize));
                            let k = choose|k: int| 0 <= k < old_layer.len() && old_layer[k] == x as usize;
                            assert(layer@[k] == old_layer[k]);
                        }
                    }
                }
            }
            u += 1;
        }
        layer
    }

    /// Reorders column `a` by the ranks of its nodes in `direction` and takes
    /// the new positions.
    fn sweep_layer(&self, layers: &mut Vec<Vec<usize>>, a: usize, positions: &mut Vec<usize>, direction: NeighborDirection, cols: Ghost<Seq<Vec<usize>>>)
        requires
            self.well_formed(),
            self.nodes@.len() + 2 < layout_bound(),
            self.edges@.len() < layout_bound(),
            a < old(layers)@.len(),
            cols@.len() == old(layers)@.len(),
            forall|b: int| 0 <= b < old(layers)@.len() ==> (#[trigger] old(layers)@[b])@.no_duplicates(),
            forall|b: int, x: usize| 0 <= b < old(layers)@.len() ==> (#[trigger] old(layers)@[b]@.contains(x) <==> cols@[b]@.contains(x)),
            forall|b: int, k: int| 0 <= b < cols@.len() && 0 <= k < cols@[b]@.len() ==> #[trigger] cols@[b]@[k] < self.nodes@.len(),
            old(positions)@.len() == self.nodes@.len(),
            forall|u: int| 0 <= u < self.nodes@.len() ==> #[trigger] old(positions)@[u] < layout_bound(),
        ensures
            final(layers)@.len() == old(layers)@.len(),
            forall|b: int| 0 <= b < final(layers)@.len() ==> (#[trigger] final(layers)@[b])@.no_duplicates(),
            forall|b: int, x: usize| 0 <= b < final(layers)@.len() ==> (#[trigger] final(layers)@[b]@.contains(x) <==> cols@[b]@.contains(x)),
            final(positions)@.len() == self.nodes@.len(),
            forall|u: int| 0 <= u < self.nodes@.len() ==> #[trigger] final(positions)@[u] < layout_bound(),
            layer_views(final(layers)@) == self.sweep_step((layer_views(old(layers)@), old(positions)@), a as int, direction == NeighborDirection::Incoming).0,
            final(positions)@ == self.sweep_step((layer_views(old(layers)@), old(positions)@), a as int, direction == NeighborDirection::Incoming).1,
    {
        let n = self.nodes.len();
        let ghost old_views = layer_views(layers@);
        let ghost old_positions = positions@;
        proof {
            assert forall|k: int| 0 <= k < layers@[a as int]@.len() implies #[trigger] layers@[a as int]@[k] < n by {
                assert(layers@[a as int]@.contains(layers@[a as int]@[k]));
                assert(cols@[a as int]@.contains(layers@[a as int]@[k]));
                let k2 = choose|k2: int| 0 <= k2 < cols@[a as int]@.len() && cols@[a as int]@[k2] == layers@[a as int]@[k];
            }
            assert forall|e: int| 0 <= e < self.edges@.len() implies (#[trigger] self.edges@[e]).0 < positions@.len() && self.edges@[e].1 < positions@.len() by {}
        }
        let layer = reorder_layer(&layers[a], positions, &self.edges, &self.nodes, Some(direction));
        proof {
            assert forall|k: int| 0 <= k < layer@.len() implies #[trigger] layer@[k] < n by {
                assert(layer@.contains(layer@[k]));
                assert(layers@[a as int]@.contains(layer@[k]));
                let k2 = choose|k2: int| 0 <= k2 < layers@[a as int]@.len() && layers@[a as int]@[k2] == layer@[k];
            }
            lemma_distinct_below(layer@, n as int);
        }
        update_layer_positions(&layer, positions);
        proof {
            assert forall|u: int| 0 <= u < n implies #[trigger] positions@[u] < layout_bound() by {
                if layer@.contains(u as usize) {
                    let k = choose|k: int| 0 <= k < layer@.len() && layer@[k] == u as usize;
                    assert(positions@[layer@[k] as int] == k);
                }
            }
        }
        let ghost before = layers@;
        layers[a] = layer;
        proof {
            assert(layers@ =~= before.update(a as int, layers@[a as int]));
            assert(old_views[a as int] == before[a as int]@);
            assert(layer_views(layers@) =~= old_views.update(a as int, layer@));
        }
    }
}

/// When some node ends the graph, the final column holds exactly those nodes;
/// every other node sits in the column of its own level.
pub proof fn lemma_final_column_holds_the_ends(g: &DependencyGraph, v: int)
    requires
        0 <= v < g.nodes@.len(),
    ensures
        g.column(v) < g.column_count(),
        g.any_end() ==> (g.column(v) == g.column_count() - 1 <==> g.ends(v)),
        !g.ends(v) ==> g.column(v) == g.nodes@[v].dependency_level,
{
    g.lemma_internal_max_bound(g.nodes@.len() as int);
    if g.ends(v) {
        assert(g.any_end());
    }
}

/// In a graph whose first node reaches every node, the first node sits at
/// level 0: no edge from another component leads into its component.
#[verifier::spinoff_prover]
#[verifier::rlimit(30)]
proof fn lemma_root_level_zero(g: &DependencyGraph)
    requires
        g.well_formed(),
        g.rooted(),
    ensures
        g.nodes@[0].dependency_level == 0,
        !g.aligned(0),
{
    let n = g.nodes@.len() as int;
    let lv = crate::dependency_graph::base_levels(g.nodes@, g.has_tools());
    assert(lv[0] == g.nodes@[0].dependency_level);
    if lv[0] != 0 {
        let e = choose|e: int| 0 <= e < g.edges@.len() && crate::condense::crosses(g.edges@, g.comp(), e)
            && g.comp()[g.edges@[e].1 as int] == g.comp()[0] && #[trigger] lv[g.edges@[e].0 as int] + 1 == lv[0];
        let u = g.edges@[e].0 as int;
        let x = g.edges@[e].1 as int;
        assert(u < n && x < n);
        assert(crate::reach::mutual(g.edges@, 0, x));
        assert(crate::reach::has_edge(g.edges@, u, x));
        crate::reach::lemma_reaches_edge(g.edges@, u, x);
        crate::reach::lemma_reaches_trans(g.edges@, u, x, 0);
        assert(crate::reach::reaches(g.edges@, 0, u));
        assert(crate::reach::mutual(g.edges@, 0, u));
        assert(g.comp()[0] == g.comp()[u]);
    }
}

/// The deepest level among the nodes outside the final column is the level
/// of one of them, or 0.
proof fn lemma_internal_max_attained(g: &DependencyGraph, k: int)
    requires
        0 <= k <= g.nodes@.len(),
    ensures
        g.internal_max(k) == 0 || exists|v: int| 0 <= v < k && !g.ends(v) && #[trigger] g.nodes@[v].dependency_level == g.internal_max(k),
    decreases k,
{
    if k > 0 {
        lemma_internal_max_attained(g, k - 1);
    }
}

/// A node ends the graph exactly when it is aligned: the first node never is.
proof fn lemma_ends_are_aligned(g: &DependencyGraph, v: int)
    requires
        0 <= v,
    ensures
        g.ends(v) == g.aligned(v),
        g.column(v) == (if g.aligned(v) { g.internal_max(g.nodes@.len() as int) + 1 } else { g.nodes@[v].dependency_level as int }),
{
    g.lemma_ends(v);
}

/// Under the column laws, a node stands in a column exactly when it is its own.
proof fn lemma_layout_membership(g: &DependencyGraph, layers: Seq<Seq<usize>>, v: int, l: int)
    requires
        0 <= v < g.nodes@.len(),
        0 <= l < layers.len(),
        forall|l2: int, k: int| 0 <= l2 < layers.len() && 0 <= k < layers[l2].len() ==> #[trigger] layers[l2][k] < g.nodes@.len()
            && g.column(layers[l2][k] as int) == l2,
        forall|u: int| 0 <= u < g.nodes@.len() ==> #[trigger] layers[g.column(u)].contains(u as usize),
    ensures
        layers[l].contains(v as usize) <==> l == g.column(v),
{
    if layers[l].contains(v as usize) {
        let k = choose|k: int| 0 <= k < layers[l].len() && layers[l][k] == v as usize;
        assert(g.nodes@.len() == g.nodes.len());
        assert(layers[l][k] as int == v);
        assert(g.column(layers[l][k] as int) == l);
    }
}

/// The column laws that `ordered_layers` states of its result.
pub open spec fn columns_laid(g: &DependencyGraph, layers: Seq<Seq<usize>>) -> bool {
    &&& layers.len() == g.column_count()
    &&& forall|l: int, k: int| 0 <= l < layers.len() && 0 <= k < layers[l].len() ==> #[trigger] layers[l][k] < g.nodes@.len()
        && g.column(layers[l][k] as int) == l
    &&& forall|v: int| 0 <= v < g.nodes@.len() ==> #[trigger] layers[g.column(v)].contains(v as usize)
}

/// Each node stands in its own column and in no other.
proof fn lemma_layout_once(g: &DependencyGraph, layers: Seq<Seq<usize>>)
    requires
        columns_laid(g, layers),
    ensures
        forall|v: int, l: int| 0 <= v < g.nodes@.len() && 0 <= l < layers.len() ==> (#[trigger] layers[l].contains(v as usize) <==> l == g.column(v)),
{
    assert forall|v: int, l: int| 0 <= v < g.nodes@.len() && 0 <= l < layers.len() implies (#[trigger] layers[l].contains(v as usize) <==> l == g.column(v)) by {
        lemma_layout_membership(g, layers, v, l);
    }
}

/// A node outside the final column stands in the column of its level, which
/// is at most the deepest.
proof fn lemma_layout_levels(g: &DependencyGraph, layers: Seq<Seq<usize>>)
    requires
        columns_laid(g, layers),
    ensures
        forall|v: int| 0 <= v < g.nodes@.len() && !g.aligned(v) ==> #[trigger] g.nodes@[v].dependency_level <= g.internal_max(g.nodes@.len() as int),
        forall|v: int| 0 <= v < g.nodes@.len() && !g.aligned(v) ==> #[trigger] layers[g.nodes@[v].dependency_level as int].contains(v as usize),
{
    let n = g.nodes@.len() as int;
    g.lemma_internal_max_bound(n);
    assert forall|v: int| 0 <= v < n && !g.aligned(v) implies #[trigger] g.nodes@[v].dependency_level <= g.internal_max(n) by {
        lemma_ends_are_aligned(g, v);
    }
    assert forall|v: int| 0 <= v < n && !g.aligned(v) implies #[trigger] layers[g.nodes@[v].dependency_level as int].contains(v as usize) by {
        lemma_ends_are_aligned(g, v);
    }
}

/// With aligned nodes the final column holds exactly them and there is one
/// column past the deepest level; without, every node is outside it.
proof fn lemma_layout_final_column(g: &DependencyGraph, layers: Seq<Seq<usize>>)
    requires
        columns_laid(g, layers),
    ensures
        g.any_end() ==> layers.len() == 2 + g.internal_max(g.nodes@.len() as int)
            && forall|v: int| 0 <= v < g.nodes@.len() ==> (#[trigger] layers[layers.len() - 1].contains(v as usize) <==> g.aligned(v)),
        !g.any_end() ==> layers.len() == 1 + g.internal_max(g.nodes@.len() as int)
            && forall|v: int| 0 <= v < g.nodes@.len() ==> !#[trigger] g.aligned(v),
{
    let n = g.nodes@.len() as int;
    g.lemma_internal_max_bound(n);
    if g.any_end() {
        assert forall|v: int| 0 <= v < n implies (#[trigger] layers[layers.len() - 1].contains(v as usize) <==> g.aligned(v)) by {
            lemma_ends_are_aligned(g, v);
            lemma_layout_membership(g, layers, v, layers.len() - 1);
        }
    } else {
        assert forall|v: int| 0 <= v < n implies !#[trigger] g.aligned(v) by {
            lemma_ends_are_aligned(g, v);
            if g.aligned(v) {
                assert(g.ends(v));
            }
        }
    }
}

/// The deepest level counted is that of some node outside the final column.
proof fn lemma_deepest_attained(g: &DependencyGraph)
    requires
        g.nodes@.len() > 0,
    ensures
        exists|v: int| 0 <= v < g.nodes@.len() && !g.aligned(v) && #[trigger] g.nodes@[v].dependency_level == g.internal_max(g.nodes@.len() as int),
{
    let n = g.nodes@.len() as int;
    let m = g.internal_max(n);
    g.lemma_internal_max_bound(n);
    lemma_internal_max_attained(g, n);
    lemma_ends_are_aligned(g, 0);
    if m == 0 {
        assert(g.nodes@[0].dependency_level <= m);
        assert(g.nodes@[0].dependency_level == m);
    } else {
        let v = choose|v: int| 0 <= v < n && !g.ends(v) && #[trigger] g.nodes@[v].dependency_level == m;
        lemma_ends_are_aligned(g, v);
    }
}

/// In a graph whose first node reaches every node, the first column holds it.
proof fn lemma_layout_root(g: &DependencyGraph, layers: Seq<Seq<usize>>)
    requires
        g.well_formed(),
        g.rooted(),
        g.nodes@.len() > 0,
        columns_laid(g, layers),
    ensures
        layers[0].contains(0usize),
{
    lemma_root_level_zero(g);
    lemma_ends_are_aligned(g, 0);
    assert(g.column(0) == 0);
    assert(layers[g.column(0int)].contains(0int as usize));
}

/// The column laws, carried from the columns to their views.
proof fn lemma_views_laid(g: &DependencyGraph, layers: Seq<Vec<usize>>)
    requires
        layers.len() == g.column_count(),
        forall|l: int, k: int| 0 <= l < layers.len() && 0 <= k < layers[l]@.len() ==> #[trigger] layers[l]@[k] < g.nodes@.len()
            && g.column(layers[l]@[k] as int) == l,
        forall|v: int| 0 <= v < g.nodes@.len() ==> #[trigger] layers[g.column(v)]@.contains(v as usize),
        forall|l: int| 0 <= l < layers.len() ==> (#[trigger] layers[l])@.no_duplicates(),
    ensures
        columns_laid(g, layer_views(layers)),
        forall|l: int| 0 <= l < layers.len() ==> (#[trigger] layer_views(layers)[l]).no_duplicates(),
{
    let lv = layer_views(layers);
    assert forall|l: int, k: int| 0 <= l < lv.len() && 0 <= k < lv[l].len() implies #[trigger] lv[l][k] < g.nodes@.len()
        && g.column(lv[l][k] as int) == l by {
        assert(lv[l] == layers[l]@);
        assert(layers[l]@[k] < g.nodes@.len());
    }
    assert forall|v: int| 0 <= v < g.nodes@.len() implies #[trigger] lv[g.column(v)].contains(v as usize) by {
        lemma_final_column_holds_the_ends(g, v);
        g.lemma_internal_max_bound(g.nodes@.len() as int);
        assert(layers[g.column(v)]@.contains(v as usize));
    }
    assert forall|l: int| 0 <= l < layers.len() implies (#[trigger] lv[l]).no_duplicates() by {
        assert(layers[l]@.no_duplicates());
    }
}

/// What the columns of a layout say of the graph: every node stands in
/// exactly its own column; in a graph whose first node reaches every node,
/// that node stands in the first column. Without aligned nodes, there is one
/// column per level up to the deepest, and each node stands in the column of
/// its level. With them, the final column holds exactly the aligned nodes,
/// every other node stands in the column of its level, and there is one
/// column per level up to the deepest of theirs and one more. The deepest
/// level counted is the level of some node that is not aligned.
pub open spec fn column_law(g: &DependencyGraph, layers: Seq<Seq<usize>>) -> bool {
    let n = g.nodes@.len() as int;
    let m = g.internal_max(n);
    &&& forall|v: int, l: int| 0 <= v < n && 0 <= l < layers.len() ==> (#[trigger] layers[l].contains(v as usize) <==> l == g.column(v))
    &&& g.rooted() ==> layers[0].contains(0usize)
    &&& !g.any_end() ==> layers.len() == 1 + m
        && forall|v: int| 0 <= v < n ==> #[trigger] layers[g.nodes@[v].dependency_level as int].contains(v as usize)
    &&& g.any_end() ==> layers.len() == 2 + m
        && (forall|v: int| 0 <= v < n ==> (#[trigger] layers[layers.len() - 1].contains(v as usize) <==> g.aligned(v)))
        && forall|v: int| 0 <= v < n && !g.aligned(v) ==> #[trigger] layers[g.nodes@[v].dependency_level as int].contains(v as usize)
    &&& forall|v: int| 0 <= v < n && !g.aligned(v) ==> #[trigger] g.nodes@[v].dependency_level <= m
    &&& exists|v: int| 0 <= v < n && !g.aligned(v) && #[trigger] g.nodes@[v].dependency_level == m
    &&& forall|l: int| 0 <= l < layers.len() ==> (#[trigger] layers[l]).no_duplicates()
}

/// The columns of a layout, as `ordered_layers` gives them, obey the column
/// law: each node stands in exactly one column, the first node of a rooted
/// graph in the first, aligned nodes alone in the final column when there
/// are any, and every other node in the column of its level.
#[verifier::spinoff_prover]
pub proof fn lemma_layout_columns(g: &DependencyGraph, layers: Seq<Seq<usize>>)
    requires
        g.well_formed(),
        columns_laid(g, layers),
        forall|l: int| 0 <= l < layers.len() ==> (#[trigger] layers[l]).no_duplicates(),
    ensures
        column_law(g, layers),
{
    assert(g.nodes@.len() >= 1);
    lemma_layout_once(g, layers);
    lemma_layout_levels(g, layers);
    lemma_layout_final_column(g, layers);
    lemma_deepest_attained(g);
    if g.rooted() {
        lemma_layout_root(g, layers);
    }
}

/// `lt` is a strict total order on the positions below `n`.
pub open spec fn total_below(n: int, lt: spec_fn(usize, usize) -> bool) -> bool {
    &&& forall|x: usize| x < n ==> !#[trigger] lt(x, x)
    &&& forall|x: usize, y: usize, z: usize| x < n && y < n && z < n && #[trigger] lt(x, y) && #[trigger] lt(y, z) ==> lt(x, z)
    &&& forall|x: usize, y: usize| x < n && y < n && x != y ==> #[trigger] lt(x, y) || #[trigger] lt(y, x)
}

/// `x` put into the sorted `s` at its place.
proof fn insert_sorted(s: Seq<usize>, x: usize, n: int, lt: spec_fn(usize, usize) -> bool) -> (t: Seq<usize>)
    requires
        total_below(n, lt),
        sorted_by(s, lt),
        forall|k: int| 0 <= k < s.len() ==> #[trigger] s[k] < n,
        x < n,
        !s.contains(x),
    ensures
        t.len() == s.len() + 1,
        forall|y: usize| t.contains(y) <==> (s.contains(y) || y == x),
        forall|k: int| 0 <= k < t.len() ==> #[trigger] t[k] < n,
        sorted_by(t, lt),
    decreases s.len(),
{
    if s.len() == 0 {
        let t = seq![x];
        assert forall|y: usize| t.contains(y) <==> (s.contains(y) || y == x) by {
            if y == x {
                assert(t[0] == x);
            }
        }
        t
    } else if lt(x, s[0]) {
        let t = seq![x] + s;
        assert forall|a: int, b: int| 0 <= a < b < t.len() implies #[trigger] lt(t[a], t[b]) by {
            if a == 0 {
                if b > 1 {
                    assert(lt(s[0], s[b - 1]));
                }
            } else {
                assert(t[a] == s[a - 1] && t[b] == s[b - 1]);
            }
        }
        assert forall|y: usize| t.contains(y) <==> (s.contains(y) || y == x) by {
            if t.contains(y) {
                let k = choose|k: int| 0 <= k < t.len() && t[k] == y;
                if k > 0 {
                    assert(s[k - 1] == y);
                }
            }
            if s.contains(y) {
                let k = choose|k: int| 0 <= k < s.len() && s[k] == y;
                assert(t[k + 1] == y);
            }
            if y == x {
                assert(t[0] == x);
            }
        }
        t
    } else {
        let rest = s.drop_first();
        assert forall|a: int, b: int| 0 <= a < b < rest.len() implies #[trigger] lt(rest[a], rest[b]) by {
            assert(rest[a] == s[a + 1] && rest[b] == s[b + 1]);
        }
        assert(!rest.contains(x)) by {
            if rest.contains(x) {
                let k = choose|k: int| 0 <= k < rest.len() && rest[k] == x;
                assert(s[k + 1] == x);
            }
        }
        let t2 = insert_sorted(rest, x, n, lt);
        let t = seq![s[0]] + t2;
        assert(s.contains(s[0]));
        assert(x != s[0]);
        assert(lt(s[0], x));
        assert forall|a: int, b: int| 0 <= a < b < t.len() implies #[trigger] lt(t[a], t[b]) by {
            if a == 0 {
                let y = t[b];
                assert(t2[b - 1] == y);
                assert(t2.contains(y));
                if y != x {
                    assert(rest.contains(y));
                    let k = choose|k: int| 0 <= k < rest.len() && rest[k] == y;
                    assert(s[k + 1] == y);
                    assert(lt(s[0], s[k + 1]));
                }
            } else {
                assert(t[a] == t2[a - 1] && t[b] == t2[b - 1]);
            }
        }
        assert forall|y: usize| t.contains(y) <==> (s.contains(y) || y == x) by {
            if t.contains(y) {
                let k = choose|k: int| 0 <= k < t.len() && t[k] == y;
                if k > 0 {
                    assert(t2[k - 1] == y);
                    assert(t2.contains(y));
                    if rest.contains(y) {
                        let j = choose|j: int| 0 <= j < rest.len() && rest[j] == y;
                        assert(s[j + 1] == y);
                    }
                }
            }
            if s.contains(y) {
                let k = choose|k: int| 0 <= k < s.len() && s[k] == y;
                if k == 0 {
                    assert(t[0] == y);
                } else {
                    assert(rest[k - 1] == y);
                    assert(t2.contains(y));
                    let j = choose|j: int| 0 <= j < t2.len() && t2[j] == y;
                    assert(t[j + 1] == y);
                }
            }
            if y == x {
                assert(t2.contains(x));
                let j = choose|j: int| 0 <= j < t2.len() && t2[j] == x;
                assert(t[j + 1] == x);
            }
        }
        assert forall|k: int| 0 <= k < t.len() implies #[trigger] t[k] < n by {
            if k > 0 {
                assert(t[k] == t2[k - 1]);
            }
        }
        t
    }
}

/// The positions below `n`, sorted under `lt`.
proof fn sorted_below(n: int, lt: spec_fn(usize, usize) -> bool) -> (s: Seq<usize>)
    requires
        0 <= n <= usize::MAX + 1,
        total_below(n, lt),
    ensures
        is_index_order(s, n as nat, lt),
        forall|k: int| 0 <= k < s.len() ==> #[trigger] s[k] < n,
    decreases n,
{
    if n == 0 {
        let s = Seq::<usize>::empty();
        assert forall|x: usize| s.contains(x) <==> x < n by {}
        s
    } else {
        assert(total_below(n - 1, lt));
        let s = sorted_below(n - 1, lt);
        let x = (n - 1) as usize;
        assert(!s.contains(x)) by {
            if s.contains(x) {
                let k = choose|k: int| 0 <= k < s.len() && s[k] == x;
                assert(s[k] < n - 1);
            }
        }
        let t = insert_sorted(s, x, n, lt);
        assert forall|y: usize| t.contains(y) <==> y < n by {
            assert(s.contains(y) <==> y < n - 1);
        }
        t
    }
}

/// A node has no more neighbours than there are edges.
proof fn lemma_neighbor_count_bound(edges: Seq<(usize, usize)>, x: usize, incoming: bool, k: int)
    ensures
        0 <= neighbor_count(edges, x, incoming, k) <= if k < 0 { 0 } else { k },
    decreases k,
{
    if k > 0 {
        lemma_neighbor_count_bound(edges, x, incoming, k - 1);
    }
}

/// Arranging a column of distinct nodes keeps its nodes: the same ones, each
/// once, whatever the positions and however many nodes and edges there are.
proof fn lemma_arranged_permutes(
    layer: Seq<usize>,
    nodes: Seq<DependencyGraphNode>,
    edges: Seq<(usize, usize)>,
    positions: Seq<usize>,
    incoming: Option<bool>,
)
    requires
        layer.no_duplicates(),
        forall|k: int| 0 <= k < layer.len() ==> #[trigger] layer[k] < nodes.len(),
        nodes.len() <= usize::MAX,
        edges.len() <= usize::MAX,
    ensures
        arranged(layer, nodes, edges, positions, incoming).len() == layer.len(),
        arranged(layer, nodes, edges, positions, incoming).no_duplicates(),
        forall|x: usize| #[trigger] arranged(layer, nodes, edges, positions, incoming).contains(x) <==> layer.contains(x),
{
    let len = layer.len();
    lemma_distinct_below(layer, nodes.len() as int);
    let rk = layer_ranks(layer, edges, positions, incoming);
    let names = layer_names(nodes, layer);
    let lt = layer_lt(rk, names);
    assert forall|i: int| 0 <= i < rk.len() implies (#[trigger] rk[i]).0 ==> rk[i].2 > 0 by {
        match incoming {
            Some(d) => {
                lemma_neighbor_count_bound(edges, layer[i], d, edges.len() as int);
            },
            None => {},
        }
    }
    let r = Seq::new(len, |i: int| i as usize);
    assert forall|x: usize| r.contains(x) implies x < rk.len() by {
        let k = choose|k: int| 0 <= k < r.len() && r[k] == x;
    }
    lemma_layer_lt_order(rk, names, r);
    assert forall|x: usize| x < len implies #[trigger] r.contains(x) by {
        assert(r[x as int] == x);
    }
    assert(total_below(len as int, lt)) by {
        assert forall|x: usize| x < len implies !#[trigger] lt(x, x) by {
            assert(r.contains(x));
        }
        assert forall|x: usize, y: usize, z: usize| x < len && y < len && z < len && #[trigger] lt(x, y) && #[trigger] lt(y, z) implies lt(x, z) by {
            assert(r.contains(x) && r.contains(y) && r.contains(z));
        }
        assert forall|x: usize, y: usize| x < len && y < len && x != y implies #[trigger] lt(x, y) || #[trigger] lt(y, x) by {
            assert(r.contains(x) && r.contains(y));
        }
    }
    let witness = sorted_below(len as int, lt);
    let chosen = index_order(len, lt);
    assert(is_index_order(chosen, len, lt));
    let out = chosen.map_values(|i: usize| layer[i as int]);
    assert(out == arranged(layer, nodes, edges, positions, incoming));
    assert forall|a: int| 0 <= a < chosen.len() implies #[trigger] chosen[a] < len by {
        assert(chosen.contains(chosen[a]));
    }
    assert forall|a: int, b: int| 0 <= a < b < out.len() implies out[a] != out[b] by {
        assert(lt(chosen[a], chosen[b]));
        assert(chosen[a] != chosen[b]) by {
            if chosen[a] == chosen[b] {
                assert(chosen.contains(chosen[a]));
            }
        }
    }
    assert forall|x: usize| #[trigger] out.contains(x) <==> layer.contains(x) by {
        if out.contains(x) {
            let j = choose|j: int| 0 <= j < out.len() && out[j] == x;
            assert(layer[chosen[j] as int] == x);
        }
        if layer.contains(x) {
            let p = choose|p: int| 0 <= p < layer.len() && layer[p] == x;
            assert(chosen.contains(p as usize));
            let j = choose|j: int| 0 <= j < chosen.len() && chosen[j] == p as usize;
            assert(out[j] == x);
        }
    }
}

/// Columns that hold every node in its own column, each node once.
pub open spec fn columns_sound(g: &DependencyGraph, cols: Seq<Seq<usize>>) -> bool {
    &&& columns_laid(g, cols)
    &&& forall|l: int| 0 <= l < cols.len() ==> (#[trigger] cols[l]).no_duplicates()
}

/// Every node's column is one of the columns.
proof fn lemma_column_in_range(g: &DependencyGraph, v: int)
    requires
        0 <= v < g.nodes@.len(),
    ensures
        0 <= g.column(v) < g.column_count(),
{
    lemma_final_column_holds_the_ends(g, v);
    g.lemma_internal_max_bound(g.nodes@.len() as int);
}

/// One sweep keeps the columns sound: it only reorders one column.
proof fn lemma_sweep_keeps_columns(g: &DependencyGraph, st: (Seq<Seq<usize>>, Seq<usize>), a: int, incoming: bool)
    requires
        columns_sound(g, st.0),
        0 <= a < st.0.len(),
    ensures
        columns_sound(g, g.sweep_step(st, a, incoming).0),
{
    let cols = st.0;
    let arr = arranged(cols[a], g.nodes@, g.edges@, st.1, Some(incoming));
    let next = g.sweep_step(st, a, incoming).0;
    assert(next == cols.update(a, arr));
    assert(g.nodes@.len() == g.nodes.len());
    assert(g.edges@.len() == g.edges.len());
    assert forall|k: int| 0 <= k < cols[a].len() implies #[trigger] cols[a][k] < g.nodes@.len() by {}
    lemma_arranged_permutes(cols[a], g.nodes@, g.edges@, st.1, Some(incoming));
    assert forall|l: int, k: int| 0 <= l < next.len() && 0 <= k < next[l].len() implies #[trigger] next[l][k] < g.nodes@.len()
        && g.column(next[l][k] as int) == l by {
        if l == a {
            let x = next[l][k];
            assert(arr.contains(x));
            assert(cols[a].contains(x));
            let j = choose|j: int| 0 <= j < cols[a].len() && cols[a][j] == x;
            assert(cols[a][j] < g.nodes@.len());
        } else {
            assert(next[l] == cols[l]);
        }
    }
    assert forall|v: int| 0 <= v < g.nodes@.len() implies #[trigger] next[g.column(v)].contains(v as usize) by {
        lemma_column_in_range(g, v);
        assert(cols[g.column(v)].contains(v as usize));
        if g.column(v) == a {
            assert(arr.contains(v as usize));
        }
    }
    assert forall|l: int| 0 <= l < next.len() implies (#[trigger] next[l]).no_duplicates() by {
        if l != a {
            assert(next[l] == cols[l]);
        }
    }
}

proof fn lemma_down_sweeps_keep_columns(g: &DependencyGraph, st: (Seq<Seq<usize>>, Seq<usize>), a: int)
    requires
        columns_sound(g, st.0),
        a <= st.0.len(),
    ensures
        columns_sound(g, g.down_sweeps(st, a).0),
    decreases a,
{
    if a > 1 {
        lemma_down_sweeps_keep_columns(g, st, a - 1);
        lemma_sweep_keeps_columns(g, g.down_sweeps(st, a - 1), a - 1, true);
    }
}

proof fn lemma_up_sweeps_keep_columns(g: &DependencyGraph, st: (Seq<Seq<usize>>, Seq<usize>), m: int)
    requires
        columns_sound(g, st.0),
        m <= st.0.len() - 1,
    ensures
        columns_sound(g, g.up_sweeps(st, m).0),
    decreases m,
{
    if m > 0 {
        lemma_up_sweeps_keep_columns(g, st, m - 1);
        lemma_sweep_keeps_columns(g, g.up_sweeps(st, m - 1), g.column_count() - 1 - m, false);
    }
}

proof fn lemma_rounds_keep_columns(g: &DependencyGraph, st: (Seq<Seq<usize>>, Seq<usize>), r: int)
    requires
        columns_sound(g, st.0),
    ensures
        columns_sound(g, g.rounds(st, r).0),
    decreases r,
{
    if r > 0 {
        let count = g.column_count();
        lemma_rounds_keep_columns(g, st, r - 1);
        let before = g.rounds(st, r - 1);
        lemma_down_sweeps_keep_columns(g, before, count);
        lemma_up_sweeps_keep_columns(g, g.down_sweeps(before, count), count - 1);
    }
}

/// The nodes among the first `k` whose column is `l`: each once, in order.
proof fn lemma_column_nodes(g: &DependencyGraph, l: int, k: int)
    requires
        0 <= k <= g.nodes@.len(),
    ensures
        g.column_nodes(l, k).no_duplicates(),
        forall|j: int| 0 <= j < g.column_nodes(l, k).len() ==> #[trigger] g.column_nodes(l, k)[j] < k,
        forall|x: usize| #[trigger] g.column_nodes(l, k).contains(x) <==> (x < k && g.column(x as int) == l),
    decreases k,
{
    assert(g.nodes@.len() == g.nodes.len());
    if k > 0 {
        lemma_column_nodes(g, l, k - 1);
        let s = g.column_nodes(l, k - 1);
        let x = (k - 1) as usize;
        if g.column(k - 1) == l {
            let t = s.push(x);
            assert forall|j: int| 0 <= j < t.len() implies #[trigger] t[j] < k by {
                if j < s.len() {
                    assert(t[j] == s[j]);
                }
            }
            assert forall|a: int, b: int| 0 <= a < b < t.len() implies t[a] != t[b] by {
                if b == s.len() {
                    assert(t[a] == s[a]);
                    assert(s[a] < k - 1);
                }
            }
            assert forall|y: usize| #[trigger] t.contains(y) <==> (y < k && g.column(y as int) == l) by {
                if t.contains(y) {
                    let j = choose|j: int| 0 <= j < t.len() && t[j] == y;
                    if j < s.len() {
                        assert(s[j] == y);
                        assert(s.contains(y));
                    }
                }
                if y < k && g.column(y as int) == l {
                    if y < k - 1 {
                        assert(s.contains(y));
                        let j = choose|j: int| 0 <= j < s.len() && s[j] == y;
                        assert(t[j] == y);
                    } else {
                        assert(t[s.len() as int] == y);
                    }
                }
            }
        } else {
            assert forall|y: usize| #[trigger] s.contains(y) <==> (y < k && g.column(y as int) == l) by {}
        }
    }
}

/// A column before any sweep holds the nodes of that column, each once.
proof fn lemma_initial_column(g: &DependencyGraph, l: int)
    requires
        0 <= l < g.column_count(),
    ensures
        g.initial_layers()[l].no_duplicates(),
        forall|x: usize| #[trigger] g.initial_layers()[l].contains(x) <==> (x < g.nodes@.len() && g.column(x as int) == l),
{
    let n = g.nodes@.len() as int;
    assert(g.nodes@.len() == g.nodes.len());
    assert(g.edges@.len() == g.edges.len());
    lemma_column_nodes(g, l, n);
    assert forall|k: int| 0 <= k < g.column_nodes(l, n).len() implies #[trigger] g.column_nodes(l, n)[k] < g.nodes@.len() by {}
    lemma_arranged_permutes(g.column_nodes(l, n), g.nodes@, g.edges@, g.zero_positions(), None);
    assert(g.initial_layers()[l] == arranged(g.column_nodes(l, n), g.nodes@, g.edges@, g.zero_positions(), None));
}

/// Before any sweep the columns are sound.
proof fn lemma_initial_columns(g: &DependencyGraph)
    ensures
        columns_sound(g, g.initial_layers()),
{
    g.lemma_internal_max_bound(g.nodes@.len() as int);
    let cols = g.initial_layers();
    assert forall|l: int| 0 <= l < cols.len() implies (#[trigger] cols[l]).no_duplicates() by {
        lemma_initial_column(g, l);
    }
    assert forall|l: int, k: int| 0 <= l < cols.len() && 0 <= k < cols[l].len() implies #[trigger] cols[l][k] < g.nodes@.len()
        && g.column(cols[l][k] as int) == l by {
        lemma_initial_column(g, l);
        assert(cols[l].contains(cols[l][k]));
    }
    assert forall|v: int| 0 <= v < g.nodes@.len() implies #[trigger] cols[g.column(v)].contains(v as usize) by {
        lemma_column_in_range(g, v);
        lemma_initial_column(g, g.column(v));
        assert(g.nodes@.len() == g.nodes.len());
        assert((v as usize) as int == v);
    }
}

/// The layout of any well-formed graph, whatever its size, obeys the
/// column law: the sweeps only reorder columns, so each node stays in its
/// own column, once; the aligned nodes fill the final column when there are
/// any, and every other node the column of its level.
pub proof fn lemma_laid_out_columns(g: &DependencyGraph)
    requires
        g.well_formed(),
    ensures
        column_law(g, g.laid_out()),
{
    lemma_initial_columns(g);
    lemma_rounds_keep_columns(g, g.initial_state(), 3);
    lemma_layout_columns(g, g.laid_out());
}

} // verus!
