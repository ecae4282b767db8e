//! The relationship graph around one package: what it depends on (forward)
//! or what depends on it (reverse), with strongly connected components,
//! longest-path levels and a layered ordering for display.
use crate::condense::{components_ok, condense, crosses, levels_ok};
use crate::models::{AppItem, InstallRole};
use crate::names::{lemma_strictly_sorted_unique, name_views, sorted_unique, strictly_sorted};
use crate::order::{chars_lt, lemma_chars_lt_irrefl, lemma_chars_lt_total, lemma_chars_lt_trans, sort_indices, sorted_by, str_less, strict_total_on};
use crate::reach::{edges_within, has_edge, lemma_reaches_refl, lemma_reaches_step, mutual, reaches};
use vstd::prelude::*;

verus! {

#[derive(Clone, Copy, Debug, PartialEq, Eq, Structural)]
pub enum DependencyGraphNodeKind {
    Package,
    ProvidedTool { owner_package_index: usize, binary_index: usize },
}

#[derive(Debug)]
pub struct DependencyGraphNode {
    pub name: String,
    pub package_index: Option<usize>,
    pub kind: DependencyGraphNodeKind,
    pub dependency_level: usize,
    pub is_explicit: bool,
    pub has_hidden_successors: bool,
}

#[derive(Debug)]
pub struct DependencyGraph {
    pub nodes: Vec<DependencyGraphNode>,
    pub edges: Vec<(usize, usize)>,
    pub truncated: bool,
    /// The component of each node.
    pub component_by_node: Vec<usize>,
    /// The members of each component, explicit packages first, then by name.
    pub components: Vec<Vec<usize>>,
}

/// The names a package points at: the packages that require it (reverse) or
/// those it depends on (forward).
pub open spec fn successor_list(app: AppItem, reverse: bool) -> Seq<String> {
    if reverse { app.required_by@ } else { app.depends_on@ }
}

/// The first entry of `map` whose key is `key`.
pub open spec fn first_key(map: Seq<(String, String)>, key: Seq<char>, i: int) -> bool {
    0 <= i < map.len() && map[i].0@ == key && forall|j: int| 0 <= j < i ==> map[j].0@ != key
}

/// The name that satisfies `key`: the package that provides it, or the key itself.
pub open spec fn resolved(map: Seq<(String, String)>, key: Seq<char>) -> Seq<char> {
    if exists|i: int| first_key(map, key, i) {
        map[choose|i: int| first_key(map, key, i)].1@
    } else {
        key
    }
}

/// `x` is a (resolved) successor name of the package `pkg`.
pub open spec fn is_successor(
    apps: Seq<AppItem>,
    map: Seq<(String, String)>,
    reverse: bool,
    pkg: Option<usize>,
    x: Seq<char>,
) -> bool {
    match pkg {
        Some(p) => 0 <= p < apps.len() && exists|j: int|
            0 <= j < successor_list(apps[p as int], reverse).len() && #[trigger] resolved(
                map,
                successor_list(apps[p as int], reverse)[j]@,
            ) == x,
        None => false,
    }
}

/// The last package named `x`, as a map built from the list keeps it.
pub open spec fn last_named(apps: Seq<AppItem>, x: Seq<char>, i: int) -> bool {
    0 <= i < apps.len() && apps[i].name@ == x && forall|j: int| i < j < apps.len() ==> apps[j].name@ != x
}

pub open spec fn package_named(apps: Seq<AppItem>, x: Seq<char>) -> Option<usize> {
    if exists|i: int| last_named(apps, x, i) {
        Some((choose|i: int| last_named(apps, x, i)) as usize)
    } else {
        None
    }
}

/// Whether the package at `pkg` (if any) was installed explicitly.
pub open spec fn explicit_package(apps: Seq<AppItem>, pkg: Option<usize>) -> bool {
    match pkg {
        Some(p) => apps[p as int].install_role == InstallRole::Explicit,
        None => false,
    }
}

pub fn provider_for(map: &Vec<(String, String)>, key: &String) -> (r: String)
    ensures
        r@ == resolved(map@, key@),
{
    let mut i: usize = 0;
    while i < map.len()
        invariant
            i <= map@.len(),
            forall|j: int| 0 <= j < i ==> map@[j].0@ != key@,
        decreases map@.len() - i,
    {
        if map[i].0 == *key {
            proof {
                assert(first_key(map@, key@, i as int));
                let k = choose|k: int| first_key(map@, key@, k);
                if k < i { assert(map@[k].0@ != key@); }
                if i < k { assert(map@[i as int].0@ != key@); }
            }
            return map[i].1.clone();
        }
        i += 1;
    }
    key.clone()
}

pub fn package_index_named(apps: &[AppItem], name: &String) -> (r: Option<usize>)
    ensures
        r == package_named(apps@, name@),
{
    let mut e = apps.len();
    while e > 0
        invariant
            e <= apps@.len(),
            forall|j: int| e <= j < apps@.len() ==> apps@[j].name@ != name@,
        decreases e,
    {
        if apps[e - 1].name == *name {
            proof {
                let i = (e - 1) as int;
                assert(last_named(apps@, name@, i));
                let k = choose|k: int| last_named(apps@, name@, k);
                if k < i { assert(apps@[i].name@ != name@); }
                if i < k { assert(apps@[k].name@ != name@); }
            }
            return Some(e - 1);
        }
        e -= 1;
    }
    None
}

/// The resolved successor names of package `p`, sorted, each once.
pub fn successor_names(apps: &[AppItem], map: &Vec<(String, String)>, reverse: bool, p: usize) -> (out: Vec<String>)
    requires
        p < apps@.len(),
    ensures
        strictly_sorted(name_views(out@)),
        forall|x: Seq<char>| name_views(out@).contains(x) <==> is_successor(apps@, map@, reverse, Some(p), x),
{
    let list = if reverse { &apps[p].required_by } else { &apps[p].depends_on };
    let mut names: Vec<String> = Vec::new();
    let mut j: usize = 0;
    while j < list.len()
        invariant
            p < apps@.len(),
            list@ == successor_list(apps@[p as int], reverse),
            j <= list@.len(),
            names@.len() == j,
            forall|k: int| 0 <= k < j ==> #[trigger] names@[k]@ == resolved(map@, list@[k]@),
        decreases list@.len() - j,
    {
        let r = provider_for(map, &list[j]);
        names.push(r);
        j += 1;
    }
    proof {
        assert forall|x: Seq<char>| name_views(names@).contains(x) <==> is_successor(apps@, map@, reverse, Some(p), x) by {
            if name_views(names@).contains(x) {
                let k = choose|k: int| 0 <= k < name_views(names@).len() && name_views(names@)[k] == x;
                assert(names@[k]@ == resolved(map@, list@[k]@));
            }
            if is_successor(apps@, map@, reverse, Some(p), x) {
                let k = choose|k: int| 0 <= k < list@.len() && #[trigger] resolved(map@, list@[k]@) == x;
                assert(name_views(names@)[k] == x);
            }
        }
    }
    sorted_unique(names)
}

pub fn node_named(nodes: &Vec<DependencyGraphNode>, name: &String) -> (r: Option<usize>)
    ensures
        r matches Some(t) ==> t < nodes@.len() && nodes@[t as int].name@ == name@
            && forall|u: int| 0 <= u < t ==> nodes@[u].name@ != name@,
        r is None ==> forall|t: int| 0 <= t < nodes@.len() ==> nodes@[t].name@ != name@,
{
    let mut i: usize = 0;
    while i < nodes.len()
        invariant
            i <= nodes@.len(),
            forall|t: int| 0 <= t < i ==> nodes@[t].name@ != name@,
        decreases nodes@.len() - i,
    {
        if nodes[i].name == *name {
            return Some(i);
        }
        i += 1;
    }
    None
}

} // verus!

verus! {

/// Node `k` of a freshly built graph: a package node named as found, bound to
/// the last package of that name (the selected package for the root).
pub open spec fn node_ok(apps: Seq<AppItem>, root: usize, k: int, node: DependencyGraphNode) -> bool {
    &&& node.kind == DependencyGraphNodeKind::Package
    &&& if k == 0 {
        node.package_index == Some(root) && node.name@ == apps[root as int].name@
    } else {
        node.package_index == package_named(apps, node.name@)
    }
    &&& node.is_explicit == explicit_package(apps, node.package_index)
}

pub open spec fn names_distinct(nodes: Seq<DependencyGraphNode>) -> bool {
    forall|i: int, j: int| 0 <= i < j < nodes.len() ==> nodes[i].name@ != nodes[j].name@
}

pub open spec fn edges_distinct(edges: Seq<(usize, usize)>) -> bool {
    forall|e: int, f: int| 0 <= e < f < edges.len() ==> edges[e] != edges[f]
}

/// Node `t` is named `x`.
pub open spec fn has_node_named(nodes: Seq<DependencyGraphNode>, x: Seq<char>) -> bool {
    exists|t: int| 0 <= t < nodes.len() && #[trigger] nodes[t].name@ == x
}

/// Node `s` points at a node for every successor name, unless it is marked as
/// having hidden successors.
pub open spec fn expanded(
    apps: Seq<AppItem>,
    map: Seq<(String, String)>,
    reverse: bool,
    nodes: Seq<DependencyGraphNode>,
    edges: Seq<(usize, usize)>,
    s: int,
) -> bool {
    forall|x: Seq<char>| #[trigger] is_successor(apps, map, reverse, nodes[s].package_index, x) ==> (
    nodes[s].has_hidden_successors || exists|t: int|
        0 <= t < nodes.len() && nodes[t].name@ == x && #[trigger] has_edge(edges, s, t))
}

/// Node `s` has hidden successors exactly when the node limit was reached and
/// one of its successor names has no node.
pub open spec fn hidden_ok(
    apps: Seq<AppItem>,
    map: Seq<(String, String)>,
    reverse: bool,
    cap: int,
    nodes: Seq<DependencyGraphNode>,
    s: int,
) -> bool {
    nodes[s].has_hidden_successors ==> nodes.len() == cap && exists|x: Seq<char>| #[trigger] is_successor(apps, map, reverse, nodes[s].package_index, x) && !has_node_named(nodes, x)
}

/// The state of the breadth-first expansion once nodes `0..done` are
/// expanded, while node `done` may be in progress when `active` exceeds it.
pub open spec fn bfs_ok(
    apps: Seq<AppItem>,
    map: Seq<(String, String)>,
    reverse: bool,
    root: usize,
    cap: int,
    nodes: Seq<DependencyGraphNode>,
    edges: Seq<(usize, usize)>,
    truncated: bool,
    done: int,
    active: int,
) -> bool {
    &&& 1 <= nodes.len() <= cap
    &&& 0 <= done <= active <= nodes.len()
    &&& forall|k: int| 0 <= k < nodes.len() ==> #[trigger] node_ok(apps, root, k, nodes[k])
    &&& names_distinct(nodes)
    &&& edges_distinct(edges)
    &&& forall|e: int| 0 <= e < edges.len() ==> #[trigger] edges[e].0 < active && edges[e].1 < nodes.len()
        && is_successor(apps, map, reverse, nodes[edges[e].0 as int].package_index, nodes[edges[e].1 as int].name@)
    &&& forall|s: int| 0 <= s < done ==> #[trigger] expanded(apps, map, reverse, nodes, edges, s)
    &&& forall|s: int| 0 <= s < nodes.len() ==> #[trigger] hidden_ok(apps, map, reverse, cap, nodes, s)
    &&& forall|s: int| active <= s < nodes.len() ==> !(#[trigger] nodes[s]).has_hidden_successors
    &&& truncated == exists|s: int| 0 <= s < nodes.len() && #[trigger] nodes[s].has_hidden_successors
    &&& forall|k: int| 0 < k < nodes.len() ==> #[trigger] discovered(edges, k)
}

/// Some earlier node points at node `k`.
pub open spec fn discovered(edges: Seq<(usize, usize)>, k: int) -> bool {
    exists|s: int| 0 <= s < k && #[trigger] has_edge(edges, s, k)
}

} // verus!

verus! {

/// The largest number of nodes a graph may hold.
pub open spec fn node_cap(max_nodes: usize) -> int {
    if max_nodes > 1 { max_nodes as int } else { 1 }
}

/// What the expansion decides of a node: its name, its package, whether that
/// package is explicit, and whether it has hidden successors.
pub open spec fn node_view(n: DependencyGraphNode) -> (Seq<char>, Option<usize>, bool, bool) {
    (n.name@, n.package_index, n.is_explicit, n.has_hidden_successors)
}

pub open spec fn node_views(nodes: Seq<DependencyGraphNode>) -> Seq<(Seq<char>, Option<usize>, bool, bool)> {
    nodes.map_values(|n: DependencyGraphNode| node_view(n))
}

pub open spec fn first_view_named(nv: Seq<(Seq<char>, Option<usize>, bool, bool)>, x: Seq<char>, t: int) -> bool {
    0 <= t < nv.len() && nv[t].0 == x && forall|u: int| 0 <= u < t ==> nv[u].0 != x
}

/// The first node named `x`.
pub open spec fn view_named(nv: Seq<(Seq<char>, Option<usize>, bool, bool)>, x: Seq<char>) -> Option<int> {
    if exists|t: int| first_view_named(nv, x, t) {
        Some(choose|t: int| first_view_named(nv, x, t))
    } else {
        None
    }
}

/// The names a package points at, each once, in the order of `str`.
pub open spec fn sorted_successors(apps: Seq<AppItem>, map: Seq<(String, String)>, reverse: bool, p: usize) -> Seq<Seq<char>> {
    choose|l: Seq<Seq<char>>| strictly_sorted(l) && forall|x: Seq<char>| l.contains(x) <==> is_successor(apps, map, reverse, Some(p), x)
}

/// One step of the expansion of node `s`, for its successor name `x`: an
/// edge to the node of that name; else, below the limit, a new node for it
/// (bound to the last package of that name) and an edge to it; else node
/// `s` is marked as having hidden successors and the graph as truncated.
pub open spec fn visit(
    apps: Seq<AppItem>,
    cap: int,
    st: (Seq<(Seq<char>, Option<usize>, bool, bool)>, Seq<(usize, usize)>, bool),
    s: int,
    x: Seq<char>,
) -> (Seq<(Seq<char>, Option<usize>, bool, bool)>, Seq<(usize, usize)>, bool) {
    let (nv, ev, truncated) = st;
    match view_named(nv, x) {
        Some(t) => (nv, ev.push((s as usize, t as usize)), truncated),
        None => if nv.len() >= cap {
            (nv.update(s, (nv[s].0, nv[s].1, nv[s].2, true)), ev, true)
        } else {
            let pkg = package_named(apps, x);
            (nv.push((x, pkg, explicit_package(apps, pkg), false)), ev.push((s as usize, nv.len() as usize)), truncated)
        },
    }
}

/// The steps for the first `j` of `names`.
pub open spec fn visit_all(
    apps: Seq<AppItem>,
    cap: int,
    st: (Seq<(Seq<char>, Option<usize>, bool, bool)>, Seq<(usize, usize)>, bool),
    s: int,
    names: Seq<Seq<char>>,
    j: int,
) -> (Seq<(Seq<char>, Option<usize>, bool, bool)>, Seq<(usize, usize)>, bool)
    decreases j,
{
    if j <= 0 {
        st
    } else {
        visit(apps, cap, visit_all(apps, cap, st, s, names, j - 1), s, names[j - 1])
    }
}

/// The expansion of node `s`: a step for each of its package's successor
/// names in order; nothing for a node without a package or past the last.
pub open spec fn expand_node(
    apps: Seq<AppItem>,
    map: Seq<(String, String)>,
    reverse: bool,
    cap: int,
    st: (Seq<(Seq<char>, Option<usize>, bool, bool)>, Seq<(usize, usize)>, bool),
    s: int,
) -> (Seq<(Seq<char>, Option<usize>, bool, bool)>, Seq<(usize, usize)>, bool) {
    if s < 0 || s >= st.0.len() {
        st
    } else {
        match st.0[s].1 {
            Some(p) => {
                let names = sorted_successors(apps, map, reverse, p);
                visit_all(apps, cap, st, s, names, names.len() as int)
            },
            None => st,
        }
    }
}

/// The state once nodes `0 .. k` are expanded, one after the other.
pub open spec fn expanded_upto(
    apps: Seq<AppItem>,
    map: Seq<(String, String)>,
    reverse: bool,
    cap: int,
    st: (Seq<(Seq<char>, Option<usize>, bool, bool)>, Seq<(usize, usize)>, bool),
    k: nat,
) -> (Seq<(Seq<char>, Option<usize>, bool, bool)>, Seq<(usize, usize)>, bool)
    decreases k,
{
    if k == 0 {
        st
    } else {
        expand_node(apps, map, reverse, cap, expanded_upto(apps, map, reverse, cap, st, (k - 1) as nat), k - 1)
    }
}

/// The selected package alone.
pub open spec fn bfs_start(apps: Seq<AppItem>, root: usize) -> (Seq<(Seq<char>, Option<usize>, bool, bool)>, Seq<(usize, usize)>, bool) {
    (seq![(apps[root as int].name@, Some(root), explicit_package(apps, Some(root)), false)], Seq::empty(), false)
}

/// The breadth-first expansion from the selected package: nodes in the
/// order they are found, edges in the order they are drawn, and whether some
/// successor was left out at the limit.
pub open spec fn bfs_result(apps: Seq<AppItem>, map: Seq<(String, String)>, reverse: bool, root: usize, cap: int) -> (Seq<(Seq<char>, Option<usize>, bool, bool)>, Seq<(usize, usize)>, bool) {
    expanded_upto(apps, map, reverse, cap, bfs_start(apps, root), cap as nat)
}

proof fn lemma_view_named_first(nv: Seq<(Seq<char>, Option<usize>, bool, bool)>, x: Seq<char>, t: int)
    requires
        first_view_named(nv, x, t),
    ensures
        view_named(nv, x) == Some(t),
{
    let c = choose|c: int| first_view_named(nv, x, c);
    assert(first_view_named(nv, x, c));
    if c < t {
        assert(nv[c].0 != x);
    }
    if t < c {
        assert(nv[t].0 != x);
    }
}

proof fn lemma_view_named_none(nv: Seq<(Seq<char>, Option<usize>, bool, bool)>, x: Seq<char>)
    requires
        forall|t: int| 0 <= t < nv.len() ==> nv[t].0 != x,
    ensures
        view_named(nv, x) is None,
{
    if exists|t: int| first_view_named(nv, x, t) {
        let t = choose|t: int| first_view_named(nv, x, t);
        assert(nv[t].0 == x);
    }
}

/// Once every node found is expanded, expanding further changes nothing.
proof fn lemma_expansion_settles(
    apps: Seq<AppItem>,
    map: Seq<(String, String)>,
    reverse: bool,
    cap: int,
    st: (Seq<(Seq<char>, Option<usize>, bool, bool)>, Seq<(usize, usize)>, bool),
    k: nat,
    m: nat,
)
    requires
        k <= m,
        expanded_upto(apps, map, reverse, cap, st, k).0.len() <= k,
    ensures
        expanded_upto(apps, map, reverse, cap, st, m) == expanded_upto(apps, map, reverse, cap, st, k),
    decreases m - k,
{
    if k < m {
        lemma_expansion_settles(apps, map, reverse, cap, st, (k + 1) as nat, m);
        assert(expanded_upto(apps, map, reverse, cap, st, (k + 1) as nat) == expanded_upto(apps, map, reverse, cap, st, k));
    }
}

/// Breadth-first expansion from the selected package, resolving provided
/// names, visiting successor names in sorted order and stopping to add nodes
/// once the limit is reached.
fn expand(apps: &[AppItem], map: &Vec<(String, String)>, reverse: bool, root: usize, max_nodes: usize) -> (r: (Vec<DependencyGraphNode>, Vec<(usize, usize)>, bool))
    requires
        root < apps@.len(),
    ensures
        bfs_ok(apps@, map@, reverse, root, node_cap(max_nodes), r.0@, r.1@, r.2, r.0@.len() as int, r.0@.len() as int),
        node_views(r.0@) == bfs_result(apps@, map@, reverse, root, node_cap(max_nodes)).0,
        r.1@ == bfs_result(apps@, map@, reverse, root, node_cap(max_nodes)).1,
        r.2 == bfs_result(apps@, map@, reverse, root, node_cap(max_nodes)).2,
{
    let cap: usize = if max_nodes > 1 { max_nodes } else { 1 };
    let ghost a = apps@;
    let ghost m = map@;
    let mut nodes: Vec<DependencyGraphNode> = Vec::new();
    nodes.push(DependencyGraphNode {
        name: apps[root].name.clone(),
        package_index: Some(root),
        kind: DependencyGraphNodeKind::Package,
        dependency_level: 0,
        is_explicit: apps[root].install_role.is_explicit(),
        has_hidden_successors: false,
    });
    let mut edges: Vec<(usize, usize)> = Vec::new();
    let mut truncated = false;
    let mut head: usize = 0;
    let ghost start = bfs_start(a, root);
    proof {
        assert(node_ok(a, root, 0, nodes@[0]));
        assert(hidden_ok(a, m, reverse, cap as int, nodes@, 0));
        assert(node_views(nodes@) =~= start.0);
    }
    while head < nodes.len()
        invariant
            a == apps@,
            m == map@,
            root < a.len(),
            cap as int == node_cap(max_nodes),
            bfs_ok(a, m, reverse, root, cap as int, nodes@, edges@, truncated, head as int, head as int),
            node_views(nodes@) == expanded_upto(a, m, reverse, cap as int, start, head as nat).0,
            edges@ == expanded_upto(a, m, reverse, cap as int, start, head as nat).1,
            truncated == expanded_upto(a, m, reverse, cap as int, start, head as nat).2,
        decreases cap - head,
    {
        let ghost before_s = expanded_upto(a, m, reverse, cap as int, start, head as nat);
        let s = head;
        match nodes[s].package_index {
            None => {
                proof {
                    assert forall|x: Seq<char>| #[trigger] is_successor(a, m, reverse, nodes@[s as int].package_index, x) implies (
                        nodes@[s as int].has_hidden_successors || exists|t: int| 0 <= t < nodes@.len() && nodes@[t].name@ == x && #[trigger] has_edge(edges@, s as int, t)) by {}
                    assert(expanded(a, m, reverse, nodes@, edges@, s as int));
                }
            },
            Some(p) => {
                proof {
                    assert(node_ok(a, root, s as int, nodes@[s as int]));
                    if s > 0 {
                        let nm = nodes@[s as int].name@;
                        assert(exists|i: int| last_named(a, nm, i));
                        let i = choose|i: int| last_named(a, nm, i);
                        assert(last_named(a, nm, i));
                    }
                }
                let names = successor_names(apps, map, reverse, p);
                let ghost names_v = name_views(names@);
                proof {
                    assert(strictly_sorted(names_v) && forall|x: Seq<char>| names_v.contains(x) <==> is_successor(a, m, reverse, Some(p), x));
                    let l = sorted_successors(a, m, reverse, p);
                    assert(strictly_sorted(l) && forall|x: Seq<char>| l.contains(x) <==> is_successor(a, m, reverse, Some(p), x));
                    lemma_strictly_sorted_unique(names_v, l);
                    assert(before_s.0[s as int].1 == Some(p));
                }
                let mut j: usize = 0;
                while j < names.len()
                    invariant
                        a == apps@,
                        m == map@,
                        root < a.len(),
                        cap as int == node_cap(max_nodes),
                        s < nodes@.len(),
                        nodes@[s as int].package_index == Some(p),
                        strictly_sorted(name_views(names@)),
                        forall|x: Seq<char>| name_views(names@).contains(x) <==> is_successor(a, m, reverse, Some(p), x),
                        j <= names@.len(),
                        bfs_ok(a, m, reverse, root, cap as int, nodes@, edges@, truncated, s as int, s + 1),
                        forall|e: int| 0 <= e < edges@.len() && #[trigger] edges@[e].0 == s ==> name_views(names@).subrange(0, j as int).contains(nodes@[edges@[e].1 as int].name@),
                        forall|k: int| 0 <= k < j ==> (nodes@[s as int].has_hidden_successors || exists|t: int| 0 <= t < nodes@.len() && nodes@[t].name@ == #[trigger] name_views(names@)[k] && has_edge(edges@, s as int, t)),
                        nodes@[s as int].has_hidden_successors ==> nodes@.len() == cap && exists|k: int| 0 <= k < j && !has_node_named(nodes@, #[trigger] name_views(names@)[k]),
                        names_v == name_views(names@),
                        names_v == sorted_successors(a, m, reverse, p),
                        node_views(nodes@) == visit_all(a, cap as int, before_s, s as int, names_v, j as int).0,
                        edges@ == visit_all(a, cap as int, before_s, s as int, names_v, j as int).1,
                        truncated == visit_all(a, cap as int, before_s, s as int, names_v, j as int).2,
                    decreases names@.len() - j,
                {
                    let ghost xv = names@[j as int]@;
                    let ghost old_nodes = nodes@;
                    let ghost old_edges = edges@;
                    let ghost pre = name_views(names@).subrange(0, j as int);
                    let ghost prev = visit_all(a, cap as int, before_s, s as int, names_v, j as int);
                    proof {
                        assert(names_v[j as int] == xv);
                        assert(name_views(names@)[j as int] == xv);
                        assert(name_views(names@).contains(xv));
                        assert(is_successor(a, m, reverse, Some(p), xv));
                        assert forall|k: int| 0 <= k < j implies #[trigger] name_views(names@)[k] != xv by {
                            assert(chars_lt(name_views(names@)[k], name_views(names@)[j as int]));
                            lemma_chars_lt_irrefl(xv);
                        }
                        assert(!pre.contains(xv));
                        assert(name_views(names@).subrange(0, j + 1) =~= pre.push(xv));
                    }
                    match node_named(&nodes, &names[j]) {
                        Some(t) => {
                            proof {
                                assert forall|u: int| 0 <= u < t implies node_views(nodes@)[u].0 != xv by {
                                    assert(nodes@[u].name@ != xv);
                                }
                                lemma_view_named_first(node_views(nodes@), xv, t as int);
                            }
                            edges.push((s, t));
                            proof {
                                let ne = edges@;
                                assert(ne[ne.len() - 1] == (s, t));
                                assert(has_edge(ne, s as int, t as int));
                                assert forall|u: int, v: int| has_edge(old_edges, u, v) implies has_edge(ne, u, v) by {
                                    let e = choose|e: int| 0 <= e < old_edges.len() && old_edges[e].0 == u && old_edges[e].1 == v;
                                    assert(ne[e] == old_edges[e]);
                                }
                                assert forall|e: int, f: int| 0 <= e < f < ne.len() implies ne[e] != ne[f] by {
                                    if f == ne.len() - 1 && ne[e].0 == s {
                                        assert(old_edges[e].0 == s);
                                        assert(pre.contains(nodes@[old_edges[e].1 as int].name@));
                                    }
                                }
                                assert forall|sp: int| 0 <= sp < s implies #[trigger] expanded(a, m, reverse, nodes@, ne, sp) by {
                                    assert(expanded(a, m, reverse, nodes@, old_edges, sp));
                                    assert forall|x: Seq<char>| #[trigger] is_successor(a, m, reverse, nodes@[sp].package_index, x) implies (
                                        nodes@[sp].has_hidden_successors || exists|tt: int| 0 <= tt < nodes@.len() && nodes@[tt].name@ == x && #[trigger] has_edge(ne, sp, tt)) by {
                                        if !nodes@[sp].has_hidden_successors {
                                            let tt = choose|tt: int| 0 <= tt < nodes@.len() && nodes@[tt].name@ == x && #[trigger] has_edge(old_edges, sp, tt);
                                            assert(has_edge(ne, sp, tt));
                                        }
                                    }
                                }
                                assert forall|k: int| 0 < k < nodes@.len() implies #[trigger] discovered(ne, k) by {
                                    assert(discovered(old_edges, k));
                                    let sp = choose|sp: int| 0 <= sp < k && #[trigger] has_edge(old_edges, sp, k);
                                    assert(has_edge(ne, sp, k));
                                }
                                assert forall|k: int| 0 <= k < j + 1 implies (nodes@[s as int].has_hidden_successors || exists|tt: int| 0 <= tt < nodes@.len() && nodes@[tt].name@ == #[trigger] name_views(names@)[k] && has_edge(ne, s as int, tt)) by {
                                    if k < j && !nodes@[s as int].has_hidden_successors {
                                        let tt = choose|tt: int| 0 <= tt < nodes@.len() && nodes@[tt].name@ == #[trigger] name_views(names@)[k] && has_edge(old_edges, s as int, tt);
                                        assert(has_edge(ne, s as int, tt));
                                    }
                                }
                                assert forall|e: int| 0 <= e < ne.len() && #[trigger] ne[e].0 == s implies name_views(names@).subrange(0, j + 1).contains(nodes@[ne[e].1 as int].name@) by {
                                    if e < ne.len() - 1 {
                                        assert(old_edges[e].0 == s);
                                        let k = choose|k: int| 0 <= k < pre.len() && pre[k] == nodes@[old_edges[e].1 as int].name@;
                                        assert(pre.push(xv)[k] == pre[k]);
                                    } else {
                                        assert(pre.push(xv)[j as int] == xv);
                                    }
                                }
                                assert(truncated == exists|sp: int| 0 <= sp < nodes@.len() && #[trigger] nodes@[sp].has_hidden_successors);
                            }
                        },
                        None => {
                            proof {
                                assert forall|u: int| 0 <= u < node_views(nodes@).len() implies node_views(nodes@)[u].0 != xv by {
                                    assert(nodes@[u].name@ != xv);
                                }
                                lemma_view_named_none(node_views(nodes@), xv);
                            }
                            if nodes.len() >= cap {
                                nodes[s].has_hidden_successors = true;
                                truncated = true;
                                proof {
                                    let nn = nodes@;
                                    assert(nn =~= old_nodes.update(s as int, nn[s as int]));
                                    let ov = node_views(old_nodes);
                                    assert(node_views(nn) =~= ov.update(s as int, (ov[s as int].0, ov[s as int].1, ov[s as int].2, true)));
                                    assert forall|k: int| 0 <= k < nn.len() implies #[trigger] nn[k].name@ == old_nodes[k].name@ && nn[k].package_index == old_nodes[k].package_index && (k != s ==> nn[k] == old_nodes[k]) by {}
                                    assert forall|k: int| 0 <= k < nn.len() implies #[trigger] node_ok(a, root, k, nn[k]) by {
                                        assert(node_ok(a, root, k, old_nodes[k]));
                                    }
                                    assert(!has_node_named(nn, xv)) by {
                                        if has_node_named(nn, xv) {
                                            let t = choose|t: int| 0 <= t < nn.len() && #[trigger] nn[t].name@ == xv;
                                            assert(old_nodes[t].name@ == xv);
                                        }
                                    }
                                    assert(name_views(names@)[j as int] == xv);
                                    assert forall|sp: int| 0 <= sp < nn.len() implies #[trigger] hidden_ok(a, m, reverse, cap as int, nn, sp) by {
                                        if sp == s {
                                            assert(is_successor(a, m, reverse, nn[sp].package_index, xv));
                                        } else if nn[sp].has_hidden_successors {
                                            assert(hidden_ok(a, m, reverse, cap as int, old_nodes, sp));
                                            let x = choose|x: Seq<char>| #[trigger] is_successor(a, m, reverse, old_nodes[sp].package_index, x) && !has_node_named(old_nodes, x);
                                            if has_node_named(nn, x) {
                                                let t = choose|t: int| 0 <= t < nn.len() && #[trigger] nn[t].name@ == x;
                                                assert(old_nodes[t].name@ == x);
                                            }
                                        }
                                    }
                                    assert forall|sp: int| 0 <= sp < s implies #[trigger] expanded(a, m, reverse, nn, edges@, sp) by {
                                        assert(expanded(a, m, reverse, old_nodes, edges@, sp));
                                        assert forall|x: Seq<char>| #[trigger] is_successor(a, m, reverse, nn[sp].package_index, x) implies (
                                            nn[sp].has_hidden_successors || exists|tt: int| 0 <= tt < nn.len() && nn[tt].name@ == x && #[trigger] has_edge(edges@, sp, tt)) by {
                                            if !nn[sp].has_hidden_successors {
                                                let tt = choose|tt: int| 0 <= tt < old_nodes.len() && old_nodes[tt].name@ == x && #[trigger] has_edge(edges@, sp, tt);
                                                assert(nn[tt].name@ == x);
                                            }
                                        }
                                    }
                                    assert(nn[s as int].has_hidden_successors);
                                    assert forall|e: int| 0 <= e < edges@.len() && #[trigger] edges@[e].0 == s implies name_views(names@).subrange(0, j + 1).contains(nn[edges@[e].1 as int].name@) by {
                                        let k = choose|k: int| 0 <= k < pre.len() && pre[k] == old_nodes[edges@[e].1 as int].name@;
                                        assert(pre.push(xv)[k] == pre[k]);
                                    }
                                    assert forall|e: int| 0 <= e < edges@.len() implies #[trigger] edges@[e].0 < s + 1 && edges@[e].1 < nn.len() && is_successor(a, m, reverse, nn[edges@[e].0 as int].package_index, nn[edges@[e].1 as int].name@) by {}
                                    assert forall|i: int, k: int| 0 <= i < k < nn.len() implies nn[i].name@ != nn[k].name@ by {
                                        assert(old_nodes[i].name@ != old_nodes[k].name@);
                                    }
                                }
                            } else {
                                let pkg = package_index_named(apps, &names[j]);
                                let is_explicit = match pkg {
                                    Some(i) => apps[i].install_role.is_explicit(),
                                    None => false,
                                };
                                let t = nodes.len();
                                nodes.push(DependencyGraphNode {
                                    name: names[j].clone(),
                                    package_index: pkg,
                                    kind: DependencyGraphNodeKind::Package,
                                    dependency_level: 0,
                                    is_explicit,
                                    has_hidden_successors: false,
                                });
                                edges.push((s, t));
                                proof {
                                    let nn = nodes@;
                                    let ne = edges@;
                                    assert(nn[t as int].name@ == xv);
                                    assert(node_views(nn) =~= node_views(old_nodes).push((xv, pkg, is_explicit, false)));
                                    assert(ne[ne.len() - 1] == (s, t));
                                    assert(has_edge(ne, s as int, t as int));
                                    assert forall|k: int| 0 <= k < old_nodes.len() implies #[trigger] nn[k] == old_nodes[k] by {}
                                    assert(node_ok(a, root, t as int, nn[t as int]));
                                    assert forall|k: int| 0 <= k < nn.len() implies #[trigger] node_ok(a, root, k, nn[k]) by {
                                        if k < t {
                                            assert(node_ok(a, root, k, old_nodes[k]));
                                        }
                                    }
                                    assert forall|u: int, v: int| has_edge(old_edges, u, v) implies has_edge(ne, u, v) by {
                                        let e = choose|e: int| 0 <= e < old_edges.len() && old_edges[e].0 == u && old_edges[e].1 == v;
                                        assert(ne[e] == old_edges[e]);
                                    }
                                    assert forall|i: int, k: int| 0 <= i < k < nn.len() implies nn[i].name@ != nn[k].name@ by {
                                        if k == t {
                                            assert(old_nodes[i].name@ != xv);
                                        } else {
                                            assert(old_nodes[i].name@ != old_nodes[k].name@);
                                        }
                                    }
                                    assert forall|e: int, f: int| 0 <= e < f < ne.len() implies ne[e] != ne[f] by {
                                        if f == ne.len() - 1 {
                                            assert(old_edges[e].0 < s + 1);
                                            assert(old_edges[e].1 < old_nodes.len());
                                        }
                                    }
                                    assert forall|sp: int| 0 <= sp < nn.len() implies !#[trigger] nn[sp].has_hidden_successors by {
                                        if sp < t {
                                            assert(hidden_ok(a, m, reverse, cap as int, old_nodes, sp));
                                        }
                                    }
                                    assert forall|sp: int| 0 <= sp < nn.len() implies #[trigger] hidden_ok(a, m, reverse, cap as int, nn, sp) by {}
                                    assert forall|sp: int| 0 <= sp < s implies #[trigger] expanded(a, m, reverse, nn, ne, sp) by {
                                        assert(expanded(a, m, reverse, old_nodes, old_edges, sp));
                                        assert forall|x: Seq<char>| #[trigger] is_successor(a, m, reverse, nn[sp].package_index, x) implies (
                                            nn[sp].has_hidden_successors || exists|tt: int| 0 <= tt < nn.len() && nn[tt].name@ == x && #[trigger] has_edge(ne, sp, tt)) by {
                                            assert(is_successor(a, m, reverse, old_nodes[sp].package_index, x));
                                            let tt = choose|tt: int| 0 <= tt < old_nodes.len() && old_nodes[tt].name@ == x && #[trigger] has_edge(old_edges, sp, tt);
                                            assert(has_edge(ne, sp, tt));
                                            assert(nn[tt].name@ == x);
                                        }
                                    }
                                    assert forall|k: int| 0 < k < nn.len() implies #[trigger] discovered(ne, k) by {
                                        if k < t {
                                            assert(discovered(old_edges, k));
                                            let sp = choose|sp: int| 0 <= sp < k && #[trigger] has_edge(old_edges, sp, k);
                                            assert(has_edge(ne, sp, k));
                                        } else {
                                            assert(has_edge(ne, s as int, k));
                                        }
                                    }
                                    assert forall|k: int| 0 <= k < j + 1 implies (nn[s as int].has_hidden_successors || exists|tt: int| 0 <= tt < nn.len() && nn[tt].name@ == #[trigger] name_views(names@)[k] && has_edge(ne, s as int, tt)) by {
                                        if k < j {
                                            assert(!old_nodes[s as int].has_hidden_successors);
                                            let tt = choose|tt: int| 0 <= tt < old_nodes.len() && old_nodes[tt].name@ == #[trigger] name_views(names@)[k] && has_edge(old_edges, s as int, tt);
                                            assert(has_edge(ne, s as int, tt));
                                            assert(nn[tt] == old_nodes[tt]);
                                        } else {
                                            assert(nn[t as int].name@ == name_views(names@)[k]);
                                        }
                                    }
                                    assert forall|e: int| 0 <= e < ne.len() && #[trigger] ne[e].0 == s implies name_views(names@).subrange(0, j + 1).contains(nn[ne[e].1 as int].name@) by {
                                        if e < ne.len() - 1 {
                                            assert(old_edges[e].0 == s);
                                            let k = choose|k: int| 0 <= k < pre.len() && pre[k] == old_nodes[old_edges[e].1 as int].name@;
                                            assert(pre.push(xv)[k] == pre[k]);
                                            assert(nn[ne[e].1 as int] == old_nodes[old_edges[e].1 as int]);
                                        } else {
                                            assert(pre.push(xv)[j as int] == xv);
                                        }
                                    }
                                    assert forall|e: int| 0 <= e < ne.len() implies #[trigger] ne[e].0 < s + 1 && ne[e].1 < nn.len() && is_successor(a, m, reverse, nn[ne[e].0 as int].package_index, nn[ne[e].1 as int].name@) by {
                                        if e < ne.len() - 1 {
                                            assert(nn[ne[e].0 as int] == old_nodes[old_edges[e].0 as int]);
                                            assert(nn[ne[e].1 as int] == old_nodes[old_edges[e].1 as int]);
                                        }
                                    }
                                    assert(!truncated) by {
                                        if truncated {
                                            let sp = choose|sp: int| 0 <= sp < old_nodes.len() && #[trigger] old_nodes[sp].has_hidden_successors;
                                            assert(hidden_ok(a, m, reverse, cap as int, old_nodes, sp));
                                        }
                                    }
                                }
                            }
                        },
                    }
                    j += 1;
                }
                proof {
                    assert(name_views(names@).subrange(0, names@.len() as int) =~= name_views(names@));
                    assert(expanded_upto(a, m, reverse, cap as int, start, (head + 1) as nat) == expand_node(a, m, reverse, cap as int, before_s, head as int));
                    assert forall|x: Seq<char>| #[trigger] is_successor(a, m, reverse, nodes@[s as int].package_index, x) implies (
                        nodes@[s as int].has_hidden_successors || exists|t: int| 0 <= t < nodes@.len() && nodes@[t].name@ == x && #[trigger] has_edge(edges@, s as int, t)) by {
                        assert(name_views(names@).contains(x));
                        let k = choose|k: int| 0 <= k < name_views(names@).len() && name_views(names@)[k] == x;
                    }
                    assert(expanded(a, m, reverse, nodes@, edges@, s as int));
                    if nodes@[s as int].has_hidden_successors {
                        let k = choose|k: int| 0 <= k < names@.len() && !has_node_named(nodes@, #[trigger] name_views(names@)[k]);
                        assert(name_views(names@).contains(name_views(names@)[k]));
                        assert(is_successor(a, m, reverse, nodes@[s as int].package_index, name_views(names@)[k]));
                    }
                    assert(hidden_ok(a, m, reverse, cap as int, nodes@, s as int));
                }
            },
        }
        head += 1;
    }
    proof {
        lemma_expansion_settles(a, m, reverse, cap as int, start, head as nat, cap as nat);
    }
    (nodes, edges, truncated)
}

} // verus!

verus! {

/// Component members are listed explicit packages first, then by name, then
/// in node order.
pub open spec fn member_lt(nodes: Seq<DependencyGraphNode>) -> spec_fn(usize, usize) -> bool {
    |a: usize, b: usize| {
        ||| nodes[a as int].is_explicit && !nodes[b as int].is_explicit
        ||| nodes[a as int].is_explicit == nodes[b as int].is_explicit && (chars_lt(nodes[a as int].name@, nodes[b as int].name@) || (
        nodes[a as int].name@ == nodes[b as int].name@ && a < b))
    }
}

pub proof fn lemma_member_lt_order(nodes: Seq<DependencyGraphNode>, s: Seq<usize>)
    ensures
        strict_total_on(s, member_lt(nodes)),
{
    let lt = member_lt(nodes);
    assert forall|x: usize| s.contains(x) implies !#[trigger] lt(x, x) by {
        lemma_chars_lt_irrefl(nodes[x as int].name@);
    }
    assert forall|x: usize, y: usize, z: usize| s.contains(x) && s.contains(y) && s.contains(z) && #[trigger] lt(x, y) && #[trigger] lt(y, z) implies lt(x, z) by {
        let nx = nodes[x as int].name@;
        let ny = nodes[y as int].name@;
        let nz = nodes[z as int].name@;
        if chars_lt(nx, ny) && chars_lt(ny, nz) {
            lemma_chars_lt_trans(nx, ny, nz);
        }
    }
    assert forall|x: usize, y: usize| s.contains(x) && s.contains(y) && x != y implies #[trigger] lt(x, y) || #[trigger] lt(y, x) by {
        lemma_chars_lt_total(nodes[x as int].name@, nodes[y as int].name@);
    }
}

/// The levels before tool nodes pushed the packages one column further.
pub open spec fn base_levels(nodes: Seq<DependencyGraphNode>, shifted: bool) -> Seq<usize> {
    Seq::new(
        nodes.len(),
        |i: int|
            if shifted && i != 0 && nodes[i].kind == DependencyGraphNodeKind::Package {
                (nodes[i].dependency_level - 1) as usize
            } else {
                nodes[i].dependency_level
            },
    )
}

impl DependencyGraph {
    /// Some tool node exists: the packages other than the root were pushed one
    /// level down to make room for the tools.
    pub open spec fn has_tools(&self) -> bool {
        exists|i: int| 0 <= i < self.nodes@.len() && #[trigger] self.nodes@[i].kind != DependencyGraphNodeKind::Package
    }

    pub open spec fn comp(&self) -> Seq<usize> {
        self.component_by_node@
    }

    pub open spec fn members(&self, c: int) -> Seq<usize> {
        self.components@[c]@
    }

    pub open spec fn component_count(&self) -> int {
        self.components@.len() as int
    }

    /// The graph's invariant: edges within the nodes; components are exactly
    /// the classes of mutual reachability, each listed in member order; levels
    /// are longest-path levels over components (packages shifted one level
    /// when tools are present).
    pub open spec fn well_formed(&self) -> bool {
        let n = self.nodes@.len() as int;
        &&& n >= 1
        &&& edges_within(self.edges@, n)
        &&& components_ok(self.edges@, n, self.comp(), self.component_count())
        &&& forall|c: int, k: int| 0 <= c < self.component_count() && 0 <= k < self.members(c).len() ==> #[trigger] self.members(c)[k] < n && self.comp()[self.members(c)[k] as int] == c
        &&& forall|v: int| 0 <= v < n ==> #[trigger] self.members(self.comp()[v] as int).contains(v as usize)
        &&& forall|c: int| 0 <= c < self.component_count() ==> sorted_by(#[trigger] self.members(c), member_lt(self.nodes@))
        &&& levels_ok(self.edges@, n, self.comp(), base_levels(self.nodes@, self.has_tools()))
        &&& forall|v: int| 0 <= v < n ==> #[trigger] self.nodes@[v].dependency_level <= n
        &&& forall|v: int| 0 < v < n && self.has_tools() && #[trigger] self.nodes@[v].kind == DependencyGraphNodeKind::Package
            ==> self.nodes@[v].dependency_level >= 1
    }
}

/// Node fields other than the level are those of `orig`.
pub open spec fn same_nodes(a: Seq<DependencyGraphNode>, orig: Seq<DependencyGraphNode>) -> bool {
    &&& a.len() == orig.len()
    &&& forall|k: int| 0 <= k < orig.len() ==> #[trigger] a[k].name@ == orig[k].name@
        && a[k].package_index == orig[k].package_index
        && a[k].kind == orig[k].kind
        && a[k].is_explicit == orig[k].is_explicit
        && a[k].has_hidden_successors == orig[k].has_hidden_successors
}

/// Sets each node's level from `level`, one more for packages other than the
/// root when `shifted`.
fn set_levels(nodes: &mut Vec<DependencyGraphNode>, level: &Vec<usize>, shifted: bool)
    requires
        level@.len() == old(nodes)@.len(),
        forall|v: int| 0 <= v < level@.len() ==> #[trigger] level@[v] < level@.len(),
    ensures
        same_nodes(final(nodes)@, old(nodes)@),
        base_levels(final(nodes)@, shifted) =~= level@,
        forall|v: int| 0 <= v < level@.len() ==> #[trigger] final(nodes)@[v].dependency_level <= level@.len(),
        forall|v: int| 0 < v < level@.len() && shifted && #[trigger] final(nodes)@[v].kind == DependencyGraphNodeKind::Package
            ==> final(nodes)@[v].dependency_level >= 1,
{
    let n = nodes.len();
    let ghost orig = nodes@;
    let mut i: usize = 0;
    while i < n
        invariant
            n == nodes@.len(),
            orig.len() == n,
            i <= n,
            level@.len() == n,
            forall|v: int| 0 <= v < n ==> #[trigger] level@[v] < n,
            same_nodes(nodes@, orig),
            forall|k: int| 0 <= k < i ==> #[trigger] nodes@[k].dependency_level == if shifted && k != 0 && orig[k].kind == DependencyGraphNodeKind::Package { level@[k] + 1 } else { level@[k] as int },
        decreases n - i,
    {
        let bump = shifted && i != 0 && nodes[i].kind == DependencyGraphNodeKind::Package;
        let lv = if bump { level[i] + 1 } else { level[i] };
        let ghost before = nodes@;
        nodes[i].dependency_level = lv;
        proof {
            assert(before[i as int].name@ == orig[i as int].name@);
            assert(nodes@ =~= before.update(i as int, nodes@[i as int]));
            assert(nodes@[i as int].dependency_level == lv);
            assert forall|k: int| 0 <= k < n implies #[trigger] nodes@[k].name@ == orig[k].name@
                && nodes@[k].package_index == orig[k].package_index
                && nodes@[k].kind == orig[k].kind
                && nodes@[k].is_explicit == orig[k].is_explicit
                && nodes@[k].has_hidden_successors == orig[k].has_hidden_successors by {
                assert(before[k].name@ == orig[k].name@);
            }
            assert forall|k: int| 0 <= k < i + 1 implies #[trigger] nodes@[k].dependency_level == if shifted && k != 0 && orig[k].kind == DependencyGraphNodeKind::Package { level@[k] + 1 } else { level@[k] as int } by {
                if k < i {
                    assert(before[k].dependency_level == nodes@[k].dependency_level);
                }
            }
        }
        i += 1;
    }
    proof {
        assert forall|k: int| 0 <= k < n implies #[trigger] base_levels(nodes@, shifted)[k] == level@[k] by {
            assert(nodes@[k].name@ == orig[k].name@);
        }
        assert forall|k: int| 0 <= k < n implies #[trigger] nodes@[k].dependency_level <= n by {
            assert(nodes@[k].name@ == orig[k].name@);
        }
        assert forall|k: int| 0 < k < n && shifted && #[trigger] nodes@[k].kind == DependencyGraphNodeKind::Package implies nodes@[k].dependency_level >= 1 by {
            assert(nodes@[k].name@ == orig[k].name@);
        }
    }
}

/// The members of each component, each list in member order.
fn component_lists(nodes: &Vec<DependencyGraphNode>, comp: &Vec<usize>, count: usize) -> (components: Vec<Vec<usize>>)
    requires
        comp@.len() == nodes@.len(),
        forall|v: int| 0 <= v < comp@.len() ==> #[trigger] comp@[v] < count,
    ensures
        components@.len() == count,
        forall|d: int, k: int| 0 <= d < count && 0 <= k < components@[d]@.len() ==> #[trigger] components@[d]@[k] < nodes@.len() && comp@[components@[d]@[k] as int] == d,
        forall|v: int| 0 <= v < nodes@.len() ==> #[trigger] components@[comp@[v] as int]@.contains(v as usize),
        forall|d: int| 0 <= d < count ==> sorted_by(#[trigger] components@[d]@, member_lt(nodes@)),
{
    let n = nodes.len();
    let mut components: Vec<Vec<usize>> = Vec::new();
    let mut c: usize = 0;
    while c < count
        invariant
            n == nodes@.len(),
            n == comp@.len(),
            forall|v: int| 0 <= v < n ==> #[trigger] comp@[v] < count,
            c <= count,
            components@.len() == c,
            forall|d: int, k: int| 0 <= d < c && 0 <= k < components@[d]@.len() ==> #[trigger] components@[d]@[k] < n && comp@[components@[d]@[k] as int] == d,
            forall|v: int| 0 <= v < n && comp@[v] < c ==> #[trigger] components@[comp@[v] as int]@.contains(v as usize),
            forall|d: int| 0 <= d < c ==> sorted_by(#[trigger] components@[d]@, member_lt(nodes@)),
        decreases count - c,
    {
        let mut members: Vec<usize> = Vec::new();
        let mut v: usize = 0;
        while v < n
            invariant
                v <= n,
                n == comp@.len(),
                members@.no_duplicates(),
                forall|k: int| 0 <= k < members@.len() ==> #[trigger] members@[k] < v && comp@[members@[k] as int] == c,
                forall|w: int| 0 <= w < v && comp@[w] == c ==> #[trigger] members@.contains(w as usize),
            decreases n - v,
        {
            if comp[v] == c {
                let ghost old_m = members@;
                members.push(v);
                proof {
                    assert(members@[members@.len() - 1] == v);
                    assert forall|w: int| 0 <= w < v + 1 && comp@[w] == c implies #[trigger] members@.contains(w as usize) by {
                        if w < v {
                            assert(old_m.contains(w as usize));
                            let k = choose|k: int| 0 <= k < old_m.len() && old_m[k] == w as usize;
                            assert(members@[k] == old_m[k]);
                        }
                    }
                }
            }
            v += 1;
        }
        proof {
            lemma_member_lt_order(nodes@, members@);
        }
        let less = |x: usize, y: usize| -> (r: bool)
            requires
                x < nodes@.len(),
                y < nodes@.len(),
            ensures
                r == member_lt(nodes@)(x, y),
        {
            let nx = &nodes[x];
            let ny = &nodes[y];
            if nx.is_explicit != ny.is_explicit {
                nx.is_explicit
            } else if str_less(nx.name.as_str(), ny.name.as_str()) {
                true
            } else if nx.name == ny.name {
                x < y
            } else {
                false
            }
        };
        let sorted = sort_indices(&members, &less, Ghost(member_lt(nodes@)));
        components.push(sorted);
        proof {
            let d = c as int;
            assert(components@[d]@ == sorted@);
            assert forall|w: int| 0 <= w < n && comp@[w] < c + 1 implies #[trigger] components@[comp@[w] as int]@.contains(w as usize) by {
                if comp@[w] == c {
                    assert(members@.contains(w as usize));
                }
            }
            assert forall|dd: int, k: int| 0 <= dd < c + 1 && 0 <= k < components@[dd]@.len() implies #[trigger] components@[dd]@[k] < n && comp@[components@[dd]@[k] as int] == dd by {
                if dd == c {
                    assert(sorted@.contains(sorted@[k]));
                    assert(members@.contains(sorted@[k]));
                }
            }
        }
        c += 1;
    }
    components
}

/// Components, levels and member lists for the given nodes and edges; package
/// levels other than the root's move down by one when `shifted`.
fn finish(nodes: Vec<DependencyGraphNode>, edges: Vec<(usize, usize)>, truncated: bool, shifted: bool) -> (g: DependencyGraph)
    requires
        nodes@.len() >= 1,
        edges_within(edges@, nodes@.len() as int),
        shifted == exists|i: int| 0 <= i < nodes@.len() && #[trigger] nodes@[i].kind != DependencyGraphNodeKind::Package,
    ensures
        g.well_formed(),
        g.edges@ == edges@,
        g.truncated == truncated,
        same_nodes(g.nodes@, nodes@),
{
    let n = nodes.len();
    let (comp, count, level) = condense(&edges, n);
    let ghost orig = nodes@;
    let mut nodes = nodes;
    set_levels(&mut nodes, &level, shifted);
    let components = component_lists(&nodes, &comp, count);
    let g = DependencyGraph { nodes, edges, truncated, component_by_node: comp, components };
    proof {
        assert(g.has_tools() == shifted) by {
            if shifted {
                let i = choose|i: int| 0 <= i < orig.len() && #[trigger] orig[i].kind != DependencyGraphNodeKind::Package;
                assert(g.nodes@[i].name@ == orig[i].name@);
            }
            if g.has_tools() {
                let i = choose|i: int| 0 <= i < g.nodes@.len() && #[trigger] g.nodes@[i].kind != DependencyGraphNodeKind::Package;
                assert(g.nodes@[i].name@ == orig[i].name@);
            }
        }
    }
    g
}

} // verus!

verus! {

/// Whether `nodes` and `edges` are what the breadth-first expansion from the
/// selected package produces: exactly `bfs_result`, which has the properties
/// of `bfs_ok` with every node expanded.
pub open spec fn packages_ok(
    apps: Seq<AppItem>,
    map: Seq<(String, String)>,
    reverse: bool,
    root: usize,
    max_nodes: usize,
    nodes: Seq<DependencyGraphNode>,
    edges: Seq<(usize, usize)>,
    truncated: bool,
) -> bool {
    &&& bfs_ok(apps, map, reverse, root, node_cap(max_nodes), nodes, edges, truncated, nodes.len() as int, nodes.len() as int)
    &&& node_views(nodes) == bfs_result(apps, map, reverse, root, node_cap(max_nodes)).0
    &&& edges == bfs_result(apps, map, reverse, root, node_cap(max_nodes)).1
    &&& truncated == bfs_result(apps, map, reverse, root, node_cap(max_nodes)).2
}

proof fn lemma_packages_same_nodes(
    apps: Seq<AppItem>,
    map: Seq<(String, String)>,
    reverse: bool,
    root: usize,
    max_nodes: usize,
    a: Seq<DependencyGraphNode>,
    b: Seq<DependencyGraphNode>,
    edges: Seq<(usize, usize)>,
    truncated: bool,
)
    requires
        same_nodes(a, b),
        packages_ok(apps, map, reverse, root, max_nodes, b, edges, truncated),
    ensures
        packages_ok(apps, map, reverse, root, max_nodes, a, edges, truncated),
{
    let n = b.len() as int;
    let cap = node_cap(max_nodes);
    assert(node_views(a) =~= node_views(b)) by {
        assert forall|k: int| 0 <= k < n implies #[trigger] node_views(a)[k] == node_views(b)[k] by {
            assert(a[k].name@ == b[k].name@);
        }
    }
    assert forall|k: int| 0 <= k < n implies #[trigger] node_ok(apps, root, k, a[k]) by {
        assert(a[k].name@ == b[k].name@);
        assert(node_ok(apps, root, k, b[k]));
    }
    assert forall|i: int, j: int| 0 <= i < j < n implies a[i].name@ != a[j].name@ by {
        assert(a[i].name@ == b[i].name@);
        assert(a[j].name@ == b[j].name@);
    }
    assert forall|x: Seq<char>| has_node_named(a, x) <==> has_node_named(b, x) by {
        if has_node_named(a, x) {
            let t = choose|t: int| 0 <= t < a.len() && #[trigger] a[t].name@ == x;
            assert(b[t].name@ == x);
        }
        if has_node_named(b, x) {
            let t = choose|t: int| 0 <= t < b.len() && #[trigger] b[t].name@ == x;
            assert(a[t].name@ == x);
        }
    }
    assert forall|e: int| 0 <= e < edges.len() implies #[trigger] edges[e].0 < n && edges[e].1 < a.len()
        && is_successor(apps, map, reverse, a[edges[e].0 as int].package_index, a[edges[e].1 as int].name@) by {
        assert(a[edges[e].0 as int].name@ == b[edges[e].0 as int].name@);
        assert(a[edges[e].1 as int].name@ == b[edges[e].1 as int].name@);
    }
    assert forall|s: int| 0 <= s < n implies #[trigger] expanded(apps, map, reverse, a, edges, s) by {
        assert(a[s].name@ == b[s].name@);
        assert(expanded(apps, map, reverse, b, edges, s));
        assert forall|x: Seq<char>| #[trigger] is_successor(apps, map, reverse, a[s].package_index, x) implies (
            a[s].has_hidden_successors || exists|t: int| 0 <= t < a.len() && a[t].name@ == x && #[trigger] has_edge(edges, s, t)) by {
            if !a[s].has_hidden_successors {
                let t = choose|t: int| 0 <= t < b.len() && b[t].name@ == x && #[trigger] has_edge(edges, s, t);
                assert(a[t].name@ == b[t].name@);
            }
        }
    }
    assert forall|s: int| 0 <= s < n implies #[trigger] hidden_ok(apps, map, reverse, cap, a, s) by {
        assert(a[s].name@ == b[s].name@);
        assert(hidden_ok(apps, map, reverse, cap, b, s));
    }
    assert(truncated == exists|s: int| 0 <= s < n && #[trigger] a[s].has_hidden_successors) by {
        if truncated {
            let s = choose|s: int| 0 <= s < n && #[trigger] b[s].has_hidden_successors;
            assert(a[s].name@ == b[s].name@);
        } else {
            assert forall|s: int| 0 <= s < n implies !#[trigger] a[s].has_hidden_successors by {
                assert(a[s].name@ == b[s].name@);
            }
        }
    }
}

/// The package graph around `apps[root]`, before any tool nodes.
fn build_dependency_graph(apps: &[AppItem], map: &Vec<(String, String)>, root: usize, max_nodes: usize, reverse: bool) -> (g: DependencyGraph)
    requires
        root < apps@.len(),
    ensures
        g.well_formed(),
        g.rooted(),
        g.tools_hang_from_root(),
        packages_ok(apps@, map@, reverse, root, max_nodes, g.nodes@, g.edges@, g.truncated),
{
    let (nodes, edges, truncated) = expand(apps, map, reverse, root, max_nodes);
    proof {
        let n = nodes@.len() as int;
        assert forall|e: int| 0 <= e < edges@.len() implies #[trigger] edges@[e].0 < n && edges@[e].1 < n by {}
        assert forall|i: int| 0 <= i < n implies #[trigger] nodes@[i].kind == DependencyGraphNodeKind::Package by {
            assert(node_ok(apps@, root, i, nodes@[i]));
        }
    }
    let ghost nv = nodes@;
    let ghost ev = edges@;
    let g = finish(nodes, edges, truncated, false);
    proof {
        lemma_packages_same_nodes(apps@, map@, reverse, root, max_nodes, g.nodes@, nv, ev, truncated);
        assert forall|v: int| 0 <= v < g.nodes@.len() implies #[trigger] reaches(g.edges@, 0, v) by {
            lemma_discovered_reached(g.edges@, g.nodes@.len() as int, v);
        }
        assert forall|e: int| 0 <= e < g.edges@.len() implies (#[trigger] g.edges@[e]).0 < g.nodes@.len()
            && g.nodes@[g.edges@[e].0 as int].kind == DependencyGraphNodeKind::Package
            && (g.nodes@[g.edges@[e].1 as int].kind != DependencyGraphNodeKind::Package ==> g.edges@[e].0 == 0) by {
            assert(node_ok(apps@, root, g.edges@[e].0 as int, g.nodes@[g.edges@[e].0 as int]));
            assert(node_ok(apps@, root, g.edges@[e].1 as int, g.nodes@[g.edges@[e].1 as int]));
        }
    }
    g
}

/// The graph of what depends on `apps[root_index]`: an edge leads from each
/// package to those that require it.
pub fn build_reverse_dependency_graph(apps: &[AppItem], root_index: usize, max_nodes: usize) -> (g: DependencyGraph)
    requires
        root_index < apps@.len(),
    ensures
        g.well_formed(),
        g.rooted(),
        g.tools_hang_from_root(),
        packages_ok(apps@, Seq::empty(), true, root_index, max_nodes, g.nodes@, g.edges@, g.truncated),
{
    let none: Vec<(String, String)> = Vec::new();
    build_dependency_graph(apps, &none, root_index, max_nodes, true)
}

} // verus!

verus! {

/// Tool nodes come in the order of their executables' names (then positions).
pub open spec fn tool_lt(bins: Seq<crate::models::BinaryInfo>) -> spec_fn(usize, usize) -> bool {
    |a: usize, b: usize| chars_lt(bins[a as int].name@, bins[b as int].name@) || (bins[a as int].name@ == bins[b as int].name@ && a < b)
}

proof fn lemma_tool_lt_order(bins: Seq<crate::models::BinaryInfo>, s: Seq<usize>)
    ensures
        strict_total_on(s, tool_lt(bins)),
{
    let lt = tool_lt(bins);
    assert forall|x: usize| s.contains(x) implies !#[trigger] lt(x, x) by {
        lemma_chars_lt_irrefl(bins[x as int].name@);
    }
    assert forall|x: usize, y: usize, z: usize| s.contains(x) && s.contains(y) && s.contains(z) && #[trigger] lt(x, y) && #[trigger] lt(y, z) implies lt(x, z) by {
        let nx = bins[x as int].name@;
        let ny = bins[y as int].name@;
        let nz = bins[z as int].name@;
        if chars_lt(nx, ny) && chars_lt(ny, nz) {
            lemma_chars_lt_trans(nx, ny, nz);
        }
    }
    assert forall|x: usize, y: usize| s.contains(x) && s.contains(y) && x != y implies #[trigger] lt(x, y) || #[trigger] lt(y, x) by {
        lemma_chars_lt_total(bins[x as int].name@, bins[y as int].name@);
    }
}

/// The executable a tool node stands for.
pub open spec fn tool_binary(node: DependencyGraphNode) -> usize {
    match node.kind {
        DependencyGraphNodeKind::ProvidedTool { binary_index, .. } => binary_index,
        DependencyGraphNodeKind::Package => 0,
    }
}

/// `node` stands for executable `b` of the package at `root`.
pub open spec fn tool_node_ok(apps: Seq<AppItem>, root: usize, node: DependencyGraphNode) -> bool {
    let bins = apps[root as int].binaries@;
    &&& node.kind == (DependencyGraphNodeKind::ProvidedTool { owner_package_index: root, binary_index: tool_binary(node) })
    &&& tool_binary(node) < bins.len()
    &&& node.name@ == bins[tool_binary(node) as int].name@
    &&& node.package_index is None
    &&& !node.is_explicit
    &&& !node.has_hidden_successors
}

/// After the `p` package nodes and `e` package edges come the selected
/// package's executables, one node each in name order, each reached by an
/// edge from the root; none when the package has no executables or is a
/// single tool named like itself.
pub open spec fn tools_ok(apps: Seq<AppItem>, root: usize, nodes: Seq<DependencyGraphNode>, edges: Seq<(usize, usize)>, p: int, e: int) -> bool {
    let app = apps[root as int];
    let bins = app.binaries@;
    if bins.len() == 0 || app.one_to_one() {
        nodes.len() == p && edges.len() == e
    } else {
        &&& nodes.len() == p + bins.len()
        &&& edges.len() == e + bins.len()
        &&& forall|k: int| 0 <= k < bins.len() ==> #[trigger] edges[e + k].0 == 0 && edges[e + k].1 == p + k
        &&& forall|k: int| 0 <= k < bins.len() ==> #[trigger] tool_node_ok(apps, root, nodes[p + k])
        &&& forall|k: int, l: int| 0 <= k < l < bins.len() ==> #[trigger] tool_lt(bins)(tool_binary(nodes[p + k]), tool_binary(nodes[p + l]))
    }
}

/// Adds one node for each executable of the selected package, in name order,
/// below the root, and recomputes components and levels with the packages
/// moved one level down.
fn add_provided_tools(graph: DependencyGraph, apps: &[AppItem], root_index: usize) -> (g: DependencyGraph)
    requires
        root_index < apps@.len(),
        graph.well_formed(),
        forall|i: int| 0 <= i < graph.nodes@.len() ==> #[trigger] graph.nodes@[i].kind == DependencyGraphNodeKind::Package,
    ensures
        g.well_formed(),
        g.truncated == graph.truncated,
        g.nodes@.len() >= graph.nodes@.len(),
        g.edges@.len() >= graph.edges@.len(),
        same_nodes(g.nodes@.take(graph.nodes@.len() as int), graph.nodes@),
        g.edges@.take(graph.edges@.len() as int) == graph.edges@,
        tools_ok(apps@, root_index, g.nodes@, g.edges@, graph.nodes@.len() as int, graph.edges@.len() as int),
{
    let app = &apps[root_index];
    if app.binaries.len() == 0 || app.is_one_to_one_standalone_tool() {
        proof {
            assert(graph.nodes@.take(graph.nodes@.len() as int) =~= graph.nodes@);
            assert(graph.edges@.take(graph.edges@.len() as int) =~= graph.edges@);
            assert forall|k: int| 0 <= k < graph.nodes@.len() implies #[trigger] graph.nodes@[k].name@ == graph.nodes@[k].name@ by {}
        }
        return graph;
    }
    let ghost bins = app.binaries@;
    let mut order: Vec<usize> = Vec::new();
    let mut b: usize = 0;
    while b < app.binaries.len()
        invariant
            bins == app.binaries@,
            b <= bins.len(),
            order@.len() == b,
            forall|k: int| 0 <= k < b ==> #[trigger] order@[k] == k,
        decreases bins.len() - b,
    {
        order.push(b);
        b += 1;
    }
    proof {
        assert forall|k: int, l: int| 0 <= k < l < order@.len() implies order@[k] != order@[l] by {}
        lemma_tool_lt_order(bins, order@);
        assert forall|x: usize| order@.contains(x) implies x < bins.len() by {}
    }
    let less = |x: usize, y: usize| -> (r: bool)
        requires
            x < app.binaries@.len(),
            y < app.binaries@.len(),
        ensures
            r == tool_lt(app.binaries@)(x, y),
    {
        let nx = &app.binaries[x].name;
        let ny = &app.binaries[y].name;
        if str_less(nx.as_str(), ny.as_str()) {
            true
        } else if *nx == *ny {
            x < y
        } else {
            false
        }
    };
    let sorted = sort_indices(&order, &less, Ghost(tool_lt(bins)));
    let DependencyGraph { nodes, edges, truncated, component_by_node: _, components: _ } = graph;
    let ghost nv = nodes@;
    let ghost ev = edges@;
    let p = nodes.len();
    let mut nodes = nodes;
    let mut edges = edges;
    let mut k: usize = 0;
    while k < sorted.len()
        invariant
            bins == app.binaries@,
            root_index < apps@.len(),
            app == apps@[root_index as int],
            sorted@.len() == bins.len(),
            forall|x: usize| sorted@.contains(x) <==> order@.contains(x),
            forall|x: usize| order@.contains(x) ==> x < bins.len(),
            sorted_by(sorted@, tool_lt(bins)),
            p == nv.len(),
            k <= sorted@.len(),
            nodes@.len() == p + k,
            edges@.len() == ev.len() + k,
            nodes@.take(p as int) == nv,
            edges@.take(ev.len() as int) == ev,
            edges_within(ev, p as int),
            forall|j: int| 0 <= j < k ==> #[trigger] edges@[ev.len() + j].0 == 0 && edges@[ev.len() + j].1 == p + j,
            forall|j: int| 0 <= j < k ==> #[trigger] tool_node_ok(apps@, root_index, nodes@[p + j]),
            forall|j: int| 0 <= j < k ==> tool_binary(#[trigger] nodes@[p + j]) == sorted@[j],
        decreases sorted@.len() - k,
    {
        let bi = sorted[k];
        proof {
            assert(sorted@.contains(bi));
        }
        let t = nodes.len();
        let ghost before_n = nodes@;
        let ghost before_e = edges@;
        nodes.push(DependencyGraphNode {
            name: app.binaries[bi].name.clone(),
            package_index: None,
            kind: DependencyGraphNodeKind::ProvidedTool { owner_package_index: root_index, binary_index: bi },
            dependency_level: 0,
            is_explicit: false,
            has_hidden_successors: false,
        });
        edges.push((0, t));
        proof {
            assert(nodes@.take(p as int) =~= before_n.take(p as int));
            assert(edges@.take(ev.len() as int) =~= before_e.take(ev.len() as int));
            assert forall|j: int| 0 <= j < k + 1 implies #[trigger] edges@[ev.len() + j].0 == 0 && edges@[ev.len() + j].1 == p + j by {
                if j < k {
                    assert(before_e[ev.len() + j] == edges@[ev.len() + j]);
                }
            }
            assert forall|j: int| 0 <= j < k + 1 implies #[trigger] tool_node_ok(apps@, root_index, nodes@[p + j]) by {
                if j < k {
                    assert(before_n[p + j] == nodes@[p + j]);
                }
            }
            assert forall|j: int| 0 <= j < k + 1 implies tool_binary(#[trigger] nodes@[p + j]) == sorted@[j] by {
                if j < k {
                    assert(before_n[p + j] == nodes@[p + j]);
                }
            }
        }
        k += 1;
    }
    proof {
        let n = nodes@.len() as int;
        assert forall|e: int| 0 <= e < edges@.len() implies #[trigger] edges@[e].0 < n && edges@[e].1 < n by {
            if e < ev.len() {
                assert(edges@.take(ev.len() as int)[e] == edges@[e]);
            } else {
                let j = e - ev.len();
                assert(edges@[ev.len() + j].0 == 0 && edges@[ev.len() + j].1 == p + j);
            }
        }
        assert(sorted@.len() > 0);
        assert(tool_node_ok(apps@, root_index, nodes@[p + 0]));
        assert(nodes@[p as int].kind != DependencyGraphNodeKind::Package);
    }
    let ghost pre = nodes@;
    let g = finish(nodes, edges, truncated, true);
    proof {
        let bn = bins.len() as int;
        assert forall|j: int| 0 <= j < bn implies #[trigger] tool_node_ok(apps@, root_index, g.nodes@[p + j]) by {
            assert(g.nodes@[p + j].name@ == pre[p + j].name@);
            assert(tool_node_ok(apps@, root_index, pre[p + j]));
        }
        assert forall|j: int, l: int| 0 <= j < l < bn implies #[trigger] tool_lt(bins)(tool_binary(g.nodes@[p + j]), tool_binary(g.nodes@[p + l])) by {
            assert(g.nodes@[p + j].name@ == pre[p + j].name@);
            assert(g.nodes@[p + l].name@ == pre[p + l].name@);
            assert(tool_binary(pre[p + j]) == sorted@[j]);
            assert(tool_binary(pre[p + l]) == sorted@[l]);
        }
        assert forall|j: int| 0 <= j < p implies #[trigger] g.nodes@.take(p as int)[j].name@ == nv[j].name@
            && g.nodes@.take(p as int)[j].package_index == nv[j].package_index
            && g.nodes@.take(p as int)[j].kind == nv[j].kind
            && g.nodes@.take(p as int)[j].is_explicit == nv[j].is_explicit
            && g.nodes@.take(p as int)[j].has_hidden_successors == nv[j].has_hidden_successors by {
            assert(g.nodes@[j].name@ == pre[j].name@);
            assert(pre.take(p as int)[j] == pre[j]);
        }
    }
    g
}

/// The graph of what `apps[root_index]` depends on, with names resolved
/// through `provides_map` (provided name, providing package), and the
/// package's own executables as a first layer below it.
#[verifier::spinoff_prover]
pub fn build_forward_dependency_graph(apps: &[AppItem], provides_map: &Vec<(String, String)>, root_index: usize, max_nodes: usize) -> (g: DependencyGraph)
    requires
        root_index < apps@.len(),
    ensures
        g.well_formed(),
        g.rooted(),
        g.tools_hang_from_root(),
        exists|p: int, e: int| 0 <= p <= g.nodes@.len() && 0 <= e <= g.edges@.len()
            && #[trigger] packages_ok(apps@, provides_map@, false, root_index, max_nodes, g.nodes@.take(p), g.edges@.take(e), g.truncated)
            && tools_ok(apps@, root_index, g.nodes@, g.edges@, p, e),
{
    let base = build_dependency_graph(apps, provides_map, root_index, max_nodes, false);
    proof {
        assert forall|i: int| 0 <= i < base.nodes@.len() implies #[trigger] base.nodes@[i].kind == DependencyGraphNodeKind::Package by {
            assert(node_ok(apps@, root_index, i, base.nodes@[i]));
        }
    }
    let ghost bn = base.nodes@;
    let ghost be = base.edges@;
    let g = add_provided_tools(base, apps, root_index);
    proof {
        let p = bn.len() as int;
        let e = be.len() as int;
        lemma_packages_same_nodes(apps@, provides_map@, false, root_index, max_nodes, g.nodes@.take(p), bn, be, g.truncated);
        assert(packages_ok(apps@, provides_map@, false, root_index, max_nodes, g.nodes@.take(p), g.edges@.take(e), g.truncated));
        let n = g.nodes@.len() as int;
        assert forall|k: int| 0 < k < n implies #[trigger] discovered(g.edges@, k) by {
            if k < p {
                assert(discovered(be, k));
                let sp = choose|sp: int| 0 <= sp < k && #[trigger] has_edge(be, sp, k);
                let f = choose|f: int| 0 <= f < be.len() && be[f].0 == sp && be[f].1 == k;
                assert(g.edges@.take(e)[f] == g.edges@[f]);
                assert(has_edge(g.edges@, sp, k));
            } else {
                let app = apps@[root_index as int];
                assert(tools_ok(apps@, root_index, g.nodes@, g.edges@, p, e));
                assert(!(app.binaries@.len() == 0 || app.one_to_one()));
                let j = k - p;
                let bins = app.binaries@;
                assert(g.nodes@.len() == p + bins.len());
                assert(0 <= j < bins.len());
                assert(g.edges@[e + j].0 == 0 && g.edges@[e + j].1 == p + j);
                assert(g.edges@[e + j].1 == k);
                assert(has_edge(g.edges@, 0, k));
            }
        }
        assert forall|v: int| 0 <= v < n implies #[trigger] reaches(g.edges@, 0, v) by {
            lemma_discovered_reached(g.edges@, n, v);
        }
        let app = apps@[root_index as int];
        assert(tools_ok(apps@, root_index, g.nodes@, g.edges@, p, e));
        assert forall|k: int| 0 <= k < p implies #[trigger] g.nodes@[k].kind == DependencyGraphNodeKind::Package by {
            assert(g.nodes@.take(p)[k] == g.nodes@[k]);
            assert(node_ok(apps@, root_index, k, g.nodes@.take(p)[k]));
        }
        assert forall|f: int| 0 <= f < g.edges@.len() implies (#[trigger] g.edges@[f]).0 < g.nodes@.len()
            && g.nodes@[g.edges@[f].0 as int].kind == DependencyGraphNodeKind::Package
            && (g.nodes@[g.edges@[f].1 as int].kind != DependencyGraphNodeKind::Package ==> g.edges@[f].0 == 0) by {
            if f < e {
                assert(g.edges@.take(e)[f] == g.edges@[f]);
                assert(g.edges@[f].0 < p && g.edges@[f].1 < p);
            } else {
                let j = f - e;
                assert(g.edges@[e + j].0 == 0 && g.edges@[e + j].1 == p + j);
            }
        }
    }
    g
}

} // verus!

verus! {

impl DependencyGraph {
    /// Component `c` is a cycle: several members, or a member with an edge to itself.
    pub open spec fn cycle(&self, c: int) -> bool {
        self.members(c).len() > 1 || exists|e: int| 0 <= e < self.edges@.len() && #[trigger] self.edges@[e].0 == self.edges@[e].1
            && self.comp()[self.edges@[e].0 as int] == c
    }

    pub open spec fn has_explicit(&self, c: int) -> bool {
        exists|k: int| 0 <= k < self.members(c).len() && #[trigger] self.nodes@[self.members(c)[k] as int].is_explicit
    }

    /// Component `c` leads nowhere: no member has hidden successors and no edge
    /// leaves it.
    pub open spec fn terminal(&self, c: int) -> bool {
        &&& !exists|k: int| 0 <= k < self.members(c).len() && #[trigger] self.nodes@[self.members(c)[k] as int].has_hidden_successors
        &&& !exists|e: int| 0 <= e < self.edges@.len() && #[trigger] self.comp()[self.edges@[e].0 as int] == c && self.comp()[self.edges@[e].1 as int] != c
    }

    /// Node `v` is drawn in the final column: a package in a terminal component
    /// other than the root's, and, in a terminal cycle that holds an explicit
    /// package, one of those explicit packages.
    pub open spec fn aligned(&self, v: int) -> bool {
        let c = self.comp()[v] as int;
        &&& self.nodes@[v].kind == DependencyGraphNodeKind::Package
        &&& c != self.comp()[0] as int
        &&& self.terminal(c)
        &&& (!self.cycle(c) || !self.has_explicit(c) || self.nodes@[v].is_explicit)
    }

    /// Whether the component is a cycle: more than one member, or one with an
    /// edge to itself.
    pub fn is_cycle_component(&self, component: usize) -> (r: bool)
        requires
            self.well_formed(),
            component < self.component_count(),
        ensures
            r == self.cycle(component as int),
    {
        if self.components[component].len() > 1 {
            return true;
        }
        let mut e: usize = 0;
        while e < self.edges.len()
            invariant
                self.well_formed(),
                e <= self.edges@.len(),
                forall|f: int| 0 <= f < e ==> !(#[trigger] self.edges@[f].0 == self.edges@[f].1 && self.comp()[self.edges@[f].0 as int] == component),
            decreases self.edges@.len() - e,
        {
            let (source, target) = self.edges[e];
            if source == target && self.component_by_node[source] == component {
                return true;
            }
            e += 1;
        }
        false
    }

    pub fn component_has_explicit_package(&self, component: usize) -> (r: bool)
        requires
            self.well_formed(),
            component < self.component_count(),
        ensures
            r == self.has_explicit(component as int),
    {
        let members = &self.components[component];
        let mut k: usize = 0;
        while k < members.len()
            invariant
                self.well_formed(),
                component < self.component_count(),
                members@ == self.members(component as int),
                k <= members@.len(),
                forall|j: int| 0 <= j < k ==> !#[trigger] self.nodes@[members@[j] as int].is_explicit,
            decreases members@.len() - k,
        {
            if self.nodes[members[k]].is_explicit {
                return true;
            }
            k += 1;
        }
        false
    }

    pub fn is_terminal_component(&self, component: usize) -> (r: bool)
        requires
            self.well_formed(),
            component < self.component_count(),
        ensures
            r == self.terminal(component as int),
    {
        let members = &self.components[component];
        let mut k: usize = 0;
        while k < members.len()
            invariant
                self.well_formed(),
                component < self.component_count(),
                members@ == self.members(component as int),
                k <= members@.len(),
                forall|j: int| 0 <= j < k ==> !#[trigger] self.nodes@[members@[j] as int].has_hidden_successors,
            decreases members@.len() - k,
        {
            if self.nodes[members[k]].has_hidden_successors {
                return false;
            }
            k += 1;
        }
        let mut e: usize = 0;
        while e < self.edges.len()
            invariant
                self.well_formed(),
                e <= self.edges@.len(),
                forall|f: int| 0 <= f < e ==> !(#[trigger] self.comp()[self.edges@[f].0 as int] == component && self.comp()[self.edges@[f].1 as int] != component),
            decreases self.edges@.len() - e,
        {
            let (source, target) = self.edges[e];
            if self.component_by_node[source] == component && self.component_by_node[target] != component {
                return false;
            }
            e += 1;
        }
        true
    }

    pub fn is_aligned_terminal(&self, node_index: usize) -> (r: bool)
        requires
            self.well_formed(),
            node_index < self.nodes@.len(),
        ensures
            r == self.aligned(node_index as int),
    {
        if self.nodes[node_index].kind != DependencyGraphNodeKind::Package {
            return false;
        }
        let component = self.component_by_node[node_index];
        component != self.component_by_node[0]
            && self.is_terminal_component(component)
            && (!self.is_cycle_component(component)
                || !self.component_has_explicit_package(component)
                || self.nodes[node_index].is_explicit)
    }
}

} // verus!

verus! {

impl DependencyGraph {
    /// Edge `e` lies on a path through `v`: its target leads to `v`, or `v`
    /// leads to its source.
    pub open spec fn on_path(&self, v: int, e: int) -> bool {
        reaches(self.edges@, self.edges@[e].1 as int, v) || reaches(self.edges@, v, self.edges@[e].0 as int)
    }

    /// The edges on some path that passes through `node_index`, in increasing order.
    pub fn path_edges_through(&self, node_index: usize) -> (r: Vec<usize>)
        requires
            self.well_formed(),
            node_index < self.nodes@.len(),
        ensures
            forall|i: int, j: int| 0 <= i < j < r@.len() ==> r@[i] < r@[j],
            forall|e: int| 0 <= e < self.edges@.len() ==> (r@.contains(e as usize) <==> #[trigger] self.on_path(node_index as int, e)),
            forall|k: int| 0 <= k < r@.len() ==> #[trigger] r@[k] < self.edges@.len(),
    {
        let n = self.nodes.len();
        let table = crate::condense::reach_table(&self.edges, n);
        let mut r: Vec<usize> = Vec::new();
        let mut e: usize = 0;
        while e < self.edges.len()
            invariant
                self.well_formed(),
                n == self.nodes@.len(),
                node_index < n,
                crate::condense::table_ok(self.edges@, n as int, table@),
                e <= self.edges@.len(),
                forall|i: int, j: int| 0 <= i < j < r@.len() ==> r@[i] < r@[j],
                forall|k: int| 0 <= k < r@.len() ==> #[trigger] r@[k] < e,
                forall|f: int| 0 <= f < e ==> (r@.contains(f as usize) <==> #[trigger] self.on_path(node_index as int, f)),
            decreases self.edges@.len() - e,
        {
            let (source, target) = self.edges[e];
            let through = table[target][node_index] || table[node_index][source];
            let ghost old_r = r@;
            if through {
                r.push(e);
            }
            proof {
                assert(reaches(self.edges@, target as int, node_index as int) == table@[target as int]@[node_index as int]);
                assert(reaches(self.edges@, node_index as int, source as int) == table@[node_index as int]@[source as int]);
                assert forall|f: int| 0 <= f < e + 1 implies (r@.contains(f as usize) <==> #[trigger] self.on_path(node_index as int, f)) by {
                    if f < e {
                        if r@.contains(f as usize) && through {
                            let k = choose|k: int| 0 <= k < r@.len() && r@[k] == f as usize;
                            if k == r@.len() - 1 {
                                assert(r@[k] == e);
                            } else {
                                assert(old_r[k] == r@[k]);
                            }
                        }
                        if old_r.contains(f as usize) && through {
                            let k = choose|k: int| 0 <= k < old_r.len() && old_r[k] == f as usize;
                            assert(r@[k] == old_r[k]);
                        }
                    } else {
                        if through {
                            assert(r@[r@.len() - 1] == e);
                        } else {
                            if r@.contains(e) {
                                let k = choose|k: int| 0 <= k < r@.len() && r@[k] == e;
                                assert(r@[k] < e);
                            }
                        }
                    }
                }
            }
            e += 1;
        }
        r
    }
}

} // verus!

verus! {

impl DependencyGraph {
    /// Every node is reached from the selected package (node 0).
    pub open spec fn rooted(&self) -> bool {
        forall|v: int| 0 <= v < self.nodes@.len() ==> #[trigger] reaches(self.edges@, 0, v)
    }
}

/// When every node after the first is pointed at by an earlier one, the first
/// node reaches them all.
proof fn lemma_discovered_reached(edges: Seq<(usize, usize)>, n: int, k: int)
    requires
        forall|j: int| 0 < j < n ==> #[trigger] discovered(edges, j),
        0 <= k < n,
    ensures
        reaches(edges, 0, k),
    decreases k,
{
    if k == 0 {
        lemma_reaches_refl(edges, 0);
    } else {
        assert(discovered(edges, k));
        let s = choose|s: int| 0 <= s < k && #[trigger] has_edge(edges, s, k);
        lemma_discovered_reached(edges, n, s);
        lemma_reaches_step(edges, 0, s, k);
    }
}

} // verus!

verus! {

impl DependencyGraph {
    /// Tool nodes hang from the root: only the root has edges into them, and
    /// no edge leaves them.
    pub open spec fn tools_hang_from_root(&self) -> bool {
        forall|e: int| 0 <= e < self.edges@.len() ==> (#[trigger] self.edges@[e]).0 < self.nodes@.len()
            && self.nodes@[self.edges@[e].0 as int].kind == DependencyGraphNodeKind::Package
            && (self.nodes@[self.edges@[e].1 as int].kind != DependencyGraphNodeKind::Package ==> self.edges@[e].0 == 0)
    }
}

/// Two nodes share a component exactly when each reaches the other.
pub proof fn lemma_components_are_mutual_reachability(g: &DependencyGraph, u: int, v: int)
    requires
        g.well_formed(),
        0 <= u < g.nodes@.len(),
        0 <= v < g.nodes@.len(),
    ensures
        (g.component_by_node@[u] == g.component_by_node@[v]) <==> mutual(g.edges@, u, v),
{
}

/// A tool node reaches no other node.
proof fn lemma_tool_reaches_nothing(g: &DependencyGraph, v: int, u: int)
    requires
        g.tools_hang_from_root(),
        0 <= v < g.nodes@.len(),
        g.nodes@[v].kind != DependencyGraphNodeKind::Package,
        u != v,
    ensures
        !reaches(g.edges@, v, u),
{
    if reaches(g.edges@, v, u) {
        let r = choose|p: Seq<int>| #[trigger] crate::reach::is_walk(g.edges@, p) && p[0] == v && p[p.len() - 1] == u;
        assert(r.len() >= 2);
        assert(crate::reach::is_walk(g.edges@, r));
        let i = 0int;
        assert(has_edge(g.edges@, r[i], r[i + 1]));
        let f = choose|f: int| 0 <= f < g.edges@.len() && g.edges@[f].0 == r[0int] && g.edges@[f].1 == r[1int];
        assert(g.nodes@[g.edges@[f].0 as int].kind == DependencyGraphNodeKind::Package);
    }
}

/// Every edge between two components leads to a deeper level.
#[verifier::rlimit(80)]
pub proof fn lemma_edges_descend(g: &DependencyGraph, e: int)
    requires
        g.well_formed(),
        g.rooted(),
        g.tools_hang_from_root(),
        0 <= e < g.edges@.len(),
        g.component_by_node@[g.edges@[e].0 as int] != g.component_by_node@[g.edges@[e].1 as int],
    ensures
        g.nodes@[g.edges@[e].0 as int].dependency_level < g.nodes@[g.edges@[e].1 as int].dependency_level,
{
    let shifted = g.has_tools();
    let base = base_levels(g.nodes@, shifted);
    let s = g.edges@[e].0 as int;
    let t = g.edges@[e].1 as int;
    assert(g.edges@[e].0 < g.nodes@.len());
    assert(crate::condense::crosses(g.edges@, g.comp(), e));
    assert(base[s] + 1 <= base[t]);
    if t == 0 {
        assert(has_edge(g.edges@, s, t));
        assert(reaches(g.edges@, 0, s));
        crate::reach::lemma_reaches_edge(g.edges@, s, t);
        assert(mutual(g.edges@, s, t));
    }
    assert(g.nodes@[s].kind == DependencyGraphNodeKind::Package);
    if g.nodes@[t].kind != DependencyGraphNodeKind::Package {
        assert(s == 0);
    }
}

/// Nodes other than the root that share a component share a level.
pub proof fn lemma_component_shares_level(g: &DependencyGraph, u: int, v: int)
    requires
        g.well_formed(),
        g.tools_hang_from_root(),
        0 < u < g.nodes@.len(),
        0 < v < g.nodes@.len(),
        g.component_by_node@[u] == g.component_by_node@[v],
    ensures
        g.nodes@[u].dependency_level == g.nodes@[v].dependency_level,
{
    let base = base_levels(g.nodes@, g.has_tools());
    assert(base[u] == base[v]);
    if u != v {
        assert(mutual(g.edges@, u, v));
        if g.nodes@[v].kind != DependencyGraphNodeKind::Package {
            lemma_tool_reaches_nothing(g, v, u);
        }
        if g.nodes@[u].kind != DependencyGraphNodeKind::Package {
            lemma_tool_reaches_nothing(g, u, v);
        }
    }
}

} // verus!
