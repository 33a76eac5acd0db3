//! Removing the installables that cannot be part of a solution.

use vstd::prelude::*;
use crate::dependency::Dependency;
use crate::graph::DependencyGraph;
use crate::names::{lemma_named, named, NameIndex};
use crate::release::{base_name, dependency_views, items_of, Installable, InstallableView};
use crate::requirements::Requirements;
use crate::rules::{
    all_marked,
    anchored,
    count,
    dominated,
    dominated_by,
    doomed,
    edge,
    edge_upto,
    lemma_pass_shrinks,
    missing_from,
    pass,
    present,
    prune,
    same_neighbors,
    satisfiable,
    unsatisfied,
    violates,
};
use crate::types::ModName;

verus! {

/// Whether the edges of `graph` are those between `items`.
pub open spec fn edges_built(graph: DependencyGraph, items: Seq<InstallableView>) -> bool {
    &&& graph.wf()
    &&& graph.node_count() == items.len()
    &&& forall|a: usize, b: usize| #[trigger] graph.weight(a, b) == edge(items, a as int, b as int)
}

/// Tests whether `node` satisfies `dep`.
pub fn satisfies(node: &Installable, dep: &Dependency) -> (r: bool)
    ensures
        r == dep@.satisfied_by(node@.name, node@.version),
{
    dep.name() == node.name() && dep.version().matches(node.version())
}

/// Builds the graph of the edges between `nodes`: one from a node to each other node that
/// satisfies one of its dependencies, flagged as the last such dependency is required.
pub fn build_graph(nodes: &Vec<Installable>) -> (graph: DependencyGraph)
    ensures
        edges_built(graph, items_of(nodes@)),
{
    let ghost items = items_of(nodes@);
    let n = nodes.len();
    let mut graph = DependencyGraph::new(n);
    let mut u: usize = 0;
    while u < n
        invariant
            u <= n,
            n == nodes.len(),
            items == items_of(nodes@),
            graph.wf(),
            graph.node_count() == n,
            forall|a: usize, b: usize| #[trigger]
                graph.weight(a, b) == (if a < u {
                    edge(items, a as int, b as int)
                } else {
                    None
                }),
        decreases n - u,
    {
        let deps = nodes[u].dependencies();
        assert(deps@.len() == items[u as int].deps.len());
        let mut k: usize = 0;
        while k < deps.len()
            invariant
                k <= deps.len(),
                u < n,
                n == nodes.len(),
                items == items_of(nodes@),
                dependency_views(deps@) == items[u as int].deps,
                deps@.len() == items[u as int].deps.len(),
                graph.wf(),
                graph.node_count() == n,
                forall|a: usize, b: usize| #[trigger]
                    graph.weight(a, b) == (if a < u {
                        edge(items, a as int, b as int)
                    } else if a == u && b < n {
                        edge_upto(items, u as int, b as int, k as int)
                    } else {
                        None
                    }),
            decreases deps.len() - k,
        {
            let dep = &deps[k];
            let mut v: usize = 0;
            while v < n
                invariant
                    v <= n,
                    k < deps.len(),
                    u < n,
                    n == nodes.len(),
                    items == items_of(nodes@),
                    items[u as int].deps[k as int] == dep@,
                    deps@.len() == items[u as int].deps.len(),
                    graph.wf(),
                    graph.node_count() == n,
                    forall|a: usize, b: usize| #[trigger]
                        graph.weight(a, b) == (if a < u {
                            edge(items, a as int, b as int)
                        } else if a == u && b < n {
                            edge_upto(
                                items,
                                u as int,
                                b as int,
                                if b < v {
                                    k + 1
                                } else {
                                    k as int
                                },
                            )
                        } else {
                            None
                        }),
                decreases n - v,
            {
                if v != u && satisfies(&nodes[v], dep) {
                    graph.set_edge(u, v, dep.required());
                }
                v += 1;
            }
            k += 1;
        }
        u += 1;
    }
    graph
}

/// Tests whether `name` is the name under which the game takes part.
pub fn is_base_name(name: &ModName) -> (r: bool)
    ensures
        r == (name@ == base_name()),
{
    let base = String::from_str("base");
    proof {
        reveal_strlit("base");
        assert(base@ =~= base_name());
    }
    name.0 == base
}

/// Tests whether one of the nodes that `alive` marks satisfies `dep`: looks the name of
/// `dep` up in the index and tries the versions of the nodes found.
pub fn is_satisfiable(
    nodes: &Vec<Installable>,
    alive: &Vec<bool>,
    index: &NameIndex,
    dep: &Dependency,
) -> (r: bool)
    requires
        alive.len() == nodes.len(),
        index.models(items_of(nodes@), alive@),
    ensures
        r == satisfiable(items_of(nodes@), alive@, dep@),
{
    let ghost items = items_of(nodes@);
    let found = index.lookup(nodes, alive, dep.name());
    proof {
        lemma_named(items, alive@, dep@.name, nodes.len() as int);
    }
    let mut k: usize = 0;
    while k < found.len()
        invariant
            k <= found.len(),
            alive.len() == nodes.len(),
            items == items_of(nodes@),
            found@ == named(items, alive@, dep@.name, nodes.len() as int),
            forall|m: int|
                0 <= m < found.len() ==> (#[trigger] found[m]) < nodes.len()
                    && alive[found[m] as int] && items[found[m] as int].name == dep@.name,
            forall|m: int|
                0 <= m < k ==> !dep@.version.matches_spec(items[(#[trigger] found[m]) as int].version),
        decreases found.len() - k,
    {
        let v = found[k];
        assert(items[v as int] == nodes[v as int]@);
        if dep.version().matches(nodes[v].version()) {
            return true;
        }
        k += 1;
    }
    proof {
        if satisfiable(items, alive@, dep@) {
            let v = choose|v: int|
                0 <= v < items.len() && alive@[v] && dep@.satisfied_by(
                    (#[trigger] items[v]).name,
                    items[v].version,
                );
            assert(found@.contains(v as usize));
            let m = choose|m: int| 0 <= m < found.len() && found@[m] == v as usize;
            assert(!dep@.version.matches_spec(items[found[m] as int].version));
        }
    }
    false
}

/// Tests whether the node at `u` has a required dependency that none of the nodes that
/// `alive` marks satisfies.
pub fn is_unsatisfied(
    nodes: &Vec<Installable>,
    alive: &Vec<bool>,
    index: &NameIndex,
    u: usize,
) -> (r: bool)
    requires
        alive.len() == nodes.len(),
        index.models(items_of(nodes@), alive@),
        u < nodes.len(),
    ensures
        r == unsatisfied(items_of(nodes@), alive@, u as int),
{
    let ghost items = items_of(nodes@);
    let deps = nodes[u].dependencies();
    assert(deps@.len() == items[u as int].deps.len());
    let mut k: usize = 0;
    while k < deps.len()
        invariant
            k <= deps.len(),
            u < nodes.len(),
            alive.len() == nodes.len(),
            items == items_of(nodes@),
            index.models(items, alive@),
            dependency_views(deps@) == items[u as int].deps,
            deps@.len() == items[u as int].deps.len(),
            forall|m: int|
                0 <= m < k ==> !((#[trigger] items[u as int].deps[m]).required && !satisfiable(
                    items,
                    alive@,
                    items[u as int].deps[m],
                )),
        decreases deps.len() - k,
    {
        assert(dependency_views(deps@)[k as int] == deps[k as int]@);
        if deps[k].required() && !is_satisfiable(nodes, alive, index, &deps[k]) {
            return true;
        }
        k += 1;
    }
    false
}

/// Tests whether `node` is of a mod that is asked for, at a version that is not.
pub fn is_violating(reqs: &Requirements, node: &Installable) -> (r: bool)
    ensures
        r == violates(reqs.pairs(), node@),
{
    match reqs.get(node.name()) {
        Some(q) => !q.matches(node.version()),
        None => false,
    }
}

/// Tests whether one of the nodes that `alive` marks requires the node at `u`.
pub fn is_anchored(
    nodes: &Vec<Installable>,
    graph: &DependencyGraph,
    alive: &Vec<bool>,
    u: usize,
) -> (r: bool)
    requires
        alive.len() == nodes.len(),
        u < nodes.len(),
        edges_built(*graph, items_of(nodes@)),
    ensures
        r == anchored(items_of(nodes@), alive@, u as int),
{
    let ghost items = items_of(nodes@);
    let incoming = graph.incoming(u);
    let mut i: usize = 0;
    while i < incoming.len()
        invariant
            i <= incoming.len(),
            alive.len() == nodes.len(),
            u < nodes.len(),
            items == items_of(nodes@),
            edges_built(*graph, items),
            forall|s: usize, w: bool| #[trigger]
                incoming@.contains((s, w)) <==> graph.weight(s, u) == Some(w),
            forall|m: int|
                0 <= m < i ==> !((#[trigger] incoming[m]).1 && incoming[m].0 < alive.len()
                    && alive[incoming[m].0 as int]),
        decreases incoming.len() - i,
    {
        let (source, required) = incoming[i];
        assert(incoming@.contains((source, required)));
        if required && source < alive.len() && alive[source] {
            return true;
        }
        i += 1;
    }
    proof {
        if anchored(items, alive@, u as int) {
            let w = choose|w: int|
                0 <= w < items.len() && alive@[w] && #[trigger] edge(items, w, u as int) == Some(
                    true,
                );
            assert(incoming@.contains((w as usize, true)));
        }
    }
    false
}

/// Tests whether `list` holds `t`.
pub fn holds(list: &Vec<usize>, t: usize) -> (r: bool)
    ensures
        r == list@.contains(t),
{
    let mut i: usize = 0;
    while i < list.len()
        invariant
            i <= list.len(),
            forall|m: int| 0 <= m < i ==> list[m] != t,
        decreases list.len() - i,
    {
        if list[i] == t {
            return true;
        }
        i += 1;
    }
    false
}

/// Tests whether each of `from` that `alive` marks is in `into`.
fn covered(from: &Vec<usize>, into: &Vec<usize>, alive: &Vec<bool>) -> (r: bool)
    ensures
        r == forall|m: int|
            0 <= m < from.len() && (#[trigger] from[m]) < alive.len() && alive[from[m] as int]
                ==> into@.contains(from[m]),
{
    let mut i: usize = 0;
    while i < from.len()
        invariant
            i <= from.len(),
            forall|m: int|
                0 <= m < i && (#[trigger] from[m]) < alive.len() && alive[from[m] as int]
                    ==> into@.contains(from[m]),
        decreases from.len() - i,
    {
        let t = from[i];
        if t < alive.len() && alive[t] && !holds(into, t) {
            return false;
        }
        i += 1;
    }
    true
}

/// Tests whether the nodes at `u` and at `v` have edges to the same of the nodes that
/// `alive` marks.
pub fn has_same_neighbors(
    nodes: &Vec<Installable>,
    graph: &DependencyGraph,
    alive: &Vec<bool>,
    u: usize,
    v: usize,
) -> (r: bool)
    requires
        alive.len() == nodes.len(),
        u < nodes.len(),
        v < nodes.len(),
        edges_built(*graph, items_of(nodes@)),
    ensures
        r == same_neighbors(items_of(nodes@), alive@, u as int, v as int),
{
    let ghost items = items_of(nodes@);
    let mine = graph.neighbors(u);
    let theirs = graph.neighbors(v);
    let r = covered(&mine, &theirs, alive) && covered(&theirs, &mine, alive);
    proof {
        if r {
            assert forall|t: int| 0 <= t < items.len() && alive@[t] implies ((#[trigger] edge(
                items,
                u as int,
                t,
            )).is_some() <==> edge(items, v as int, t).is_some()) by {
                let tt = t as usize;
                if edge(items, u as int, t).is_some() {
                    assert(mine@.contains(tt));
                }
                if edge(items, v as int, t).is_some() {
                    assert(theirs@.contains(tt));
                }
            }
        } else {
            if same_neighbors(items, alive@, u as int, v as int) {
                assert forall|m: int|
                    0 <= m < mine.len() && (#[trigger] mine[m]) < alive.len()
                        && alive[mine[m] as int] implies theirs@.contains(mine[m]) by {
                    let t = mine[m];
                    assert(mine@.contains(t));
                }
                assert forall|m: int|
                    0 <= m < theirs.len() && (#[trigger] theirs[m]) < alive.len()
                        && alive[theirs[m] as int] implies mine@.contains(theirs[m]) by {
                    let t = theirs[m];
                    assert(theirs@.contains(t));
                }
            }
        }
    }
    r
}

/// Tests whether some node makes the node at `u` superfluous.
pub fn is_dominated(
    nodes: &Vec<Installable>,
    graph: &DependencyGraph,
    alive: &Vec<bool>,
    u: usize,
) -> (r: bool)
    requires
        alive.len() == nodes.len(),
        u < nodes.len(),
        edges_built(*graph, items_of(nodes@)),
    ensures
        r == dominated(items_of(nodes@), alive@, u as int),
{
    let ghost items = items_of(nodes@);
    let mut v: usize = 0;
    while v < nodes.len()
        invariant
            v <= nodes.len(),
            u < nodes.len(),
            alive.len() == nodes.len(),
            items == items_of(nodes@),
            items[u as int] == nodes[u as int]@,
            edges_built(*graph, items),
            forall|m: int| 0 <= m < v ==> !#[trigger] dominated_by(items, alive@, u as int, m),
        decreases nodes.len() - v,
    {
        if alive[v] && v != u && nodes[v].name() == nodes[u].name() {
            let newer = if u < v {
                nodes[u].version().lt(nodes[v].version())
            } else {
                !nodes[v].version().lt(nodes[u].version())
            };
            if newer && has_same_neighbors(nodes, graph, alive, u, v) {
                assert(dominated_by(items, alive@, u as int, v as int));
                return true;
            }
        }
        v += 1;
    }
    false
}

/// Tests whether the node at `u` is to be removed.
pub fn is_doomed(
    nodes: &Vec<Installable>,
    graph: &DependencyGraph,
    reqs: &Requirements,
    alive: &Vec<bool>,
    index: &NameIndex,
    u: usize,
) -> (r: bool)
    requires
        alive.len() == nodes.len(),
        index.models(items_of(nodes@), alive@),
        u < nodes.len(),
        edges_built(*graph, items_of(nodes@)),
    ensures
        r == doomed(items_of(nodes@), reqs.pairs(), alive@, u as int),
{
    if is_unsatisfied(nodes, alive, index, u) {
        return true;
    }
    if is_violating(reqs, &nodes[u]) {
        return true;
    }
    let name = nodes[u].name();
    if !is_base_name(name) && !reqs.contains_key(name) && !is_anchored(nodes, graph, alive, u) {
        return true;
    }
    is_dominated(nodes, graph, alive, u)
}

/// Makes one pass of removals over the nodes that `alive` marks and marks what is left.
pub fn prune_pass(
    nodes: &Vec<Installable>,
    graph: &DependencyGraph,
    reqs: &Requirements,
    alive: &Vec<bool>,
    index: &NameIndex,
) -> (r: Vec<bool>)
    requires
        alive.len() == nodes.len(),
        index.models(items_of(nodes@), alive@),
        edges_built(*graph, items_of(nodes@)),
    ensures
        r@ == pass(items_of(nodes@), reqs.pairs(), alive@),
{
    let mut next: Vec<bool> = Vec::new();
    let mut u: usize = 0;
    while u < nodes.len()
        invariant
            u <= nodes.len(),
            alive.len() == nodes.len(),
            index.models(items_of(nodes@), alive@),
            edges_built(*graph, items_of(nodes@)),
            next.len() == u,
            forall|m: int|
                0 <= m < u ==> next[m] == (alive[m] && !doomed(
                    items_of(nodes@),
                    reqs.pairs(),
                    alive@,
                    m,
                )),
        decreases nodes.len() - u,
    {
        let stays = alive[u] && !is_doomed(nodes, graph, reqs, alive, index, u);
        next.push(stays);
        u += 1;
    }
    next
}

/// Tests whether one of the nodes that `alive` marks has the given name: whether the index
/// holds a node under it.
pub fn is_present(
    nodes: &Vec<Installable>,
    alive: &Vec<bool>,
    index: &NameIndex,
    name: &ModName,
) -> (r: bool)
    requires
        alive.len() == nodes.len(),
        index.models(items_of(nodes@), alive@),
    ensures
        r == present(items_of(nodes@), alive@, name@),
{
    let ghost items = items_of(nodes@);
    let found = index.lookup(nodes, alive, name);
    proof {
        lemma_named(items, alive@, name@, nodes.len() as int);
        if found.len() > 0 {
            assert(items[found[0] as int].name == name@);
        }
        if present(items, alive@, name@) {
            let v = choose|v: int|
                0 <= v < items.len() && alive@[v] && (#[trigger] items[v]).name == name@;
            assert(found@.contains(v as usize));
        }
    }
    found.len() > 0
}

/// Finds the first mod asked for of which `alive` marks no node.
pub fn find_missing(
    nodes: &Vec<Installable>,
    reqs: &Requirements,
    alive: &Vec<bool>,
    index: &NameIndex,
) -> (r: Option<ModName>)
    requires
        alive.len() == nodes.len(),
        index.models(items_of(nodes@), alive@),
    ensures
        match r {
            Some(name) => missing_from(items_of(nodes@), reqs.pairs(), alive@, 0) == Some(name@),
            None => missing_from(items_of(nodes@), reqs.pairs(), alive@, 0).is_none(),
        },
{
    let mut i: usize = 0;
    while i < reqs.len()
        invariant
            i <= reqs.pairs().len(),
            alive.len() == nodes.len(),
            index.models(items_of(nodes@), alive@),
            missing_from(items_of(nodes@), reqs.pairs(), alive@, 0) == missing_from(
                items_of(nodes@),
                reqs.pairs(),
                alive@,
                i as int,
            ),
        decreases reqs.pairs().len() - i,
    {
        let name = reqs.name(i);
        if !is_present(nodes, alive, index, name) {
            return Some(name.clone());
        }
        i += 1;
    }
    None
}

/// Removes from `nodes` what cannot be part of a solution, pass after pass until a pass
/// removes nothing, and marks what is left. Fails with the first mod asked for of which,
/// before some pass, no node was left.
pub fn prune_nodes(nodes: &Vec<Installable>, graph: &DependencyGraph, reqs: &Requirements) -> (r:
    Result<Vec<bool>, ModName>)
    requires
        edges_built(*graph, items_of(nodes@)),
    ensures
        match r {
            Ok(left) => prune(items_of(nodes@), reqs.pairs(), all_marked(nodes.len() as nat))
                == Ok::<Seq<bool>, Seq<char>>(left@),
            Err(name) => prune(items_of(nodes@), reqs.pairs(), all_marked(nodes.len() as nat))
                == Err::<Seq<bool>, Seq<char>>(name@),
        },
{
    let ghost items = items_of(nodes@);
    let ghost all = all_marked(nodes.len() as nat);
    let mut alive: Vec<bool> = Vec::new();
    let mut i: usize = 0;
    while i < nodes.len()
        invariant
            i <= nodes.len(),
            alive.len() == i,
            forall|m: int| 0 <= m < i ==> alive[m],
        decreases nodes.len() - i,
    {
        alive.push(true);
        i += 1;
    }
    assert(alive@ =~= all);
    loop
        invariant
            alive.len() == nodes.len(),
            items == items_of(nodes@),
            edges_built(*graph, items),
            all == all_marked(nodes.len() as nat),
            prune(items, reqs.pairs(), alive@) == prune(items, reqs.pairs(), all),
        decreases count(alive@, alive.len() as int),
    {
        let index = NameIndex::build(nodes, &alive);
        match find_missing(nodes, reqs, &alive, &index) {
            Some(name) => {
                return Err(name);
            },
            None => {},
        }
        let next = prune_pass(nodes, graph, reqs, &alive, &index);
        proof {
            lemma_pass_shrinks(items, reqs.pairs(), alive@);
        }
        if same_marks(&next, &alive) {
            return Ok(alive);
        }
        alive = next;
    }
}

/// Tests whether `a` and `b` mark the same places.
pub fn same_marks(a: &Vec<bool>, b: &Vec<bool>) -> (r: bool)
    ensures
        r == (a@ == b@),
{
    if a.len() != b.len() {
        return false;
    }
    let mut i: usize = 0;
    while i < a.len()
        invariant
            i <= a.len(),
            a.len() == b.len(),
            forall|m: int| 0 <= m < i ==> a[m] == b[m],
        decreases a.len() - i,
    {
        if a[i] != b[i] {
            return false;
        }
        i += 1;
    }
    proof {
        assert(a@ =~= b@);
    }
    true
}

} // verus!
