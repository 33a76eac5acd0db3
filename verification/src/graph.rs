//! The graph of dependencies between installables, kept in a `petgraph` graph.

use vstd::prelude::*;
use petgraph::graph::Graph;
use petgraph::Directed;

verus! {

/// `petgraph::graph::Graph`, held as it is: of its nodes and edges only what the functions
/// below say is known.
#[verifier::external_type_specification]
#[verifier::external_body]
#[verifier::reject_recursive_types(N)]
#[verifier::reject_recursive_types(E)]
#[verifier::reject_recursive_types(Ty)]
#[verifier::reject_recursive_types(Ix)]
pub struct ExGraph<N, E, Ty, Ix>(Graph<N, E, Ty, Ix>);

/// `petgraph::Directed`, the mark of graphs whose edges have a direction.
#[verifier::external_type_specification]
#[verifier::external_body]
pub struct ExDirected(Directed);

/// The weights of the nodes of `g`, by node index.
pub uninterp spec fn graph_nodes(g: Graph<usize, bool, Directed, usize>) -> Seq<usize>;

/// The edges of `g`, by edge index: the index of the source node, the index of the target
/// node and the weight.
pub uninterp spec fn graph_edges(g: Graph<usize, bool, Directed, usize>) -> Seq<
    (usize, usize, bool),
>;

/// Whether `edges` holds an edge from `a` to `b`.
pub open spec fn connects(edges: Seq<(usize, usize, bool)>, a: usize, b: usize) -> bool {
    exists|i: int| 0 <= i < edges.len() && (#[trigger] edges[i]).0 == a && edges[i].1 == b
}

/// A graph without nodes and edges.
///
/// Trusted: `Graph::with_capacity` makes an empty graph.
#[verifier::external_body]
pub(crate) fn graph_new() -> (g: Graph<usize, bool, Directed, usize>)
    ensures
        graph_nodes(g).len() == 0,
        graph_edges(g).len() == 0,
{
    Graph::with_capacity(0, 0)
}

/// Adds a node with the given weight and returns its index.
///
/// Trusted: `Graph::add_node` appends the node, gives it the next index and leaves the
/// edges as they are. With `usize` indices it has no limit on the number of nodes.
#[verifier::external_body]
pub(crate) fn graph_add_node(g: &mut Graph<usize, bool, Directed, usize>, weight: usize) -> (r:
    usize)
    ensures
        r == graph_nodes(*old(g)).len(),
        graph_nodes(*final(g)) == graph_nodes(*old(g)).push(weight),
        graph_edges(*final(g)) == graph_edges(*old(g)),
{
    g.add_node(weight).index()
}

/// Gives the edge from node `a` to node `b` the given weight, adding the edge if there is
/// none.
///
/// Trusted: `Graph::update_edge` sets the weight of an edge from `a` to `b` if it finds
/// one, and else appends such an edge; the nodes and the other edges stay as they are. It
/// panics if `a` or `b` is no node of the graph.
#[verifier::external_body]
pub(crate) fn graph_update_edge(
    g: &mut Graph<usize, bool, Directed, usize>,
    a: usize,
    b: usize,
    weight: bool,
)
    requires
        a < graph_nodes(*old(g)).len(),
        b < graph_nodes(*old(g)).len(),
    ensures
        graph_nodes(*final(g)) == graph_nodes(*old(g)),
        connects(graph_edges(*old(g)), a, b) ==> exists|i: int|
            0 <= i < graph_edges(*old(g)).len() && (#[trigger] graph_edges(*old(g))[i]).0 == a
                && graph_edges(*old(g))[i].1 == b && graph_edges(*final(g)) == graph_edges(
                *old(g),
            ).update(i, (a, b, weight)),
        !connects(graph_edges(*old(g)), a, b) ==> graph_edges(*final(g)) == graph_edges(
            *old(g),
        ).push((a, b, weight)),
{
    g.update_edge(
        petgraph::graph::NodeIndex::new(a),
        petgraph::graph::NodeIndex::new(b),
        weight,
    );
}

/// The sources and weights of the edges that end in node `a`.
///
/// Trusted: `Graph::edges_directed` with `Incoming` walks exactly the edges whose target
/// is `a`, each once.
#[verifier::external_body]
pub(crate) fn graph_incoming(g: &Graph<usize, bool, Directed, usize>, a: usize) -> (r: Vec<
    (usize, bool),
>)
    ensures
        forall|s: usize, w: bool| #[trigger]
            r@.contains((s, w)) <==> graph_edges(*g).contains((s, a, w)),
{
    g.edges_directed(petgraph::graph::NodeIndex::new(a), petgraph::Direction::Incoming).map(
        |e| (petgraph::visit::EdgeRef::source(&e).index(), *e.weight()),
    ).collect()
}

/// The targets of the edges that start in node `a`.
///
/// Trusted: `Graph::neighbors` walks the targets of exactly the edges whose source is `a`.
#[verifier::external_body]
pub(crate) fn graph_neighbors(g: &Graph<usize, bool, Directed, usize>, a: usize) -> (r: Vec<
    usize,
>)
    ensures
        forall|t: usize| #[trigger]
            r@.contains(t) <==> connects(graph_edges(*g), a, t),
{
    g.neighbors(petgraph::graph::NodeIndex::new(a)).map(|n| n.index()).collect()
}

/// Whether no two of `edges` join the same pair of nodes.
pub open spec fn unique_pairs(edges: Seq<(usize, usize, bool)>) -> bool {
    forall|i: int, j: int|
        0 <= i < edges.len() && 0 <= j < edges.len() && (#[trigger] edges[i]).0 == (
        #[trigger] edges[j]).0 && edges[i].1 == edges[j].1 ==> i == j
}

/// The weight of the edge from `a` to `b` in `edges`, if there is one.
pub open spec fn weight_in(edges: Seq<(usize, usize, bool)>, a: usize, b: usize) -> Option<bool> {
    if connects(edges, a, b) {
        let i = choose|i: int| 0 <= i < edges.len() && (#[trigger] edges[i]).0 == a && edges[i].1 == b;
        Some(edges[i].2)
    } else {
        None
    }
}

/// A directed graph on the nodes `0`, `1`, and so on, with at most one edge from one node
/// to another. Each edge carries a flag.
pub struct DependencyGraph {
    graph: Graph<usize, bool, Directed, usize>,
}

impl DependencyGraph {
    /// The number of nodes.
    pub closed spec fn node_count(&self) -> nat {
        graph_nodes(self.graph).len()
    }

    /// The flag of the edge from `a` to `b`, if there is one.
    pub closed spec fn weight(&self, a: usize, b: usize) -> Option<bool> {
        weight_in(graph_edges(self.graph), a, b)
    }

    /// Whether the graph is in order: every edge joins two of its nodes, and no two edges
    /// join the same pair.
    pub closed spec fn wf(&self) -> bool {
        &&& unique_pairs(graph_edges(self.graph))
        &&& forall|i: int|
            0 <= i < graph_edges(self.graph).len() ==> (#[trigger] graph_edges(self.graph)[i]).0
                < self.node_count() && graph_edges(self.graph)[i].1 < self.node_count()
    }

    /// A graph of `n` nodes without edges.
    pub fn new(n: usize) -> (r: Self)
        ensures
            r.wf(),
            r.node_count() == n,
            forall|a: usize, b: usize| (#[trigger] r.weight(a, b)).is_none(),
    {
        let mut graph = graph_new();
        let mut i: usize = 0;
        while i < n
            invariant
                i <= n,
                graph_nodes(graph).len() == i,
                graph_edges(graph).len() == 0,
            decreases n - i,
        {
            graph_add_node(&mut graph, i);
            i += 1;
        }
        DependencyGraph { graph }
    }

    /// Gives the edge from `a` to `b` the flag `flag`, adding the edge if there is none.
    pub fn set_edge(&mut self, a: usize, b: usize, flag: bool)
        requires
            old(self).wf(),
            a < old(self).node_count(),
            b < old(self).node_count(),
        ensures
            final(self).wf(),
            final(self).node_count() == old(self).node_count(),
            forall|x: usize, y: usize| #[trigger]
                final(self).weight(x, y) == (if x == a && y == b {
                    Some(flag)
                } else {
                    old(self).weight(x, y)
                }),
    {
        let ghost before = graph_edges(self.graph);
        graph_update_edge(&mut self.graph, a, b, flag);
        proof {
            let after = graph_edges(self.graph);
            if connects(before, a, b) {
                assert forall|x: usize, y: usize| #[trigger]
                    weight_in(after, x, y) == (if x == a && y == b {
                        Some(flag)
                    } else {
                        weight_in(before, x, y)
                    }) by {
                    if connects(before, x, y) {
                        let m = choose|m: int|
                            0 <= m < before.len() && (#[trigger] before[m]).0 == x && before[m].1
                                == y;
                        assert(after[m].0 == x && after[m].1 == y);
                    }
                }
                assert forall|p: int, q: int|
                    0 <= p < after.len() && 0 <= q < after.len() && (#[trigger] after[p]).0 == (
                    #[trigger] after[q]).0 && after[p].1 == after[q].1 implies p == q by {}
                assert forall|p: int| 0 <= p < after.len() implies (#[trigger] after[p]).0
                    < self.node_count() && after[p].1 < self.node_count() by {}
            } else {
                let last = before.len() as int;
                assert(after[last] == (a, b, flag));
                assert forall|p: int, q: int|
                    0 <= p < after.len() && 0 <= q < after.len() && (#[trigger] after[p]).0 == (
                    #[trigger] after[q]).0 && after[p].1 == after[q].1 implies p == q by {}
                assert forall|x: usize, y: usize| #[trigger]
                    weight_in(after, x, y) == (if x == a && y == b {
                        Some(flag)
                    } else {
                        weight_in(before, x, y)
                    }) by {
                    if connects(after, x, y) {
                        let k = choose|k: int|
                            0 <= k < after.len() && (#[trigger] after[k]).0 == x && after[k].1 == y;
                        assert(k == last || after[k] == before[k]);
                    }
                    if connects(before, x, y) {
                        let m = choose|m: int|
                            0 <= m < before.len() && (#[trigger] before[m]).0 == x && before[m].1
                                == y;
                        assert(after[m] == before[m]);
                    }
                }
                assert forall|p: int| 0 <= p < after.len() implies (#[trigger] after[p]).0
                    < self.node_count() && after[p].1 < self.node_count() by {}
            }
        }
    }

    /// The edges that end in `b`: where each starts, and its flag.
    pub fn incoming(&self, b: usize) -> (r: Vec<(usize, bool)>)
        requires
            self.wf(),
        ensures
            forall|s: usize, w: bool| #[trigger]
                r@.contains((s, w)) <==> self.weight(s, b) == Some(w),
    {
        let r = graph_incoming(&self.graph, b);
        proof {
            assert forall|s: usize, w: bool| #[trigger]
                r@.contains((s, w)) <==> self.weight(s, b) == Some(w) by {}
        }
        r
    }

    /// The nodes that the edges from `a` lead to.
    pub fn neighbors(&self, a: usize) -> (r: Vec<usize>)
        requires
            self.wf(),
        ensures
            forall|t: usize| #[trigger] r@.contains(t) <==> self.weight(a, t).is_some(),
    {
        graph_neighbors(&self.graph, a)
    }
}

} // verus!
