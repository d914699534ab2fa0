//! The crate dependency graph, held in a `petgraph` graph, and what its
//! strongly connected components are.
use vstd::prelude::*;
use petgraph::graph::{Graph, NodeIndex};
use petgraph::{Directed, Direction};
use crate::syntax::count_where;

verus! {

#[verifier::external_type_specification]
#[verifier::external_body]
#[verifier::reject_recursive_types(N)]
#[verifier::reject_recursive_types(E)]
#[verifier::reject_recursive_types(Ty)]
#[verifier::reject_recursive_types(Ix)]
pub struct ExGraph<N, E, Ty, Ix>(Graph<N, E, Ty, Ix>);

#[verifier::external_type_specification]
#[verifier::external_body]
pub struct ExDirected(Directed);

/// The node weights of a dependency graph, by node index.
pub uninterp spec fn graph_nodes(g: Graph<String, (), Directed, u32>) -> Seq<Seq<char>>;

/// The edges of a dependency graph, `(source, target)` by node index, in the
/// order they were added.
pub uninterp spec fn graph_edges(g: Graph<String, (), Directed, u32>) -> Seq<(int, int)>;

/// What `petgraph::algo::tarjan_scc` gives for a graph with `node_count`
/// nodes and these edges (added in this order).
pub uninterp spec fn tarjan_components(node_count: nat, edges: Seq<(int, int)>) -> Seq<Seq<int>>;

/// Which way to follow edges from a node.
#[derive(Clone, Copy, Debug, PartialEq, Eq, Structural)]
pub enum EdgeDirection {
    Outgoing,
    Incoming,
}

/// Number of edges that leave (or enter) node `i`.
pub open spec fn degree(edges: Seq<(int, int)>, i: int, dir: EdgeDirection) -> nat {
    count_where(
        edges,
        |e: (int, int)|
            if dir == EdgeDirection::Outgoing {
                e.0 == i
            } else {
                e.1 == i
            },
    )
}

/// `p` is a walk along `edges` (one node or more).
pub open spec fn is_walk(edges: Seq<(int, int)>, p: Seq<int>) -> bool {
    &&& p.len() >= 1
    &&& forall|k: int| 0 <= k < p.len() - 1 ==> #[trigger] edges.contains((p[k], p[k + 1]))
}

/// `v` can be reached from `u` along `edges` (every node reaches itself).
pub open spec fn reachable(edges: Seq<(int, int)>, u: int, v: int) -> bool {
    exists|p: Seq<int>| #[trigger] is_walk(edges, p) && p[0] == u && p.last() == v
}

/// `u` and `v` reach each other.
pub open spec fn mutually_reachable(edges: Seq<(int, int)>, u: int, v: int) -> bool {
    reachable(edges, u, v) && reachable(edges, v, u)
}

/// Node `x` lies in one of `comps`.
pub open spec fn in_some_component(comps: Seq<Seq<int>>, x: int) -> bool {
    exists|c: int, j: int| 0 <= c < comps.len() && 0 <= j < comps[c].len() && #[trigger] comps[c][j] == x
}

/// `comps` are the strongly connected components of the graph with nodes
/// `0..n` and these edges, in reverse topological order: every node lies in
/// exactly one non-empty component, two nodes share a component exactly when
/// they reach each other, and an edge between two components goes from a
/// later component to an earlier one.
pub open spec fn is_scc_decomposition(n: nat, edges: Seq<(int, int)>, comps: Seq<Seq<int>>) -> bool {
    &&& forall|c: int| 0 <= c < comps.len() ==> #[trigger] comps[c].len() > 0
    &&& forall|c: int, j: int|
        0 <= c < comps.len() && 0 <= j < comps[c].len() ==> 0 <= #[trigger] comps[c][j] < n
    &&& forall|x: int| 0 <= x < n ==> #[trigger] in_some_component(comps, x)
    &&& forall|c1: int, j1: int, c2: int, j2: int|
        0 <= c1 < comps.len() && 0 <= j1 < comps[c1].len() && 0 <= c2 < comps.len() && 0 <= j2
            < comps[c2].len() && (c1 != c2 || j1 != j2) ==> #[trigger] comps[c1][j1]
            != #[trigger] comps[c2][j2]
    &&& forall|c1: int, j1: int, c2: int, j2: int|
        0 <= c1 < comps.len() && 0 <= j1 < comps[c1].len() && 0 <= c2 < comps.len() && 0 <= j2
            < comps[c2].len() ==> ((c1 == c2) <==> mutually_reachable(
            edges,
            #[trigger] comps[c1][j1],
            #[trigger] comps[c2][j2],
        ))
    &&& forall|c1: int, j1: int, c2: int, j2: int|
        0 <= c1 < comps.len() && 0 <= j1 < comps[c1].len() && 0 <= c2 < comps.len() && 0 <= j2
            < comps[c2].len() && c1 != c2 && edges.contains(
            (#[trigger] comps[c1][j1], #[trigger] comps[c2][j2]),
        ) ==> c2 < c1
}

/// The integer view of a list of components.
pub open spec fn comps_view(v: Seq<Vec<usize>>) -> Seq<Seq<int>> {
    v.map_values(|c: Vec<usize>| c@.map_values(|x: usize| x as int))
}

/// `Graph::new` from petgraph: an empty directed graph.
#[verifier::external_body]
pub(crate) fn graph_new() -> (g: Graph<String, (), Directed, u32>)
    ensures
        graph_nodes(g) == Seq::<Seq<char>>::empty(),
        graph_edges(g) == Seq::<(int, int)>::empty(),
{
    Graph::new()
}

/// `Graph::add_node` from petgraph: appends a node with this weight and
/// returns its index, the previous node count. It panics once the node count
/// reaches `u32::MAX`, which `requires` rules out.
#[verifier::external_body]
pub(crate) fn graph_add_node(g: &mut Graph<String, (), Directed, u32>, weight: String) -> (i: usize)
    requires
        graph_nodes(*old(g)).len() < 0xffff_ffff,
    ensures
        i == graph_nodes(*old(g)).len(),
        graph_nodes(*final(g)) == graph_nodes(*old(g)).push(weight@),
        graph_edges(*final(g)) == graph_edges(*old(g)),
{
    g.add_node(weight).index()
}

/// `Graph::add_edge` from petgraph: appends the edge `a -> b` (parallel edges
/// are kept). It panics when a node does not exist or once the edge count
/// reaches `u32::MAX`, which `requires` rules out.
#[verifier::external_body]
pub(crate) fn graph_add_edge(g: &mut Graph<String, (), Directed, u32>, a: usize, b: usize)
    requires
        a < graph_nodes(*old(g)).len(),
        b < graph_nodes(*old(g)).len(),
        graph_edges(*old(g)).len() < 0xffff_ffff,
    ensures
        graph_nodes(*final(g)) == graph_nodes(*old(g)),
        graph_edges(*final(g)) == graph_edges(*old(g)).push((a as int, b as int)),
{
    g.add_edge(NodeIndex::new(a), NodeIndex::new(b), ());
}

/// `Graph::node_count` from petgraph.
#[verifier::external_body]
pub(crate) fn graph_node_count(g: &Graph<String, (), Directed, u32>) -> (r: usize)
    ensures
        r == graph_nodes(*g).len(),
{
    g.node_count()
}

/// `Graph::neighbors_directed` from petgraph, counted: for a directed graph
/// it lists one neighbour per edge leaving (or entering) node `i`, parallel
/// edges included.
#[verifier::external_body]
pub(crate) fn graph_neighbor_count(
    g: &Graph<String, (), Directed, u32>,
    i: usize,
    dir: EdgeDirection,
) -> (r: usize)
    requires
        i < graph_nodes(*g).len(),
    ensures
        r == degree(graph_edges(*g), i as int, dir),
{
    let d = match dir {
        EdgeDirection::Outgoing => Direction::Outgoing,
        EdgeDirection::Incoming => Direction::Incoming,
    };
    g.neighbors_directed(NodeIndex::new(i), d).count()
}

/// `petgraph::algo::tarjan_scc`: the strongly connected components, each a
/// list of node indices, in reverse topological order, as its documentation
/// states. The order of nodes within a component is left unsaid.
#[verifier::external_body]
pub(crate) fn graph_tarjan_scc(g: &Graph<String, (), Directed, u32>) -> (r: Vec<Vec<usize>>)
    ensures
        comps_view(r@) == tarjan_components(graph_nodes(*g).len(), graph_edges(*g)),
        is_scc_decomposition(graph_nodes(*g).len(), graph_edges(*g), comps_view(r@)),
{
    petgraph::algo::tarjan_scc(g).into_iter().map(|c| c.into_iter().map(|i| i.index()).collect()).collect()
}

} // verus!
