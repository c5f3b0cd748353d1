//! The dependency graph of the job manager: petgraph's `DiGraphMap` with `u64` job keys as nodes and `u64`
//! dependency keys as edge weights. An edge `a -> b` with weight `d` says that job `a` depends on job `b` under
//! dependency key `d`.
use vstd::prelude::*;

verus! {

/// petgraph's `GraphMap`, carried through opaquely; its contents are named by [`dependency_edges`].
#[verifier::external_type_specification]
#[verifier::external_body]
#[verifier::reject_recursive_types(N)]
#[verifier::reject_recursive_types(E)]
#[verifier::reject_recursive_types(Ty)]
#[verifier::reject_recursive_types(S)]
pub struct ExGraphMap<N, E, Ty, S: std::hash::BuildHasher>(petgraph::graphmap::GraphMap<N, E, Ty, S>);

/// petgraph's marker type for directed graphs.
#[verifier::external_type_specification]
#[verifier::external_body]
pub struct ExDirected(petgraph::Directed);

/// A directed graph map from job keys to job keys, weighted by dependency keys.
pub type DependencyGraph = petgraph::graphmap::DiGraphMap<u64, u64>;

/// What a dependency graph holds: each node mapped to its outgoing edges, each outgoing edge given as its target
/// mapped to its weight.
pub uninterp spec fn dependency_edges(graph: DependencyGraph) -> Map<u64, Map<u64, u64>>;

/// The outgoing edges of `node`: empty when `node` is not in the graph.
pub open spec fn out_edges(g: Map<u64, Map<u64, u64>>, node: u64) -> Map<u64, u64> {
    if g.contains_key(node) {
        g[node]
    } else {
        Map::empty()
    }
}

/// Whether the graph has an edge from `a` to `b`.
pub open spec fn has_edge(g: Map<u64, Map<u64, u64>>, a: u64, b: u64) -> bool {
    g.contains_key(a) && g[a].contains_key(b)
}

/// Every edge of the graph ends at a node of the graph.
pub open spec fn edges_closed(g: Map<u64, Map<u64, u64>>) -> bool {
    forall|a: u64, b: u64| #[trigger] has_edge(g, a, b) ==> g.contains_key(b)
}

/// The graph with `node` added, without outgoing edges, unless it is already there.
pub open spec fn with_node(g: Map<u64, Map<u64, u64>>, node: u64) -> Map<u64, Map<u64, u64>> {
    if g.contains_key(node) {
        g
    } else {
        g.insert(node, Map::empty())
    }
}

/// The graph with an edge from `a` to `b` of weight `w`, adding `a` and `b` when missing and replacing the
/// weight of an edge that is already there.
pub open spec fn with_edge(g: Map<u64, Map<u64, u64>>, a: u64, b: u64, w: u64) -> Map<u64, Map<u64, u64>> {
    let g0 = with_node(g, b);
    g0.insert(a, out_edges(g0, a).insert(b, w))
}

/// The graph without `node` and without every edge from or to `node`.
pub open spec fn without_node(g: Map<u64, Map<u64, u64>>, node: u64) -> Map<u64, Map<u64, u64>> {
    g.remove(node).map_values(|m: Map<u64, u64>| m.remove(node))
}

/// Creates an empty graph with `DiGraphMap::new`.
#[verifier::external_body]
pub fn graph_new() -> (graph: DependencyGraph)
    ensures
        (dependency_edges(graph) == Map::<u64, Map<u64, u64>>::empty()),
{
    petgraph::graphmap::DiGraphMap::new()
}

/// Calls `GraphMap::add_node`: adds `node` without edges unless it is already in the graph.
#[verifier::external_body]
pub fn graph_add_node(graph: &mut DependencyGraph, node: u64)
    ensures
        dependency_edges(*final(graph)) == with_node(dependency_edges(*old(graph)), node),
{
    graph.add_node(node);
}

/// Calls `GraphMap::add_edge`: adds an edge from `a` to `b` of weight `weight`, adding `a` and `b` when they
/// are missing, and replacing the weight when the edge is already there.
#[verifier::external_body]
pub fn graph_add_edge(graph: &mut DependencyGraph, a: u64, b: u64, weight: u64)
    ensures
        dependency_edges(*final(graph)) == with_edge(dependency_edges(*old(graph)), a, b, weight),
{
    graph.add_edge(a, b, weight);
}

/// Calls `GraphMap::remove_node`: removes `node` with every edge from or to it, returning whether it was there.
#[verifier::external_body]
pub fn graph_remove_node(graph: &mut DependencyGraph, node: u64) -> (removed: bool)
    ensures
        removed == dependency_edges(*old(graph)).contains_key(node),
        dependency_edges(*final(graph)) == without_node(dependency_edges(*old(graph)), node),
{
    graph.remove_node(node)
}

/// Calls `GraphMap::neighbors_directed` with `Incoming` and collects the nodes: every node with an edge to
/// `node`, each once, in an order that this contract leaves open.
#[verifier::external_body]
pub fn graph_incoming(graph: &DependencyGraph, node: u64) -> (nodes: Vec<u64>)
    ensures
        nodes@.no_duplicates(),
        forall|a: u64| nodes@.contains(a) <==> has_edge(dependency_edges(*graph), a, node),
{
    graph.neighbors_directed(node, petgraph::Direction::Incoming).collect()
}

/// Calls `GraphMap::neighbors_directed` with `Outgoing` and collects the nodes: every node that `node` has an
/// edge to, each once, in an order that this contract leaves open.
#[verifier::external_body]
pub fn graph_outgoing(graph: &DependencyGraph, node: u64) -> (nodes: Vec<u64>)
    ensures
        nodes@.no_duplicates(),
        forall|b: u64| nodes@.contains(b) <==> has_edge(dependency_edges(*graph), node, b),
{
    graph.neighbors_directed(node, petgraph::Direction::Outgoing).collect()
}

/// Calls `GraphMap::edge_weight`: the weight of the edge from `a` to `b`, if there is one.
#[verifier::external_body]
pub fn graph_edge_weight(graph: &DependencyGraph, a: u64, b: u64) -> (weight: Option<u64>)
    ensures
        weight == (if has_edge(dependency_edges(*graph), a, b) {
            Some(dependency_edges(*graph)[a][b])
        } else {
            None::<u64>
        }),
{
    graph.edge_weight(a, b).copied()
}

} // verus!
