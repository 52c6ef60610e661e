use vstd::prelude::*;

use petgraph::graphmap::DiGraphMap;

verus! {

#[verifier::external_type_specification]
#[verifier::external_body]
#[verifier::reject_recursive_types(N)]
#[verifier::reject_recursive_types(E)]
#[verifier::reject_recursive_types(Ty)]
#[verifier::reject_recursive_types(S)]
pub struct ExGraphMap<N, E, Ty, S: std::hash::BuildHasher>(petgraph::graphmap::GraphMap<N, E, Ty, S>);

#[verifier::external_type_specification]
#[verifier::external_body]
pub struct ExDirected(petgraph::Directed);

/// The nodes of a directed graph.
pub uninterp spec fn graph_nodes(g: DiGraphMap<u64, ()>) -> Set<u64>;

/// The edges of a directed graph, as (from, to) pairs.
pub uninterp spec fn graph_edges(g: DiGraphMap<u64, ()>) -> Set<(u64, u64)>;

/// `order` lists every node once, and the source of every edge comes
/// before its target.
pub open spec fn is_topological_order(order: Seq<u64>, nodes: Set<u64>, edges: Set<(u64, u64)>) -> bool {
    &&& order.no_duplicates()
    &&& order.to_set() == nodes
    &&& forall|i: int, j: int|
        0 <= i < order.len() && 0 <= j < order.len() && #[trigger] edges.contains((order[i], order[j])) ==> i < j
}

/// Relies on `GraphMap::new`: the graph starts without nodes or edges.
#[verifier::external_body]
pub(crate) fn new_graph() -> (g: DiGraphMap<u64, ()>)
    ensures
        graph_nodes(g) == Set::<u64>::empty(),
        graph_edges(g) == Set::<(u64, u64)>::empty(),
{
    DiGraphMap::new()
}

/// Relies on `GraphMap::add_node`: the node is added if it is missing.
#[verifier::external_body]
pub(crate) fn add_node(g: &mut DiGraphMap<u64, ()>, n: u64)
    ensures
        graph_nodes(*final(g)) == graph_nodes(*old(g)).insert(n),
        graph_edges(*final(g)) == graph_edges(*old(g)),
{
    g.add_node(n);
}

/// Relies on `GraphMap::add_edge`: the edge is added, and its two ends with it.
#[verifier::external_body]
pub(crate) fn add_edge(g: &mut DiGraphMap<u64, ()>, a: u64, b: u64)
    ensures
        graph_nodes(*final(g)) == graph_nodes(*old(g)).insert(a).insert(b),
        graph_edges(*final(g)) == graph_edges(*old(g)).insert((a, b)),
{
    g.add_edge(a, b, ());
}

/// Relies on `petgraph::algo::toposort`: a topological order of the graph,
/// or, when the graph has a cycle and so no such order, a node of it.
#[verifier::external_body]
pub(crate) fn toposort(g: &DiGraphMap<u64, ()>) -> (r: Result<Vec<u64>, u64>)
    ensures
        r matches Ok(o) ==> is_topological_order(o@, graph_nodes(*g), graph_edges(*g)),
        r matches Err(n) ==> graph_nodes(*g).contains(n) && !exists|o: Seq<u64>|
            is_topological_order(o, graph_nodes(*g), graph_edges(*g)),
{
    match petgraph::algo::toposort(g, None) {
        Ok(order) => Ok(order),
        Err(cycle) => Err(cycle.node_id()),
    }
}

} // verus!
