//! The directed graph under a navigation mesh.
//!
//! Nodes are grid positions, written as triples of coordinates; an edge
//! carries the speed at which it is travelled.

use petgraph::graphmap::DiGraphMap;
use vstd::prelude::*;

verus! {

/// A node of the graph: the coordinates of a grid position.
pub type NodeKey = (i32, i32, i32);

/// The graph type of the `petgraph` crate, keyed by its nodes.
#[verifier::external_type_specification]
#[verifier::external_body]
#[verifier::reject_recursive_types(N)]
#[verifier::reject_recursive_types(E)]
#[verifier::reject_recursive_types(Ty)]
#[verifier::reject_recursive_types(S)]
pub struct ExGraphMap<N, E, Ty, S: std::hash::BuildHasher>(
    petgraph::graphmap::GraphMap<N, E, Ty, S>,
);

/// The marker of `petgraph` for graphs with directed edges.
#[verifier::external_type_specification]
#[verifier::external_body]
pub struct ExDirected(petgraph::Directed);

/// The nodes that a graph holds.
pub uninterp spec fn mesh_nodes(graph: DiGraphMap<NodeKey, u32>) -> Set<NodeKey>;

/// The edges that a graph holds, each with its weight.
pub uninterp spec fn mesh_edges(graph: DiGraphMap<NodeKey, u32>) -> Map<(NodeKey, NodeKey), u32>;

/// The edges that do not touch the node.
pub open spec fn edges_without(edges: Map<(NodeKey, NodeKey), u32>, node: NodeKey) -> Map<
    (NodeKey, NodeKey),
    u32,
> {
    edges.remove_keys(Set::new(|e: (NodeKey, NodeKey)| e.0 == node || e.1 == node))
}

/// True when the list names the edges that leave `from`, each once, with
/// their weights.
pub open spec fn lists_edges_from(
    edges: Map<(NodeKey, NodeKey), u32>,
    from: NodeKey,
    list: Seq<(NodeKey, u32)>,
) -> bool {
    &&& forall|i: int|
        0 <= i < list.len() ==> edges.contains_key((from, (#[trigger] list[i]).0)) && edges[(
            from,
            list[i].0,
        )] == list[i].1
    &&& forall|i: int, j: int|
        0 <= i < j < list.len() ==> (#[trigger] list[i]).0 != (#[trigger] list[j]).0
    &&& forall|to: NodeKey| #[trigger]
        edges.contains_key((from, to)) ==> exists|i: int|
            0 <= i < list.len() && (#[trigger] list[i]).0 == to
}

/// The graph without nodes.
pub open spec fn no_nodes() -> Set<NodeKey> {
    Set::empty()
}

/// The graph without edges.
pub open spec fn no_edges() -> Map<(NodeKey, NodeKey), u32> {
    Map::empty()
}

/// Calls `GraphMap::new`: a graph without nodes and edges.
#[verifier::external_body]
pub(crate) fn graph_new() -> (graph: DiGraphMap<NodeKey, u32>)
    ensures
        mesh_nodes(graph) == no_nodes(),
        mesh_edges(graph) == no_edges(),
{
    DiGraphMap::new()
}

/// Calls `GraphMap::add_node`: the node joins the graph if it is not there,
/// and the edges stay.
#[verifier::external_body]
pub(crate) fn graph_add_node(graph: &mut DiGraphMap<NodeKey, u32>, node: NodeKey)
    ensures
        mesh_nodes(*final(graph)) == mesh_nodes(*old(graph)).insert(node),
        mesh_edges(*final(graph)) == mesh_edges(*old(graph)),
{
    graph.add_node(node);
}

/// Calls `GraphMap::remove_node`: the node leaves the graph, and with it
/// every edge from or to it. The result says whether the node was there.
#[verifier::external_body]
pub(crate) fn graph_remove_node(graph: &mut DiGraphMap<NodeKey, u32>, node: NodeKey) -> (removed:
    bool)
    ensures
        removed == mesh_nodes(*old(graph)).contains(node),
        mesh_nodes(*final(graph)) == mesh_nodes(*old(graph)).remove(node),
        mesh_edges(*final(graph)) == edges_without(mesh_edges(*old(graph)), node),
{
    graph.remove_node(node)
}

/// Calls `GraphMap::contains_node`: whether the graph holds the node.
#[verifier::external_body]
pub(crate) fn graph_contains_node(graph: &DiGraphMap<NodeKey, u32>, node: NodeKey) -> (held: bool)
    ensures
        held == mesh_nodes(*graph).contains(node),
{
    graph.contains_node(node)
}

/// Calls `GraphMap::add_edge`: afterwards the graph holds the edge from `a`
/// to `b` with the given weight, and both nodes. The result is the weight
/// that the edge had before.
#[verifier::external_body]
pub(crate) fn graph_add_edge(
    graph: &mut DiGraphMap<NodeKey, u32>,
    a: NodeKey,
    b: NodeKey,
    weight: u32,
) -> (previous: Option<u32>)
    ensures
        previous == (if mesh_edges(*old(graph)).contains_key((a, b)) {
            Some(mesh_edges(*old(graph))[(a, b)])
        } else {
            None
        }),
        mesh_nodes(*final(graph)) == mesh_nodes(*old(graph)).insert(a).insert(b),
        mesh_edges(*final(graph)) == mesh_edges(*old(graph)).insert((a, b), weight),
{
    graph.add_edge(a, b, weight)
}

/// Collects what `GraphMap::edges` visits: for every edge that leaves
/// `from`, once, its target and its weight.
#[verifier::external_body]
pub(crate) fn graph_edges_from(graph: &DiGraphMap<NodeKey, u32>, from: NodeKey) -> (list: Vec<
    (NodeKey, u32),
>)
    ensures
        lists_edges_from(mesh_edges(*graph), from, list@),
{
    graph.edges(from).map(|edge| (edge.1, *edge.2)).collect()
}

} // verus!
