//! The directed dependency graph, backed by petgraph.
//!
//! The graph itself lives in petgraph's `DiGraph`; this module keeps it
//! behind a small trusted surface. Nodes are numbered 0, 1, 2, ... in
//! insertion order; the contracts speak of the node count and of the edge
//! multiset, and of what `toposort` promises about them.

use vstd::multiset::Multiset;
use vstd::prelude::*;

verus! {

/// The petgraph graph, opaque to the verifier.
#[verifier::external_body]
pub struct PetGraph {
    graph: petgraph::graph::DiGraph<(), ()>,
}

/// How many nodes a graph holds.
pub uninterp spec fn graph_nodes(g: PetGraph) -> int;

/// The edges a graph holds, as (from, to) index pairs, parallel edges
/// counted.
pub uninterp spec fn graph_edges(g: PetGraph) -> Multiset<(int, int)>;

/// Whether a sequence of node indices visits a cycle of the edge multiset:
/// it comes back to its first node and steps only along edges.
pub open spec fn is_cycle(edges: Multiset<(int, int)>, path: Seq<int>) -> bool {
    &&& path.len() >= 2
    &&& path.first() == path.last()
    &&& forall|i: int|
        0 <= i < path.len() - 1 ==> edges.contains((#[trigger] path[i], path[i + 1]))
}

/// Whether the edge multiset contains a cycle (a self loop included).
pub open spec fn has_cycle(edges: Multiset<(int, int)>) -> bool {
    exists|path: Seq<int>| is_cycle(edges, path)
}

/// Whether `order` is a topological order of `n` nodes under `edges`:
/// it lists each of the indices 0 to n-1 exactly once, and every edge goes
/// from an earlier to a later position.
pub open spec fn is_topological_order(n: int, edges: Multiset<(int, int)>, order: Seq<u32>) -> bool {
    &&& order.len() == n
    &&& forall|v: int| 0 <= v < n ==> #[trigger] order.contains(v as u32)
    &&& forall|k: int| 0 <= k < order.len() ==> (#[trigger] order[k]) < n
    &&& forall|i: int, j: int| 0 <= i < j < order.len() ==> order[i] != order[j]
    &&& forall|i: int, j: int|
        0 <= i < order.len() && 0 <= j < order.len() && edges.contains(
            ((#[trigger] order[i]) as int, (#[trigger] order[j]) as int),
        ) ==> i < j
}

/// Relies on petgraph's `DiGraph::new`: the graph starts with no nodes and
/// no edges.
#[verifier::external_body]
pub fn graph_new() -> (g: PetGraph)
    ensures
        graph_nodes(g) == 0,
        graph_edges(g) == Multiset::<(int, int)>::empty(),
{
    PetGraph { graph: petgraph::graph::DiGraph::new() }
}

/// Relies on petgraph's `Graph::add_node`, which appends a node and returns
/// its index; indices count up from zero in insertion order. It panics only
/// at the index type's maximum node count, which the bound below rules out.
#[verifier::external_body]
pub fn graph_add_node(g: &mut PetGraph) -> (idx: u32)
    requires
        graph_nodes(*old(g)) < 0xFFFF_FFFEu32,
    ensures
        idx == graph_nodes(*old(g)),
        graph_nodes(*final(g)) == graph_nodes(*old(g)) + 1,
        graph_edges(*final(g)) == graph_edges(*old(g)),
{
    g.graph.add_node(()).index() as u32
}

/// Relies on petgraph's `Graph::add_edge`, which appends one directed edge;
/// it panics only on an absent node index or at the index type's maximum
/// edge count, which the bounds below rule out.
#[verifier::external_body]
pub fn graph_add_edge(g: &mut PetGraph, from: u32, to: u32)
    requires
        from < graph_nodes(*old(g)),
        to < graph_nodes(*old(g)),
        graph_edges(*old(g)).len() < 0xFFFF_FFFEu32,
    ensures
        graph_nodes(*final(g)) == graph_nodes(*old(g)),
        graph_edges(*final(g)) == graph_edges(*old(g)).insert((from as int, to as int)),
{
    g.graph.add_edge(
        petgraph::graph::NodeIndex::new(from as usize),
        petgraph::graph::NodeIndex::new(to as usize),
        (),
    );
}

/// Relies on petgraph's `algo::toposort`: an acyclic graph yields an order
/// of all its nodes with every node placed before its successors, and a
/// cyclic graph (a self loop included) is reported as the error.
#[verifier::external_body]
pub fn graph_toposort(g: &PetGraph) -> (r: Result<Vec<u32>, ()>)
    ensures
        r matches Ok(order) ==> is_topological_order(graph_nodes(*g), graph_edges(*g), order@),
        r is Ok <==> !has_cycle(graph_edges(*g)),
{
    match petgraph::algo::toposort(&g.graph, None) {
        Ok(order) => Ok(order.into_iter().map(|idx| idx.index() as u32).collect()),
        Err(_) => Err(()),
    }
}

} // verus!
