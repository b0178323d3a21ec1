//! The directed graph underneath a workflow: `petgraph`'s `DiGraph`, whose
//! node weights are positions in the workflow's node list and whose edge
//! weights are positions in its edge list.
//!
//! What `petgraph` computes is stated here over two names: the node weights
//! in index order and the edges `(source, target, weight)` in index order.
use vstd::prelude::*;
use petgraph::graph::{DiGraph, NodeIndex};
use petgraph::visit::EdgeRef;

verus! {

#[verifier::external_type_specification]
#[verifier::external_body]
#[verifier::reject_recursive_types(N)]
#[verifier::reject_recursive_types(E)]
#[verifier::reject_recursive_types(Ty)]
#[verifier::reject_recursive_types(Ix)]
pub struct ExGraph<N, E, Ty, Ix>(petgraph::graph::Graph<N, E, Ty, Ix>);

#[verifier::external_type_specification]
#[verifier::external_body]
pub struct ExDirected(petgraph::Directed);

/// The node weights of a graph, node index by node index.
pub uninterp spec fn node_weights(g: DiGraph<usize, usize>) -> Seq<usize>;

/// The edges of a graph as `(source, target, weight)`, edge index by edge index.
pub uninterp spec fn edge_list(g: DiGraph<usize, usize>) -> Seq<(usize, usize, usize)>;

/// The edges leaving `a`, as `(target, weight)`, the most recently added first.
pub open spec fn outgoing(es: Seq<(usize, usize, usize)>, a: usize) -> Seq<(usize, usize)>
    decreases es.len(),
{
    if es.len() == 0 {
        Seq::empty()
    } else {
        let e = es.last();
        let rest = outgoing(es.drop_last(), a);
        if e.0 == a {
            seq![(e.1, e.2)] + rest
        } else {
            rest
        }
    }
}

/// Whether some edge ends at `a`.
pub open spec fn has_incoming(es: Seq<(usize, usize, usize)>, a: usize) -> bool {
    exists|i: int| 0 <= i < es.len() && es[i].1 == a
}

/// Whether the edge indices `p` form a walk: each edge starts where the
/// previous one ends.
pub open spec fn is_walk(es: Seq<(usize, usize, usize)>, p: Seq<int>) -> bool {
    &&& p.len() > 0
    &&& forall|i: int| 0 <= i < p.len() ==> 0 <= #[trigger] p[i] < es.len()
    &&& forall|i: int| 0 <= i < p.len() - 1 ==> es[#[trigger] p[i]].1 == es[p[i + 1]].0
}

/// Whether the edges contain a cycle: a walk that ends where it starts.
pub open spec fn has_cycle(es: Seq<(usize, usize, usize)>) -> bool {
    exists|p: Seq<int>| is_walk(es, p) && es[p.last()].1 == es[p[0]].0
}

/// `DiGraph::new`: a graph with no nodes and no edges.
#[verifier::external_body]
pub(crate) fn graph_new() -> (g: DiGraph<usize, usize>)
    ensures
        node_weights(g) == Seq::<usize>::empty(),
        edge_list(g) == Seq::<(usize, usize, usize)>::empty(),
{
    DiGraph::new()
}

/// `Graph::add_node`: appends a node with weight `w`; its index is the old
/// node count. The call panics once the count reaches the index type's
/// maximum, which `requires` rules out.
#[verifier::external_body]
pub(crate) fn graph_add_node(g: &mut DiGraph<usize, usize>, w: usize) -> (i: usize)
    requires
        node_weights(*old(g)).len() < u32::MAX,
    ensures
        i == node_weights(*old(g)).len(),
        node_weights(*final(g)) == node_weights(*old(g)).push(w),
        edge_list(*final(g)) == edge_list(*old(g)),
{
    g.add_node(w).index()
}

/// `Graph::add_edge`: appends the edge `a -> b` with weight `w`. The call
/// panics on a missing node or once the edge count reaches the index type's
/// maximum, which `requires` rules out.
#[verifier::external_body]
pub(crate) fn graph_add_edge(g: &mut DiGraph<usize, usize>, a: usize, b: usize, w: usize)
    requires
        a < node_weights(*old(g)).len(),
        b < node_weights(*old(g)).len(),
        edge_list(*old(g)).len() < u32::MAX,
    ensures
        node_weights(*final(g)) == node_weights(*old(g)),
        edge_list(*final(g)) == edge_list(*old(g)).push((a, b, w)),
{
    g.add_edge(NodeIndex::new(a), NodeIndex::new(b), w);
}

/// `Graph::edges`: the edges leaving `a` as `(target, weight)`; for a
/// directed graph they come in reverse order of their addition.
#[verifier::external_body]
pub(crate) fn graph_edges_from(g: &DiGraph<usize, usize>, a: usize) -> (v: Vec<(usize, usize)>)
    requires
        a < node_weights(*g).len(),
    ensures
        v@ == outgoing(edge_list(*g), a),
{
    g.edges(NodeIndex::new(a)).map(|e| (e.target().index(), *e.weight())).collect()
}

/// `Graph::edges_directed` with `Incoming`, asked whether it yields anything:
/// whether some edge ends at `a`.
#[verifier::external_body]
pub(crate) fn graph_has_incoming(g: &DiGraph<usize, usize>, a: usize) -> (r: bool)
    requires
        a < node_weights(*g).len(),
    ensures
        r == has_incoming(edge_list(*g), a),
{
    g.edges_directed(NodeIndex::new(a), petgraph::Direction::Incoming).next().is_some()
}

/// `petgraph::algo::is_cyclic_directed`: whether the graph contains a cycle.
#[verifier::external_body]
pub(crate) fn graph_is_cyclic(g: &DiGraph<usize, usize>) -> (r: bool)
    ensures
        r == has_cycle(edge_list(*g)),
{
    petgraph::algo::is_cyclic_directed(g)
}

} // verus!
