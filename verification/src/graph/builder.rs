//! Building a graph step by step: nodes at once, edges when the graph is built.
use vstd::prelude::*;
use crate::error::LangGraphError;
use crate::json::{JsonValue, object_find, object_insert};
use crate::graph::{
    StateGraph, Node, NodeType, Edge, EdgeType, GraphMetadata, GraphError, start_name, end_name,
    start_str, end_str,
};
use crate::graph::digraph::outgoing;

verus! {

/// An edge to be added when the graph is built.
pub struct PendingEdge {
    /// Name of the source node
    pub from: String,
    /// Name of the target node
    pub to: String,
    /// The edge
    pub edge: Edge,
}

/// Builder for constructing a `StateGraph`.
pub struct GraphBuilder {
    graph: StateGraph,
    pending_edges: Vec<PendingEdge>,
    metadata: GraphMetadata,
}

/// The links that the pending edges `p` add, in order, to a graph whose
/// names find `names` and which has `base` edges already.
pub open spec fn pending_links(
    names: Map<Seq<char>, usize>,
    p: Seq<PendingEdge>,
    base: int,
) -> Seq<(usize, usize, usize)> {
    Seq::new(p.len(), |i: int| (names[p[i].from@], names[p[i].to@], (base + i) as usize))
}

/// The position of the first pending edge with an unknown endpoint, or -1.
pub open spec fn first_unknown(names: Map<Seq<char>, usize>, p: Seq<PendingEdge>) -> int
    decreases p.len(),
{
    if p.len() == 0 {
        -1
    } else {
        let r = first_unknown(names, p.drop_last());
        if r >= 0 {
            r
        } else if !names.contains_key(p.last().from@) || !names.contains_key(p.last().to@) {
            p.len() - 1
        } else {
            -1
        }
    }
}

/// The name at fault in a pending edge: its source if unknown, else its target.
pub open spec fn unknown_end(names: Map<Seq<char>, usize>, e: PendingEdge) -> Seq<char> {
    if !names.contains_key(e.from@) {
        e.from@
    } else {
        e.to@
    }
}

/// The entry point that building sets: the node whose id is that of the
/// target of the edge most recently added from `__start__`; none when
/// `__start__` is missing or has no edge.
pub open spec fn built_entry(g: StateGraph) -> Option<usize> {
    if g.names().contains_key(start_name()) && outgoing(g.links(), g.names()[start_name()]).len()
        > 0 {
        let t = outgoing(g.links(), g.names()[start_name()])[0].0;
        let id = g.node_seq()[t as int].id@;
        if g.names().contains_key(id) {
            Some(g.names()[id])
        } else {
            g.entry()
        }
    } else {
        g.entry()
    }
}

/// `first_unknown` is -1 or the first pending edge with an unknown endpoint.
pub proof fn lemma_first_unknown(names: Map<Seq<char>, usize>, p: Seq<PendingEdge>)
    ensures
        -1 <= first_unknown(names, p) < p.len(),
        forall|j: int|
            0 <= j < p.len() && (first_unknown(names, p) < 0 || j < first_unknown(names, p))
                ==> names.contains_key((#[trigger] p[j]).from@) && names.contains_key(p[j].to@),
        first_unknown(names, p) >= 0 ==> !names.contains_key(p[first_unknown(names, p)].from@)
            || !names.contains_key(p[first_unknown(names, p)].to@),
    decreases p.len(),
{
    if p.len() > 0 {
        let d = p.drop_last();
        lemma_first_unknown(names, d);
        assert forall|j: int|
            0 <= j < p.len() && (first_unknown(names, p) < 0 || j < first_unknown(names, p))
                implies names.contains_key((#[trigger] p[j]).from@) && names.contains_key(p[j].to@) by {
            if j < d.len() {
                assert(d[j] == p[j]);
            }
        }
    }
}

impl GraphBuilder {
    /// The graph built so far (nodes only).
    pub closed spec fn graph_spec(&self) -> StateGraph {
        self.graph
    }

    /// The edges still to add, in order.
    pub closed spec fn pending(&self) -> Seq<PendingEdge> {
        self.pending_edges@
    }

    /// The metadata that the built graph will carry.
    pub closed spec fn meta(&self) -> GraphMetadata {
        self.metadata
    }

    /// Soundness: the graph is well formed and has no edges yet.
    pub closed spec fn wf(&self) -> bool {
        &&& self.graph.wf()
        &&& self.graph.links().len() == 0
        &&& self.graph.edge_seq().len() == 0
        &&& self.graph.entry() is None
    }

    /// A builder whose graph holds the `__start__` and `__end__` nodes.
    pub fn new(name: String) -> (b: GraphBuilder)
        ensures
            b.wf(),
            b.graph_spec().node_seq().len() == 2,
            b.graph_spec().node_seq()[0].id@ == start_name(),
            b.graph_spec().node_seq()[0].node_type == NodeType::Start,
            b.graph_spec().node_seq()[1].id@ == end_name(),
            b.graph_spec().node_seq()[1].node_type == NodeType::End,
            b.graph_spec().names() == Map::<Seq<char>, usize>::empty().insert(start_name(), 0usize).insert(
                end_name(),
                1usize,
            ),
            b.pending().len() == 0,
            b.meta().name@ == name@,
            b.meta().version@ == seq!['0', '.', '1', '.', '0'],
            b.meta().description is None,
            b.meta().extra is None,
    {
        let mut graph = StateGraph::new(crate::json::copy_string(&name));
        graph.add_node(Node { id: start_str(), node_type: NodeType::Start, metadata: None });
        graph.add_node(Node { id: end_str(), node_type: NodeType::End, metadata: None });
        let mut version = String::new();
        crate::text::push_str(&mut version, "0.1.0");
        proof {
            reveal_strlit("0.1.0");
        }
        GraphBuilder {
            graph,
            pending_edges: Vec::new(),
            metadata: GraphMetadata { name, version, description: None, extra: None },
        }
    }

    /// Adds a node without metadata.
    pub fn add_node(self, id: String, node_type: NodeType) -> (b: GraphBuilder)
        requires
            self.wf(),
            self.graph_spec().node_seq().len() < u32::MAX,
        ensures
            b.wf(),
            b.graph_spec().node_seq() == self.graph_spec().node_seq().push(
                Node { id, node_type, metadata: None },
            ),
            b.graph_spec().names() == self.graph_spec().names().insert(
                id@,
                self.graph_spec().node_seq().len() as usize,
            ),
            b.pending() == self.pending(),
            b.meta() == self.meta(),
    {
        let mut b = self;
        b.graph.add_node(Node { id, node_type, metadata: None });
        b
    }

    /// Adds a node with metadata.
    pub fn add_node_with_metadata(self, id: String, node_type: NodeType, metadata: JsonValue) -> (b:
        GraphBuilder)
        requires
            self.wf(),
            self.graph_spec().node_seq().len() < u32::MAX,
        ensures
            b.wf(),
            b.graph_spec().node_seq() == self.graph_spec().node_seq().push(
                Node { id, node_type, metadata: Some(metadata) },
            ),
            b.graph_spec().names() == self.graph_spec().names().insert(
                id@,
                self.graph_spec().node_seq().len() as usize,
            ),
            b.pending() == self.pending(),
            b.meta() == self.meta(),
    {
        let mut b = self;
        b.graph.add_node(Node { id, node_type, metadata: Some(metadata) });
        b
    }

    /// Queues a direct edge.
    pub fn add_edge(self, from: String, to: String) -> (b: GraphBuilder)
        requires
            self.wf(),
        ensures
            b.wf(),
            b.graph_spec() == self.graph_spec(),
            b.pending().len() == self.pending().len() + 1,
            b.pending().drop_last() == self.pending(),
            b.pending().last().from == from,
            b.pending().last().to == to,
            b.pending().last().edge.edge_type is Direct,
            b.pending().last().edge.metadata is None,
            b.meta() == self.meta(),
    {
        let mut b = self;
        b.pending_edges.push(PendingEdge { from, to, edge: Edge::direct() });
        assert(b.pending_edges@.drop_last() =~= self.pending_edges@);
        b
    }

    /// Queues a conditional edge whose target is `to`.
    pub fn add_conditional_edge(self, from: String, condition: String, to: String) -> (b:
        GraphBuilder)
        requires
            self.wf(),
        ensures
            b.wf(),
            b.graph_spec() == self.graph_spec(),
            b.pending().len() == self.pending().len() + 1,
            b.pending().drop_last() == self.pending(),
            b.pending().last().from == from,
            b.pending().last().to == to,
            b.pending().last().edge.edge_type matches EdgeType::Conditional(c) && c.condition
                == condition && c.target@ == to@ && c.fallback is None,
            b.meta() == self.meta(),
    {
        let target = crate::json::copy_string(&to);
        let mut b = self;
        b.pending_edges.push(PendingEdge { from, to, edge: Edge::conditional(condition, target) });
        assert(b.pending_edges@.drop_last() =~= self.pending_edges@);
        b
    }

    /// Queues a conditional edge with a fallback target.
    pub fn add_conditional_edge_with_fallback(
        self,
        from: String,
        condition: String,
        to: String,
        fallback: String,
    ) -> (b: GraphBuilder)
        requires
            self.wf(),
        ensures
            b.wf(),
            b.graph_spec() == self.graph_spec(),
            b.pending().len() == self.pending().len() + 1,
            b.pending().drop_last() == self.pending(),
            b.pending().last().from == from,
            b.pending().last().to == to,
            b.pending().last().edge.edge_type matches EdgeType::Conditional(c) && c.condition
                == condition && c.target@ == to@ && c.fallback == Some(fallback),
            b.meta() == self.meta(),
    {
        let target = crate::json::copy_string(&to);
        let mut b = self;
        b.pending_edges.push(
            PendingEdge {
                from,
                to,
                edge: Edge::conditional_with_fallback(condition, target, fallback),
            },
        );
        assert(b.pending_edges@.drop_last() =~= self.pending_edges@);
        b
    }

    /// Queues a direct edge from `__start__` to `node`; when `node` is
    /// `__start__` itself, which is where a run begins anyway, nothing is
    /// queued, so that no edge leads from `__start__` back to itself.
    pub fn set_entry_point(self, node: String) -> (b: GraphBuilder)
        requires
            self.wf(),
        ensures
            b.wf(),
            b.graph_spec() == self.graph_spec(),
            b.meta() == self.meta(),
            node@ == start_name() ==> b.pending() == self.pending(),
            node@ != start_name() ==> {
                &&& b.pending().len() == self.pending().len() + 1
                &&& b.pending().drop_last() == self.pending()
                &&& b.pending().last().from@ == start_name()
                &&& b.pending().last().to == node
                &&& b.pending().last().edge.edge_type is Direct
            },
    {
        let start = start_str();
        if crate::text::str_eq(node.as_str(), start.as_str()) {
            return self;
        }
        let mut b = self;
        b.pending_edges.push(PendingEdge { from: start, to: node, edge: Edge::direct() });
        assert(b.pending_edges@.drop_last() =~= self.pending_edges@);
        b
    }

    /// Sets `key` of the metadata's extra object to `value`, creating an
    /// empty object first when there is none.
    pub fn with_metadata(self, key: String, value: JsonValue) -> (b: GraphBuilder)
        requires
            self.wf(),
        ensures
            b.wf(),
            b.graph_spec() == self.graph_spec(),
            b.pending() == self.pending(),
            b.meta().name == self.meta().name,
            b.meta().version == self.meta().version,
            b.meta().description == self.meta().description,
            self.meta().extra is None ==> (b.meta().extra matches Some(JsonValue::Object(o)) && o@
                == seq![(key, value)]),
            self.meta().extra matches Some(JsonValue::Object(o)) ==> (b.meta().extra matches Some(
                JsonValue::Object(o2),
            ) && (object_find(o@, key@) >= 0 ==> o2@ == o@.update(object_find(o@, key@), (key, value)))
                && (object_find(o@, key@) < 0 ==> o2@ == o@.push((key, value)))),
            (self.meta().extra is Some && !(self.meta().extra matches Some(JsonValue::Object(_))))
                ==> b.meta().extra == self.meta().extra,
    {
        let GraphBuilder { graph, pending_edges, metadata } = self;
        let GraphMetadata { name, version, description, extra } = metadata;
        let new_extra = match extra {
            None => {
                let mut o: Vec<(String, JsonValue)> = Vec::new();
                object_insert(&mut o, key, value);
                Some(JsonValue::Object(o))
            },
            Some(JsonValue::Object(o)) => {
                let mut o = o;
                object_insert(&mut o, key, value);
                Some(JsonValue::Object(o))
            },
            Some(other) => Some(other),
        };
        GraphBuilder {
            graph,
            pending_edges,
            metadata: GraphMetadata { name, version, description, extra: new_extra },
        }
    }

    /// Sets the description.
    pub fn with_description(self, description: String) -> (b: GraphBuilder)
        requires
            self.wf(),
        ensures
            b.wf(),
            b.graph_spec() == self.graph_spec(),
            b.pending() == self.pending(),
            b.meta().name == self.meta().name,
            b.meta().version == self.meta().version,
            b.meta().description == Some(description),
            b.meta().extra == self.meta().extra,
    {
        let mut b = self;
        b.metadata.description = Some(description);
        b
    }

    /// Sets the version.
    pub fn with_version(self, version: String) -> (b: GraphBuilder)
        requires
            self.wf(),
        ensures
            b.wf(),
            b.graph_spec() == self.graph_spec(),
            b.pending() == self.pending(),
            b.meta().name == self.meta().name,
            b.meta().version == version,
            b.meta().description == self.meta().description,
            b.meta().extra == self.meta().extra,
    {
        let mut b = self;
        b.metadata.version = version;
        b
    }

    /// Adds the queued edges in order and sets the entry point to the target
    /// of the edge added last from `__start__`. Fails with `NodeNotFound` at
    /// the first queued edge that names an unknown node.
    pub fn build(self) -> (r: Result<StateGraph, LangGraphError>)
        requires
            self.wf(),
            self.pending().len() < u32::MAX,
        ensures
            ({
                let names = self.graph_spec().names();
                let k = first_unknown(names, self.pending());
                &&& r is Ok <==> k < 0
                &&& k >= 0 ==> (r matches Err(LangGraphError::Graph(GraphError::NodeNotFound(n)))
                    && n@ == unknown_end(names, self.pending()[k]))
                &&& r matches Ok(g) ==> {
                    &&& g.wf()
                    &&& g.node_seq() == self.graph_spec().node_seq()
                    &&& g.names() == names
                    &&& g.name_order() == self.graph_spec().name_order()
                    &&& g.links() == pending_links(names, self.pending(), 0)
                    &&& g.edge_seq().len() == self.pending().len()
                    &&& forall|i: int|
                        0 <= i < self.pending().len() ==> #[trigger] g.edge_seq()[i]
                            == self.pending()[i].edge
                    &&& g.entry() == built_entry(g)
                    &&& g.meta() == self.meta()
                    &&& g.edges_by_name()
                }
            }),
    {
        let ghost names = self.graph.names();
        let ghost pend = self.pending_edges@;
        let ghost g_in = self.graph;
        proof {
            lemma_first_unknown(names, pend);
        }
        let GraphBuilder { graph, pending_edges, metadata } = self;
        let mut graph = graph;
        let mut pending_edges = pending_edges;
        let n = pending_edges.len();
        let mut edges_rev: Vec<PendingEdge> = Vec::new();
        // Reverse so that popping yields the queued edges in order.
        while pending_edges.len() > 0
            invariant
                pending_edges@.len() + edges_rev@.len() == n,
                pend.len() == n,
                forall|j: int|
                    0 <= j < pending_edges@.len() ==> #[trigger] pending_edges@[j] == pend[j],
                forall|j: int|
                    0 <= j < edges_rev@.len() ==> #[trigger] edges_rev@[j] == pend[n - 1 - j],
            decreases pending_edges@.len(),
        {
            let e = pending_edges.pop().unwrap();
            edges_rev.push(e);
        }
        let mut i: usize = 0;
        while i < n
            invariant
                graph.wf(),
                i <= n,
                n == pend.len(),
                pend == self.pending(),
                names == self.graph_spec().names(),
                g_in == self.graph_spec(),
                n < u32::MAX,
                edges_rev@.len() == n - i,
                forall|j: int|
                    0 <= j < edges_rev@.len() ==> #[trigger] edges_rev@[j] == pend[n - 1 - j],
                graph.names() == names,
                graph.node_seq() == g_in.node_seq(),
                graph.name_order() == g_in.name_order(),
                graph.entry() is None,
                graph.meta() == g_in.meta(),
                graph.links() == pending_links(names, pend.take(i as int), 0),
                graph.edge_seq().len() == i,
                forall|j: int| 0 <= j < i ==> #[trigger] graph.edge_seq()[j] == pend[j].edge,
                forall|j: int|
                    0 <= j < n && (first_unknown(names, pend) < 0 || j < first_unknown(names, pend))
                        ==> names.contains_key((#[trigger] pend[j]).from@) && names.contains_key(
                        pend[j].to@,
                    ),
                first_unknown(names, pend) >= 0 ==> i <= first_unknown(names, pend),
                -1 <= first_unknown(names, pend) < n,
                first_unknown(names, pend) >= 0 ==> !names.contains_key(
                    pend[first_unknown(names, pend)].from@,
                ) || !names.contains_key(pend[first_unknown(names, pend)].to@),
            decreases n - i,
        {
            let e = edges_rev.pop().unwrap();
            assert(e == pend[i as int]);
            let PendingEdge { from, to, edge } = e;
            let ghost old_links = graph.links();
            match graph.add_edge(from.as_str(), to.as_str(), edge) {
                Ok(()) => {},
                Err(err) => {
                    proof {
                        assert(!names.contains_key(pend[i as int].from@) || !names.contains_key(
                            pend[i as int].to@,
                        ));
                        assert(first_unknown(names, pend) == i);
                        assert(from@ == pend[i as int].from@);
                        assert(to@ == pend[i as int].to@);
                        assert(err matches LangGraphError::Graph(GraphError::NodeNotFound(nn)) && nn@
                            == unknown_end(names, pend[i as int]));
                    }
                    return Err(err);
                },
            }
            assert(pend.take(i + 1).drop_last() =~= pend.take(i as int));
            assert(pending_links(names, pend.take(i + 1), 0) =~= pending_links(
                names,
                pend.take(i as int),
                0,
            ).push((names[from@], names[to@], i as usize)));
            i = i + 1;
        }
        assert(pend.take(n as int) =~= pend);
        proof {
            assert forall|e: int| 0 <= e < graph.links().len() implies #[trigger] graph.canon(graph.links()[e].1)
                == graph.links()[e].1 by {
                assert(graph.links()[e].1 == names[pend[e].to@]);
                assert(names.contains_key(pend[e].to@));
                graph.lemma_names_canonical(pend[e].to@);
            }
        }
        graph.set_metadata(metadata);
        let start = start_str();
        let ghost g0 = graph;
        let target = match graph.index_of(start.as_str()) {
            Some(s) => {
                let out = graph.edges_from_index(s);
                if out.len() > 0 {
                    Some(out[0].0)
                } else {
                    None
                }
            },
            None => None,
        };
        match target {
            Some(t) => {
                let id = crate::json::copy_string(&graph.node_at(t).id);
                match graph.set_entry_point(id.as_str()) {
                    Ok(()) => {},
                    Err(_) => {},
                }
            },
            None => {},
        }
        Ok(graph)
    }
}

} // verus!
