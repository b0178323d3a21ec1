//! Graphs of nodes and edges: the workflow structure, its builder, and the
//! rules that evaluate conditions and route between nodes.
use vstd::prelude::*;
use petgraph::graph::DiGraph;
use crate::error::LangGraphError;
use crate::json::JsonValue;
use crate::keyed_map::StrMap;
use crate::text::str_eq;

pub mod digraph;
pub mod builder;
pub mod condition;
pub mod conditional;

pub mod subgraph;
pub mod command;
pub mod state_graph;

use digraph::{
    node_weights, edge_list, outgoing, has_incoming, has_cycle, graph_new, graph_add_node,
    graph_add_edge, graph_edges_from, graph_has_incoming, graph_is_cyclic,
};

verus! {

/// Errors specific to graph operations.
#[derive(Debug)]
pub enum GraphError {
    /// No node with this name.
    NodeNotFound(String),
    /// No edge between these nodes.
    EdgeNotFound { from: String, to: String },
    /// The graph has a cycle.
    CycleDetected,
    /// The graph is not shaped as a workflow must be.
    InvalidStructure(String),
    /// These nodes cannot be reached by any edge.
    OrphanedNode(String),
    /// A node failed.
    NodeError(String),
    /// An edge is malformed.
    EdgeError(String),
    /// The graph failed validation.
    ValidationError(String),
    /// Something went wrong at run time.
    RuntimeError(String),
    /// A value could not be (de)serialised.
    SerializationError(String),
}

/// Types of nodes supported in the graph.
#[derive(Debug, Clone, PartialEq, Eq)]
pub enum NodeType {
    /// Start node of the graph
    Start,
    /// End node of the graph
    End,
    /// Agent node that performs actions
    Agent(String),
    /// Conditional node for branching
    Conditional,
    /// Parallel execution node
    Parallel,
    /// Tool node for external integrations
    Tool(String),
    /// Subgraph node
    Subgraph(String),
    /// Custom node type
    Custom(String),
}

/// A node in the graph.
#[derive(Debug)]
pub struct Node {
    /// Unique identifier for the node
    pub id: String,
    /// Type of the node
    pub node_type: NodeType,
    /// Optional metadata
    pub metadata: Option<JsonValue>,
}

/// Conditional edge with routing logic.
#[derive(Debug, PartialEq)]
pub struct ConditionalEdge {
    /// Condition name or expression
    pub condition: String,
    /// Target node if condition is true
    pub target: String,
    /// Optional fallback target
    pub fallback: Option<String>,
}

/// Types of edges supported in the graph.
#[derive(Debug, PartialEq)]
pub enum EdgeType {
    /// Direct edge: always traversed
    Direct,
    /// Conditional edge: traversed based on condition
    Conditional(ConditionalEdge),
    /// Parallel edge: for parallel execution
    Parallel,
}

/// An edge in the graph.
#[derive(Debug)]
pub struct Edge {
    /// Type of the edge
    pub edge_type: EdgeType,
    /// Optional metadata
    pub metadata: Option<JsonValue>,
}

impl Edge {
    /// A direct edge without metadata.
    pub fn direct() -> (e: Edge)
        ensures
            e.edge_type is Direct,
            e.metadata is None,
    {
        Edge { edge_type: EdgeType::Direct, metadata: None }
    }

    /// A conditional edge without fallback.
    pub fn conditional(condition: String, target: String) -> (e: Edge)
        ensures
            e.edge_type matches EdgeType::Conditional(c) && c.condition == condition
                && c.target == target && c.fallback is None,
            e.metadata is None,
    {
        Edge {
            edge_type: EdgeType::Conditional(ConditionalEdge { condition, target, fallback: None }),
            metadata: None,
        }
    }

    /// A conditional edge with a fallback target.
    pub fn conditional_with_fallback(condition: String, target: String, fallback: String) -> (e:
        Edge)
        ensures
            e.edge_type matches EdgeType::Conditional(c) && c.condition == condition
                && c.target == target && c.fallback == Some(fallback),
            e.metadata is None,
    {
        Edge {
            edge_type: EdgeType::Conditional(
                ConditionalEdge { condition, target, fallback: Some(fallback) },
            ),
            metadata: None,
        }
    }

    /// A parallel edge without metadata.
    pub fn parallel() -> (e: Edge)
        ensures
            e.edge_type is Parallel,
            e.metadata is None,
    {
        Edge { edge_type: EdgeType::Parallel, metadata: None }
    }

    /// This edge with the given metadata.
    pub fn with_metadata(self, metadata: JsonValue) -> (e: Edge)
        ensures
            e.edge_type == self.edge_type,
            e.metadata == Some(metadata),
    {
        Edge { edge_type: self.edge_type, metadata: Some(metadata) }
    }
}

/// Metadata associated with a graph.
#[derive(Debug)]
pub struct GraphMetadata {
    /// Graph name
    pub name: String,
    /// Graph version
    pub version: String,
    /// Graph description
    pub description: Option<String>,
    /// Additional metadata as JSON
    pub extra: Option<JsonValue>,
}

/// The workflow graph: named nodes joined by edges, with an entry point.
///
/// Nodes are found by name; a node added under a name that is already
/// taken becomes the one that the name finds.
pub struct StateGraph {
    graph: DiGraph<usize, usize>,
    nodes: Vec<Node>,
    edges: Vec<Edge>,
    node_map: StrMap<usize>,
    entry_point: Option<usize>,
    metadata: GraphMetadata,
}

/// The name `__start__` of the start node.
pub open spec fn start_name() -> Seq<char> {
    seq!['_', '_', 's', 't', 'a', 'r', 't', '_', '_']
}

/// The name `__end__` of the end node.
pub open spec fn end_name() -> Seq<char> {
    seq!['_', '_', 'e', 'n', 'd', '_', '_']
}

/// The string `__start__`.
pub fn start_str() -> (s: String)
    ensures
        s@ == start_name(),
{
    let mut s = String::new();
    crate::text::push_char(&mut s, '_');
    crate::text::push_char(&mut s, '_');
    crate::text::push_char(&mut s, 's');
    crate::text::push_char(&mut s, 't');
    crate::text::push_char(&mut s, 'a');
    crate::text::push_char(&mut s, 'r');
    crate::text::push_char(&mut s, 't');
    crate::text::push_char(&mut s, '_');
    crate::text::push_char(&mut s, '_');
    assert(s@ =~= start_name());
    s
}

/// The string `__end__`.
pub fn end_str() -> (s: String)
    ensures
        s@ == end_name(),
{
    let mut s = String::new();
    crate::text::push_char(&mut s, '_');
    crate::text::push_char(&mut s, '_');
    crate::text::push_char(&mut s, 'e');
    crate::text::push_char(&mut s, 'n');
    crate::text::push_char(&mut s, 'd');
    crate::text::push_char(&mut s, '_');
    crate::text::push_char(&mut s, '_');
    assert(s@ =~= end_name());
    s
}

impl StateGraph {
    /// Structural soundness: node weights are positions, edges join existing
    /// nodes and carry their own position, and each name finds a node with
    /// that id.
    pub closed spec fn wf(&self) -> bool {
        &&& node_weights(self.graph) == Seq::new(self.nodes@.len(), |i: int| i as usize)
        &&& edge_list(self.graph).len() == self.edges@.len()
        &&& self.nodes@.len() <= u32::MAX
        &&& self.edges@.len() <= u32::MAX
        &&& forall|i: int|
            0 <= i < edge_list(self.graph).len() ==> {
                let e = #[trigger] edge_list(self.graph)[i];
                &&& e.0 < self.nodes@.len()
                &&& e.1 < self.nodes@.len()
                &&& e.2 == i
            }
        &&& forall|k: Seq<char>|
            #[trigger] self.node_map.map().contains_key(k) ==> {
                &&& self.node_map.map()[k] < self.nodes@.len()
                &&& self.nodes@[self.node_map.map()[k] as int].id@ == k
            }
        &&& forall|i: int|
            0 <= i < self.nodes@.len() ==> #[trigger] self.node_map.map().contains_key(
                self.nodes@[i].id@,
            )
        &&& self.entry_point matches Some(i) ==> i < self.nodes@.len()
    }

    /// The index that node `i`'s id finds: `i` itself unless a later node
    /// took over the name.
    pub open spec fn canon(&self, i: usize) -> usize {
        self.names()[self.node_seq()[i as int].id@]
    }

    /// The nodes that the edges leaving node `a` lead to, taken by name, the
    /// most recently added edge first.
    pub open spec fn succ_idx(&self, a: usize) -> Seq<usize> {
        let out = outgoing(self.links(), a);
        Seq::new(out.len(), |j: int| self.canon(out[j].0))
    }

    /// The nodes, by index.
    pub closed spec fn node_seq(&self) -> Seq<Node> {
        self.nodes@
    }

    /// The edge payloads, by edge index.
    pub closed spec fn edge_seq(&self) -> Seq<Edge> {
        self.edges@
    }

    /// The edges as `(source, target, edge index)`, in the order of addition.
    pub closed spec fn links(&self) -> Seq<(usize, usize, usize)> {
        edge_list(self.graph)
    }

    /// Which node index each name finds.
    pub closed spec fn names(&self) -> Map<Seq<char>, usize> {
        self.node_map.map()
    }

    /// The names, in the order they were first given.
    pub closed spec fn name_order(&self) -> Seq<Seq<char>> {
        self.node_map.key_seq()
    }

    /// The entry point's node index, if set.
    pub closed spec fn entry(&self) -> Option<usize> {
        self.entry_point
    }

    /// The graph's metadata.
    pub closed spec fn meta(&self) -> GraphMetadata {
        self.metadata
    }

    /// The ids of the targets of the edges leaving the node that `name`
    /// finds, the most recently added edge first; empty for an unknown name.
    pub open spec fn successor_ids(&self, name: Seq<char>) -> Seq<Seq<char>> {
        if self.names().contains_key(name) {
            let out = outgoing(self.links(), self.names()[name]);
            Seq::new(out.len(), |i: int| self.node_seq()[out[i].0 as int].id@)
        } else {
            Seq::empty()
        }
    }

    /// Whether the name is one that needs no incoming edge or is orphaned:
    /// not the entry point, not `__start__` or `__end__`, and no edge ends
    /// at its node.
    pub open spec fn is_orphan(&self, name: Seq<char>) -> bool {
        &&& self.names().contains_key(name)
        &&& self.entry() != Some(self.names()[name])
        &&& name != start_name()
        &&& name != end_name()
        &&& !has_incoming(self.links(), self.names()[name])
    }

    /// A new empty graph with the given name, version `0.1.0`.
    pub fn new(name: String) -> (g: StateGraph)
        ensures
            g.wf(),
            g.node_seq().len() == 0,
            g.edge_seq().len() == 0,
            g.links().len() == 0,
            g.edges_by_name(),
            g.names() == Map::<Seq<char>, usize>::empty(),
            g.name_order().len() == 0,
            g.entry() is None,
            g.meta().name@ == name@,
            g.meta().version@ == seq!['0', '.', '1', '.', '0'],
            g.meta().description is None,
            g.meta().extra is None,
    {
        let mut version = String::new();
        crate::text::push_char(&mut version, '0');
        crate::text::push_char(&mut version, '.');
        crate::text::push_char(&mut version, '1');
        crate::text::push_char(&mut version, '.');
        crate::text::push_char(&mut version, '0');
        let m: StrMap<usize> = StrMap::new();
        let g = StateGraph {
            graph: graph_new(),
            nodes: Vec::new(),
            edges: Vec::new(),
            node_map: m,
            entry_point: None,
            metadata: GraphMetadata { name, version, description: None, extra: None },
        };
        assert(node_weights(g.graph) =~= Seq::new(0, |i: int| i as usize));
        assert(g.name_order() =~= Seq::<Seq<char>>::empty());
        g
    }

    /// The graph's metadata.
    pub fn metadata(&self) -> (m: &GraphMetadata)
        ensures
            *m == self.meta(),
    {
        &self.metadata
    }

    /// Replaces the graph's metadata.
    pub fn set_metadata(&mut self, metadata: GraphMetadata)
        requires
            old(self).wf(),
        ensures
            final(self).wf(),
            final(self).meta() == metadata,
            final(self).node_seq() == old(self).node_seq(),
            final(self).edge_seq() == old(self).edge_seq(),
            final(self).links() == old(self).links(),
            final(self).names() == old(self).names(),
            final(self).name_order() == old(self).name_order(),
            final(self).entry() == old(self).entry(),
    {
        self.metadata = metadata;
    }

    /// Adds a node; its name now finds it. Returns its index.
    pub fn add_node(&mut self, node: Node) -> (idx: usize)
        requires
            old(self).wf(),
            old(self).node_seq().len() < u32::MAX,
        ensures
            final(self).wf(),
            idx == old(self).node_seq().len(),
            final(self).node_seq() == old(self).node_seq().push(node),
            final(self).names() == old(self).names().insert(node.id@, idx),
            old(self).names().contains_key(node.id@) ==> final(self).name_order() == old(
                self,
            ).name_order(),
            !old(self).names().contains_key(node.id@) ==> final(self).name_order() == old(
                self,
            ).name_order().push(node.id@),
            final(self).edge_seq() == old(self).edge_seq(),
            final(self).links() == old(self).links(),
            final(self).entry() == old(self).entry(),
            final(self).meta() == old(self).meta(),
            old(self).edges_by_name() && !old(self).names().contains_key(node.id@) ==> final(self).edges_by_name(),
    {
        let name = crate::json::copy_string(&node.id);
        let w = self.nodes.len();
        let idx = graph_add_node(&mut self.graph, w);
        self.nodes.push(node);
        self.node_map.insert(name, idx);
        assert(node_weights(self.graph) =~= Seq::new(self.nodes@.len(), |i: int| i as usize));
        proof {
            if old(self).edges_by_name() && !old(self).names().contains_key(node.id@) {
                assert forall|e: int| 0 <= e < self.links().len() implies #[trigger] self.canon(self.links()[e].1)
                    == self.links()[e].1 by {
                    assert(self.links()[e] == old(self).links()[e]);
                    assert(old(self).canon(old(self).links()[e].1) == old(self).links()[e].1);
                    let t = self.links()[e].1;
                    assert(t < old(self).nodes@.len());
                    assert(self.nodes@[t as int] == old(self).nodes@[t as int]);
                    assert(old(self).node_map.map().contains_key(old(self).nodes@[t as int].id@));
                }
            }
        }
        idx
    }

    /// The index that `name` finds.
    pub fn index_of(&self, name: &str) -> (r: Option<usize>)
        requires
            self.wf(),
        ensures
            match r {
                Some(i) => self.names().contains_key(name@) && self.names()[name@] == i && i
                    < self.node_seq().len() && self.canon(i) == i && self.node_seq()[i as int].id@
                    == name@,
                None => !self.names().contains_key(name@),
            },
    {
        match self.node_map.get(name) {
            Some(i) => Some(*i),
            None => None,
        }
    }

    /// Adds an edge between the nodes that the two names find; fails with
    /// `NodeNotFound` naming the first unknown one and changes nothing then.
    pub fn add_edge(&mut self, from: &str, to: &str, edge: Edge) -> (r: Result<(), LangGraphError>)
        requires
            old(self).wf(),
            old(self).edge_seq().len() < u32::MAX,
        ensures
            final(self).wf(),
            final(self).node_seq() == old(self).node_seq(),
            final(self).names() == old(self).names(),
            final(self).name_order() == old(self).name_order(),
            final(self).entry() == old(self).entry(),
            final(self).meta() == old(self).meta(),
            !old(self).names().contains_key(from@) ==> (r matches Err(
                LangGraphError::Graph(GraphError::NodeNotFound(n)),
            ) && n@ == from@),
            old(self).names().contains_key(from@) && !old(self).names().contains_key(to@)
                ==> (r matches Err(LangGraphError::Graph(GraphError::NodeNotFound(n))) && n@
                == to@),
            r is Err ==> final(self).links() == old(self).links() && final(self).edge_seq()
                == old(self).edge_seq(),
            r is Ok <==> (old(self).names().contains_key(from@) && old(
                self,
            ).names().contains_key(to@)),
            r is Ok ==> final(self).links() == old(self).links().push(
                (
                    old(self).names()[from@],
                    old(self).names()[to@],
                    old(self).edge_seq().len() as usize,
                ),
            ) && final(self).edge_seq() == old(self).edge_seq().push(edge),
            old(self).edges_by_name() ==> final(self).edges_by_name(),
    {
        let a = match self.index_of(from) {
            Some(a) => a,
            None => {
                return Err(LangGraphError::Graph(GraphError::NodeNotFound(from.to_owned())));
            },
        };
        let b = match self.index_of(to) {
            Some(b) => b,
            None => {
                return Err(LangGraphError::Graph(GraphError::NodeNotFound(to.to_owned())));
            },
        };
        let w = self.edges.len();
        graph_add_edge(&mut self.graph, a, b, w);
        self.edges.push(edge);
        assert forall|i: int| 0 <= i < edge_list(self.graph).len() implies {
            let e = #[trigger] edge_list(self.graph)[i];
            &&& e.0 < self.nodes@.len()
            &&& e.1 < self.nodes@.len()
            &&& e.2 == i
        } by {
            if i < edge_list(old(self).graph).len() {
                assert(edge_list(self.graph)[i] == edge_list(old(self).graph)[i]);
            }
        }
        proof {
            if old(self).edges_by_name() {
                assert forall|e: int| 0 <= e < self.links().len() implies #[trigger] self.canon(self.links()[e].1)
                    == self.links()[e].1 by {
                    if e < old(self).links().len() {
                        assert(self.links()[e] == old(self).links()[e]);
                        assert(old(self).canon(old(self).links()[e].1) == old(self).links()[e].1);
                    } else {
                        assert(self.links()[e].1 == b);
                    }
                }
            }
        }
        Ok(())
    }

    /// Makes the node that `name` finds the entry point; fails with
    /// `NodeNotFound` and changes nothing when no node has that name.
    pub fn set_entry_point(&mut self, name: &str) -> (r: Result<(), LangGraphError>)
        requires
            old(self).wf(),
        ensures
            final(self).wf(),
            final(self).node_seq() == old(self).node_seq(),
            final(self).edge_seq() == old(self).edge_seq(),
            final(self).links() == old(self).links(),
            final(self).names() == old(self).names(),
            final(self).name_order() == old(self).name_order(),
            final(self).meta() == old(self).meta(),
            r is Ok <==> old(self).names().contains_key(name@),
            r is Ok ==> final(self).entry() == Some(old(self).names()[name@]),
            r is Err ==> final(self).entry() == old(self).entry() && (r matches Err(
                LangGraphError::Graph(GraphError::NodeNotFound(n)),
            ) && n@ == name@),
    {
        match self.index_of(name) {
            Some(i) => {
                self.entry_point = Some(i);
                Ok(())
            },
            None => Err(LangGraphError::Graph(GraphError::NodeNotFound(name.to_owned()))),
        }
    }

    /// The node that `name` finds.
    pub fn get_node(&self, name: &str) -> (r: Option<&Node>)
        requires
            self.wf(),
        ensures
            match r {
                Some(n) => self.names().contains_key(name@) && *n == self.node_seq()[self.names()[name@] as int],
                None => !self.names().contains_key(name@),
            },
    {
        match self.index_of(name) {
            Some(i) => Some(&self.nodes[i]),
            None => None,
        }
    }

    /// The node at index `i`.
    pub fn node_at(&self, i: usize) -> (n: &Node)
        requires
            self.wf(),
            i < self.node_seq().len(),
        ensures
            *n == self.node_seq()[i as int],
    {
        &self.nodes[i]
    }

    /// The edge at index `i`.
    pub fn edge_at(&self, i: usize) -> (e: &Edge)
        requires
            self.wf(),
            i < self.edge_seq().len(),
        ensures
            *e == self.edge_seq()[i as int],
    {
        &self.edges[i]
    }

    /// The edges leaving node `a` as `(target, edge index)`, the most
    /// recently added first.
    pub fn edges_from_index(&self, a: usize) -> (r: Vec<(usize, usize)>)
        requires
            self.wf(),
            a < self.node_seq().len(),
        ensures
            r@ == outgoing(self.links(), a),
            forall|j: int|
                0 <= j < r@.len() ==> (#[trigger] r@[j]).0 < self.node_seq().len() && r@[j].1
                    < self.edge_seq().len(),
    {
        proof {
            assert forall|i: int| 0 <= i < self.links().len() implies (#[trigger] self.links()[i]).1
                < self.nodes@.len() && self.links()[i].2 < self.edges@.len() by {}
            lemma_outgoing_bounds(self.links(), a, self.nodes@.len() as int, self.edges@.len() as int);
        }
        graph_edges_from(&self.graph, a)
    }

    /// The nodes that the edges leaving node `a` lead to, taken by name,
    /// the most recently added edge first.
    pub fn succ_indices(&self, a: usize) -> (r: Vec<usize>)
        requires
            self.wf(),
            a < self.node_seq().len(),
        ensures
            r@ == self.succ_idx(a),
            forall|j: int| 0 <= j < r@.len() ==> (#[trigger] r@[j]) < self.node_seq().len(),
            forall|j: int| 0 <= j < r@.len() ==> self.canon(#[trigger] r@[j]) == r@[j],
    {
        let out = self.edges_from_index(a);
        let mut r: Vec<usize> = Vec::new();
        let mut j: usize = 0;
        while j < out.len()
            invariant
                self.wf(),
                j <= out@.len(),
                out@ == outgoing(self.links(), a),
                forall|k: int|
                    0 <= k < out@.len() ==> (#[trigger] out@[k]).0 < self.node_seq().len(),
                r@ == self.succ_idx(a).take(j as int),
                forall|k: int| 0 <= k < r@.len() ==> (#[trigger] r@[k]) < self.node_seq().len(),
                forall|k: int| 0 <= k < r@.len() ==> self.canon(#[trigger] r@[k]) == r@[k],
            decreases out@.len() - j,
        {
            let t = out[j].0;
            let c = match self.index_of(self.nodes[t].id.as_str()) {
                Some(c) => c,
                None => {
                    assert(false);
                    t
                },
            };
            r.push(c);
            assert(self.succ_idx(a).take(j + 1) =~= self.succ_idx(a).take(j as int).push(c));
            j = j + 1;
        }
        assert(self.succ_idx(a).take(out@.len() as int) =~= self.succ_idx(a));
        r
    }

    /// Whether every edge leads to the node that its target's name finds,
    /// as edges added by name do while no later node takes the name over.
    pub open spec fn edges_by_name(&self) -> bool {
        forall|e: int| 0 <= e < self.links().len() ==> #[trigger] self.canon(self.links()[e].1) == self.links()[e].1
    }

    /// The node a name finds has that name as its id.
    pub proof fn lemma_named_node_id(&self, k: Seq<char>)
        requires
            self.wf(),
            self.names().contains_key(k),
        ensures
            self.names()[k] < self.node_seq().len(),
            self.node_seq()[self.names()[k] as int].id@ == k,
    {
    }

    /// The node a name finds is the one that its own name finds.
    pub proof fn lemma_names_canonical(&self, k: Seq<char>)
        requires
            self.wf(),
            self.names().contains_key(k),
        ensures
            self.canon(self.names()[k]) == self.names()[k],
            self.names()[k] < self.node_seq().len(),
    {
    }

    /// Where edges lead to the nodes their targets' names find, a successor
    /// of a node is the target of an edge leaving it.
    pub proof fn lemma_succ_edge(&self, u: usize, y: usize)
        requires
            self.wf(),
            self.edges_by_name(),
            self.succ_idx(u).contains(y),
        ensures
            exists|e: int| 0 <= e < self.links().len() && self.links()[e].0 == u && self.links()[e].1 == y,
    {
        let out = outgoing(self.links(), u);
        let j = choose|j: int| 0 <= j < self.succ_idx(u).len() && self.succ_idx(u)[j] == y;
        lemma_outgoing_member(self.links(), u, j);
        let w = choose|w: int|
            0 <= w < self.links().len() && self.links()[w].0 == u && out[j] == (self.links()[w].1, self.links()[w].2);
        let t = self.links()[w].1;
        assert(self.canon(self.links()[w].1) == self.links()[w].1);
        assert(self.succ_idx(u)[j] == self.canon(out[j].0));
    }

    /// Each successor of a node is a node that its own name finds.
    pub proof fn lemma_succ_bounds(&self, u: usize)
        requires
            self.wf(),
        ensures
            forall|j: int|
                0 <= j < self.succ_idx(u).len() ==> (#[trigger] self.succ_idx(u)[j])
                    < self.node_seq().len() && self.canon(self.succ_idx(u)[j]) == self.succ_idx(u)[j],
    {
        assert forall|i: int| 0 <= i < self.links().len() implies (#[trigger] self.links()[i]).1
            < self.nodes@.len() && self.links()[i].2 < self.edges@.len() by {}
        lemma_outgoing_bounds(self.links(), u, self.nodes@.len() as int, self.edges@.len() as int);
        let out = outgoing(self.links(), u);
        assert forall|j: int| 0 <= j < self.succ_idx(u).len() implies (#[trigger] self.succ_idx(
            u,
        )[j]) < self.node_seq().len() && self.canon(self.succ_idx(u)[j]) == self.succ_idx(u)[j] by {
            let t = out[j].0;
            assert(self.succ_idx(u)[j] == self.canon(t));
            assert(self.node_map.map().contains_key(self.nodes@[t as int].id@));
        }
    }

    /// Node and edge counts stay within the index type's range.
    pub proof fn lemma_counts(&self)
        requires
            self.wf(),
        ensures
            self.node_seq().len() <= u32::MAX,
            self.edge_seq().len() <= u32::MAX,
            self.links().len() == self.edge_seq().len(),
    {
    }

    /// The number of nodes.
    pub fn node_count(&self) -> (n: usize)
        requires
            self.wf(),
        ensures
            n == self.node_seq().len(),
    {
        self.nodes.len()
    }

    /// The targets and edges of the edges leaving the node that `name`
    /// finds, the most recently added first; empty for an unknown name.
    pub fn get_edges_from(&self, name: &str) -> (r: Vec<(&Node, &Edge)>)
        requires
            self.wf(),
        ensures
            self.names().contains_key(name@) ==> {
                let out = outgoing(self.links(), self.names()[name@]);
                &&& r@.len() == out.len()
                &&& forall|i: int|
                    0 <= i < r@.len() ==> *(#[trigger] r@[i]).0 == self.node_seq()[out[i].0 as int]
                        && *r@[i].1 == self.edge_seq()[out[i].1 as int]
            },
            !self.names().contains_key(name@) ==> r@.len() == 0,
    {
        let mut result: Vec<(&Node, &Edge)> = Vec::new();
        match self.index_of(name) {
            Some(a) => {
                let out = graph_edges_from(&self.graph, a);
                proof {
                    assert forall|i: int| 0 <= i < self.links().len() implies (#[trigger] self.links()[i]).1
                        < self.nodes@.len() && self.links()[i].2 < self.edges@.len() by {
                    }
                    lemma_outgoing_bounds(self.links(), a, self.nodes@.len() as int, self.edges@.len() as int);
                }
                let mut i: usize = 0;
                while i < out.len()
                    invariant
                        self.wf(),
                        i <= out@.len(),
                        out@ == outgoing(self.links(), a),
                        forall|j: int|
                            0 <= j < out@.len() ==> out@[j].0 < self.nodes@.len() && out@[j].1
                                < self.edges@.len(),
                        result@.len() == i,
                        forall|j: int|
                            0 <= j < i ==> *(#[trigger] result@[j]).0 == self.nodes@[out@[j].0 as int]
                                && *result@[j].1 == self.edges@[out@[j].1 as int],
                    decreases out@.len() - i,
                {
                    let (t, w) = out[i];
                    result.push((&self.nodes[t], &self.edges[w]));
                    i = i + 1;
                }
            },
            None => {},
        }
        result
    }

    /// Whether the graph contains a cycle.
    pub fn has_cycles(&self) -> (b: bool)
        requires
            self.wf(),
        ensures
            b == has_cycle(self.links()),
    {
        graph_is_cyclic(&self.graph)
    }

    /// The names whose nodes no edge reaches, other than the entry point,
    /// `__start__` and `__end__`, in the order the names were first given.
    pub fn find_orphaned_nodes(&self) -> (r: Vec<String>)
        requires
            self.wf(),
        ensures
            strings_view(r@) == orphans_in(*self, self.name_order()),
    {
        self.node_map.assert_unique();
        let start = start_str();
        let end = end_str();
        let mut orphaned: Vec<String> = Vec::new();
        let n = self.node_map.len();
        let mut i: usize = 0;
        while i < n
            invariant
                self.wf(),
                n == self.name_order().len(),
                i <= n,
                start@ == start_name(),
                end@ == end_name(),
                strings_view(orphaned@) == orphans_in(*self, self.name_order().take(i as int)),
            decreases n - i,
        {
            self.node_map.assert_unique();
            let name = self.node_map.key_at(i);
            let idx = *self.node_map.value_at(i);
            proof {
                crate::keyed_map::lemma_entries_map_at(self.node_map.spec_entries(), i as int);
                assert(self.name_order().take(i + 1).drop_last() =~= self.name_order().take(i as int));
            }
            let is_entry = match self.entry_point {
                Some(e) => e == idx,
                None => false,
            };
            if !is_entry && !str_eq(name.as_str(), start.as_str()) && !str_eq(name.as_str(), end.as_str())
                && !graph_has_incoming(&self.graph, idx) {
                orphaned.push(crate::json::copy_string(name));
                assert(strings_view(orphaned@) =~= strings_view(orphaned@.drop_last()).push(name@));
            }
            i = i + 1;
        }
        assert(self.name_order().take(n as int) =~= self.name_order());
        orphaned
    }

    /// Checks that the graph can run: an entry point is set, no node is
    /// orphaned, and a `__start__` node exists.
    pub fn validate(&self) -> (r: Result<(), LangGraphError>)
        requires
            self.wf(),
        ensures
            self.entry() is None ==> r matches Err(
                LangGraphError::Graph(GraphError::InvalidStructure(_)),
            ),
            self.entry() is Some && orphans_in(*self, self.name_order()).len() > 0 ==> (r matches Err(
                LangGraphError::Graph(GraphError::OrphanedNode(s)),
            ) && s@ == join_names(orphans_in(*self, self.name_order()))),
            self.entry() is Some && orphans_in(*self, self.name_order()).len() == 0
                && !self.names().contains_key(start_name()) ==> r matches Err(
                LangGraphError::Graph(GraphError::InvalidStructure(_)),
            ),
            r is Ok <==> (self.entry() is Some && orphans_in(*self, self.name_order()).len() == 0
                && self.names().contains_key(start_name())),
    {
        if self.entry_point.is_none() {
            return Err(
                LangGraphError::Graph(
                    GraphError::InvalidStructure(crate::text::from_chars(&['N', 'o', ' ', 'e', 'n', 't', 'r', 'y', ' ', 'p', 'o', 'i', 'n', 't', ' ', 'd', 'e', 'f', 'i', 'n', 'e', 'd'])),
                ),
            );
        }
        let orphaned = self.find_orphaned_nodes();
        if orphaned.len() > 0 {
            return Err(LangGraphError::Graph(GraphError::OrphanedNode(join_comma(&orphaned))));
        }
        let start = start_str();
        if !self.node_map.contains_key(start.as_str()) {
            return Err(
                LangGraphError::Graph(
                    GraphError::InvalidStructure(crate::text::from_chars(&['M', 'i', 's', 's', 'i', 'n', 'g', ' ', '_', '_', 's', 't', 'a', 'r', 't', '_', '_', ' ', 'n', 'o', 'd', 'e'])),
                ),
            );
        }
        Ok(())
    }
}

/// The characters of each string.
pub open spec fn strings_view(v: Seq<String>) -> Seq<Seq<char>> {
    Seq::new(v.len(), |i: int| v[i]@)
}

/// The orphaned names among `names`, in order.
pub open spec fn orphans_in(g: StateGraph, names: Seq<Seq<char>>) -> Seq<Seq<char>>
    decreases names.len(),
{
    if names.len() == 0 {
        Seq::empty()
    } else {
        let rest = orphans_in(g, names.drop_last());
        if g.is_orphan(names.last()) {
            rest.push(names.last())
        } else {
            rest
        }
    }
}

/// The names joined by `", "`.
pub open spec fn join_names(names: Seq<Seq<char>>) -> Seq<char>
    decreases names.len(),
{
    if names.len() == 0 {
        Seq::empty()
    } else if names.len() == 1 {
        names[0]
    } else {
        join_names(names.drop_last()) + seq![',', ' '] + names.last()
    }
}

/// The strings joined by `", "`.
pub fn join_comma(v: &Vec<String>) -> (s: String)
    ensures
        s@ == join_names(strings_view(v@)),
{
    let mut s = String::new();
    let mut i: usize = 0;
    while i < v.len()
        invariant
            i <= v@.len(),
            s@ == join_names(strings_view(v@.take(i as int))),
        decreases v@.len() - i,
    {
        if i > 0 {
            crate::text::push_char(&mut s, ',');
            crate::text::push_char(&mut s, ' ');
        }
        crate::text::push_str(&mut s, v[i].as_str());
        proof {
            let t = strings_view(v@.take(i + 1));
            assert(t.drop_last() =~= strings_view(v@.take(i as int)));
            assert(t.last() == v@[i as int]@);
            if i == 0 {
                assert(t =~= seq![v@[0]@]);
            }
        }
        i = i + 1;
    }
    assert(v@.take(v@.len() as int) =~= v@);
    s
}

/// Each edge leaving a node, as `outgoing` lists it, is an edge of the
/// list that starts at that node.
pub proof fn lemma_outgoing_member(es: Seq<(usize, usize, usize)>, a: usize, j: int)
    requires
        0 <= j < outgoing(es, a).len(),
    ensures
        exists|w: int| 0 <= w < es.len() && es[w].0 == a && outgoing(es, a)[j] == (es[w].1, es[w].2),
    decreases es.len(),
{
    let d = es.drop_last();
    let e = es.last();
    assert(e == es[es.len() - 1]);
    if e.0 == a {
        if j == 0 {
            assert(outgoing(es, a)[0] == (e.1, e.2));
        } else {
            assert(outgoing(es, a)[j] == outgoing(d, a)[j - 1]);
            lemma_outgoing_member(d, a, j - 1);
            let w = choose|w: int| 0 <= w < d.len() && d[w].0 == a && outgoing(d, a)[j - 1] == (d[w].1, d[w].2);
            assert(d[w] == es[w]);
        }
    } else {
        assert(outgoing(es, a)[j] == outgoing(d, a)[j]);
        lemma_outgoing_member(d, a, j);
        let w = choose|w: int| 0 <= w < d.len() && d[w].0 == a && outgoing(d, a)[j] == (d[w].1, d[w].2);
        assert(d[w] == es[w]);
    }
}

/// The edges leaving a node point at nodes below `n` and carry weights
/// below `m` when all edges do.
pub proof fn lemma_outgoing_bounds(es: Seq<(usize, usize, usize)>, a: usize, n: int, m: int)
    requires
        forall|i: int| 0 <= i < es.len() ==> (#[trigger] es[i]).1 < n && es[i].2 < m,
    ensures
        forall|j: int|
            0 <= j < outgoing(es, a).len() ==> (#[trigger] outgoing(es, a)[j]).0 < n
                && outgoing(es, a)[j].1 < m,
    decreases es.len(),
{
    if es.len() > 0 {
        let d = es.drop_last();
        assert forall|i: int| 0 <= i < d.len() implies (#[trigger] d[i]).1 < n && d[i].2 < m by {
            assert(d[i] == es[i]);
        }
        lemma_outgoing_bounds(d, a, n, m);
        let e = es.last();
        assert(e == es[es.len() - 1]);
        let out = outgoing(es, a);
        let rest = outgoing(d, a);
        assert forall|j: int| 0 <= j < out.len() implies (#[trigger] out[j]).0 < n && out[j].1 < m by {
            if e.0 == a {
                if j > 0 {
                    assert(out[j] == rest[j - 1]);
                }
            } else {
                assert(out[j] == rest[j]);
            }
        }
    }
}

/// A graph made ready to run.
pub struct CompiledGraph {
    graph: StateGraph,
}

impl CompiledGraph {
    /// Soundness of the underlying graph.
    pub closed spec fn wf(&self) -> bool {
        self.graph.wf()
    }

    /// The underlying graph.
    pub closed spec fn inner(&self) -> StateGraph {
        self.graph
    }

    /// The underlying graph.
    pub fn graph(&self) -> (g: &StateGraph)
        ensures
            *g == self.inner(),
            self.wf() ==> g.wf(),
    {
        &self.graph
    }
}

impl StateGraph {
    /// Validates the graph and makes it ready to run.
    pub fn compile(self) -> (r: Result<CompiledGraph, LangGraphError>)
        requires
            self.wf(),
        ensures
            r is Ok <==> (self.entry() is Some && orphans_in(self, self.name_order()).len() == 0
                && self.names().contains_key(start_name())),
            r matches Ok(c) ==> c.inner() == self && c.wf(),
    {
        match self.validate() {
            Ok(()) => Ok(CompiledGraph { graph: self }),
            Err(e) => Err(e),
        }
    }
}

} // verus!
