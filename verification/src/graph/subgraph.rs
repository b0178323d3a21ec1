//! Mapping state between a graph and a graph it embeds.
use vstd::prelude::*;
use crate::error::LangGraphError;
use crate::json::{JsonValue, JsonModel};
use crate::keyed_map::{StrMap, keys_unique, entries_map};
use crate::state::{StateData, state_model, clone_state};
use crate::graph::{CompiledGraph, GraphError, Node, NodeType, StateGraph};
use crate::text::concat_str;

verus! {

/// Maps a state from one graph to another.
pub trait StateMapper {
    /// Whether the mapper makes `target` of `source` when it succeeds.
    spec fn maps(&self, source: Map<Seq<char>, JsonModel>, target: Map<Seq<char>, JsonModel>) -> bool;

    /// Whether the mapper may fail on `source` with `e`.
    spec fn fails_with(&self, source: Map<Seq<char>, JsonModel>, e: LangGraphError) -> bool;

    /// The mapped state.
    fn map(&self, source: &StateData) -> (r: Result<StateData, LangGraphError>)
        ensures
            r matches Ok(t) ==> self.maps(state_model(*source), state_model(t)),
            r matches Err(e) ==> self.fails_with(state_model(*source), e),
    ;
}

/// Passes every field through.
pub struct PassthroughMapper;

impl PassthroughMapper {
    /// The same state.
    pub fn map_state(&self, source: &StateData) -> (r: StateData)
        ensures
            state_model(r) == state_model(*source),
    {
        clone_state(source)
    }
}

impl StateMapper for PassthroughMapper {
    open spec fn fails_with(&self, source: Map<Seq<char>, JsonModel>, e: LangGraphError) -> bool {
        false
    }

    open spec fn maps(&self, source: Map<Seq<char>, JsonModel>, target: Map<Seq<char>, JsonModel>) -> bool {
        target == source
    }

    fn map(&self, source: &StateData) -> Result<StateData, LangGraphError> {
        Ok(self.map_state(source))
    }
}

/// Copies chosen fields, each under a new name.
pub struct SelectiveMapper {
    /// Source field name to target field name
    pub mappings: StrMap<String>,
}

/// What the mappings `ms` make of the source: for each mapping in turn
/// whose source field is present, the target field gets its value.
pub open spec fn selective(ms: Seq<(Seq<char>, String)>, src: Map<Seq<char>, JsonModel>) -> Map<Seq<char>, JsonModel>
    decreases ms.len(),
{
    if ms.len() == 0 {
        Map::empty()
    } else {
        let m = selective(ms.drop_last(), src);
        let (from, to) = ms.last();
        if src.contains_key(from) {
            m.insert(to@, src[from])
        } else {
            m
        }
    }
}

impl SelectiveMapper {
    /// A mapper without mappings.
    pub fn new() -> (m: SelectiveMapper)
        ensures
            m.mappings.map() == Map::<Seq<char>, String>::empty(),
            m.mappings.key_seq().len() == 0,
    {
        let m = SelectiveMapper { mappings: StrMap::new() };
        assert(m.mappings.map() =~= Map::empty());
        m
    }

    /// Maps field `from` to field `to`.
    pub fn add_mapping(self, from: String, to: String) -> (m: SelectiveMapper)
        ensures
            m.mappings.map() == self.mappings.map().insert(from@, to),
    {
        let mut m = self;
        m.mappings.insert(from, to);
        m
    }

    /// The target state: each mapped field that the source has, under its
    /// new name.
    pub fn map_state(&self, source: &StateData) -> (r: StateData)
        ensures
            state_model(r) == selective(self.mappings.spec_entries(), state_model(*source)),
    {
        let ghost ms = self.mappings.spec_entries();
        let mut target: StateData = StrMap::new();
        assert(state_model(target) =~= Map::empty());
        let mut i: usize = 0;
        while i < self.mappings.len()
            invariant
                0 <= i <= ms.len(),
                ms == self.mappings.spec_entries(),
                state_model(target) == selective(ms.take(i as int), state_model(*source)),
            decreases ms.len() - i,
        {
            proof {
                assert(ms.take(i + 1).drop_last() =~= ms.take(i as int));
                assert(ms.take(i + 1).last() == ms[i as int]);
            }
            let from = self.mappings.key_at(i);
            let to = self.mappings.value_at(i);
            match source.get(from.as_str()) {
                Some(v) => {
                    let ghost before = state_model(target);
                    target.insert(crate::json::copy_string(to), v.deep_clone());
                    assert(state_model(target) =~= before.insert(to@, v@));
                },
                None => {},
            }
            i = i + 1;
        }
        assert(ms.take(ms.len() as int) =~= ms);
        target
    }
}

impl StateMapper for SelectiveMapper {
    open spec fn fails_with(&self, source: Map<Seq<char>, JsonModel>, e: LangGraphError) -> bool {
        false
    }

    open spec fn maps(&self, source: Map<Seq<char>, JsonModel>, target: Map<Seq<char>, JsonModel>) -> bool {
        target == selective(self.mappings.spec_entries(), source)
    }

    fn map(&self, source: &StateData) -> Result<StateData, LangGraphError> {
        Ok(self.map_state(source))
    }
}

/// Strategy for isolating subgraph state.
pub enum IsolationStrategy {
    /// Complete isolation: subgraph gets fresh state
    Complete,
    /// Partial isolation: only specified keys are passed
    Partial { allowed_keys: Vec<String> },
    /// Shared state: subgraph shares parent state
    Shared,
    /// Mapped isolation: keys are mapped between parent and subgraph
    Mapped { mappings: StrMap<String> },
}

/// The state after a subgraph ran: its output over the input, or the
/// output alone where the subgraph is isolated.
pub open spec fn merged_output(
    input: Map<Seq<char>, JsonModel>,
    output: Map<Seq<char>, JsonModel>,
    isolated: bool,
) -> Map<Seq<char>, JsonModel> {
    if isolated {
        output
    } else {
        input.union_prefer_right(output)
    }
}

/// Puts a subgraph's output over its input, unless it is isolated.
pub fn merge_output(input: &StateData, output: StateData, isolated: bool) -> (r: StateData)
    ensures
        state_model(r) == merged_output(state_model(*input), state_model(output), isolated),
{
    if isolated {
        return output;
    }
    let mut merged = clone_state(input);
    let ghost es = output.spec_entries();
    output.assert_unique();
    let mut i: usize = 0;
    while i < output.len()
        invariant
            0 <= i <= es.len(),
            es == output.spec_entries(),
            keys_unique(es),
            state_model(merged) == state_model(*input).union_prefer_right(
                entries_map(es.take(i as int)).map_values(|v: JsonValue| v@),
            ),
        decreases es.len() - i,
    {
        proof {
            crate::state::lemma_prefix_map(es, i as int);
        }
        let k = crate::json::copy_string(output.key_at(i));
        let v = output.value_at(i).deep_clone();
        let ghost before = state_model(merged);
        merged.insert(k, v);
        proof {
            assert(state_model(merged) =~= before.insert(es[i as int].0, es[i as int].1@));
            assert(entries_map(es.take(i + 1)).map_values(|v: JsonValue| v@) =~= entries_map(es.take(i as int)).map_values(
                |v: JsonValue| v@,
            ).insert(es[i as int].0, es[i as int].1@));
            assert(state_model(merged) =~= state_model(*input).union_prefer_right(
                entries_map(es.take(i + 1)).map_values(|v: JsonValue| v@),
            ));
        }
        i = i + 1;
    }
    proof {
        assert(es.take(es.len() as int) =~= es);
        assert(entries_map(es).map_values(|v: JsonValue| v@) =~= state_model(output));
    }
    merged
}

/// A graph embedded in a larger graph.
pub struct Subgraph {
    /// Unique identifier for the subgraph
    pub id: String,
    /// The compiled graph to execute
    pub graph: CompiledGraph,
    /// Maps the parent state to the subgraph's input
    pub input_mapper: Box<dyn StateMapper>,
    /// Maps the subgraph's output to the parent's state
    pub output_mapper: Box<dyn StateMapper>,
    /// Whether the subgraph's state is isolated from the parent's
    pub isolated: bool,
}

impl Subgraph {
    /// A subgraph with pass-through mappers, not isolated.
    pub fn new(id: String, graph: CompiledGraph) -> (s: Subgraph)
        ensures
            s.id == id,
            s.graph == graph,
            !s.isolated,
    {
        Subgraph {
            id,
            graph,
            input_mapper: Box::new(PassthroughMapper),
            output_mapper: Box::new(PassthroughMapper),
            isolated: false,
        }
    }

    /// Sets the input mapper.
    pub fn with_input_mapper(self, mapper: Box<dyn StateMapper>) -> (s: Subgraph)
        ensures
            s.id == self.id,
            s.graph == self.graph,
            s.isolated == self.isolated,
    {
        let mut s = self;
        s.input_mapper = mapper;
        s
    }

    /// Sets the output mapper.
    pub fn with_output_mapper(self, mapper: Box<dyn StateMapper>) -> (s: Subgraph)
        ensures
            s.id == self.id,
            s.graph == self.graph,
            s.isolated == self.isolated,
    {
        let mut s = self;
        s.output_mapper = mapper;
        s
    }

    /// Sets whether the subgraph's state is isolated.
    pub fn with_isolation(self, isolated: bool) -> (s: Subgraph)
        ensures
            s.id == self.id,
            s.graph == self.graph,
            s.isolated == isolated,
    {
        let mut s = self;
        s.isolated = isolated;
        s
    }

    /// Runs the subgraph on `input`: the input mapper's state is taken as
    /// the subgraph's output (the graph itself is not run), the output
    /// mapper maps it back, and the result is merged over the input unless
    /// the subgraph is isolated. A mapper's error is passed on.
    pub fn execute(&self, input: &StateData) -> (r: Result<StateData, LangGraphError>)
        ensures
            r matches Ok(s) ==> exists|inner: Map<Seq<char>, JsonModel>, out: Map<Seq<char>, JsonModel>|
                #[trigger] self.input_mapper.maps(state_model(*input), inner) && #[trigger] self.output_mapper.maps(inner, out)
                    && state_model(s) == merged_output(state_model(*input), out, self.isolated),
            r matches Err(e) ==> self.input_mapper.fails_with(state_model(*input), e) || exists|inner: Map<Seq<char>, JsonModel>|
                #[trigger] self.input_mapper.maps(state_model(*input), inner) && self.output_mapper.fails_with(inner, e),
    {
        let inner = match self.input_mapper.map(input) {
            Ok(s) => s,
            Err(e) => {
                return Err(e);
            },
        };
        let output = match self.output_mapper.map(&inner) {
            Ok(s) => s,
            Err(e) => {
                assert(self.input_mapper.maps(state_model(*input), state_model(inner)));
                return Err(e);
            },
        };
        let ghost gi = state_model(inner);
        let ghost go = state_model(output);
        let r = merge_output(input, output, self.isolated);
        assert(self.input_mapper.maps(state_model(*input), gi) && self.output_mapper.maps(gi, go));
        Ok(r)
    }
}

/// A subgraph with nested subgraphs, each allowed a smaller depth than its
/// parent.
pub struct RecursiveSubgraph {
    /// The main subgraph
    pub subgraph: Subgraph,
    /// The nested subgraphs with their ids, each id once, in the order
    /// first added
    pub children: Vec<(String, RecursiveSubgraph)>,
    /// How deep the nesting may go
    pub max_depth: usize,
}

/// The message for a child allowed at least its parent's depth.
pub open spec fn depth_exceeded_message() -> Seq<char> {
    "Child subgraph depth exceeds parent limit"@
}

/// The position of the first child of `children` from position `i` on
/// whose id is `id`, if any.
pub open spec fn child_position(children: Seq<(String, RecursiveSubgraph)>, id: Seq<char>, i: int) -> Option<int>
    decreases children.len() - i,
{
    if i < 0 || i >= children.len() {
        None
    } else if children[i].0@ == id {
        Some(i)
    } else {
        child_position(children, id, i + 1)
    }
}

/// The children after storing `child` under `id`: in place of the child of
/// that id, or last.
pub open spec fn with_child(
    children: Seq<(String, RecursiveSubgraph)>,
    id: String,
    child: RecursiveSubgraph,
) -> Seq<(String, RecursiveSubgraph)> {
    match child_position(children, id@, 0) {
        Some(i) => children.update(i, (id, child)),
        None => children.push((id, child)),
    }
}

impl RecursiveSubgraph {
    /// `subgraph` without children, allowed `max_depth` levels of nesting.
    pub fn new(subgraph: Subgraph, max_depth: usize) -> (r: RecursiveSubgraph)
        ensures
            r.subgraph == subgraph,
            r.max_depth == max_depth,
            r.children@.len() == 0,
    {
        RecursiveSubgraph { subgraph, children: Vec::new(), max_depth }
    }

    /// Nests `child` under `id` (in place of any child of that id) when it
    /// is allowed a smaller depth than this subgraph; otherwise fails with
    /// `InvalidStructure` and changes nothing.
    pub fn add_child(&mut self, id: String, child: RecursiveSubgraph) -> (r: Result<(), LangGraphError>)
        ensures
            final(self).subgraph == old(self).subgraph,
            final(self).max_depth == old(self).max_depth,
            r is Ok <==> child.max_depth < old(self).max_depth,
            r is Ok ==> final(self).children@ == with_child(old(self).children@, id, child),
            r matches Err(e) ==> (e matches LangGraphError::Graph(GraphError::InvalidStructure(m))
                && m@ == depth_exceeded_message()) && final(self).children@ == old(self).children@,
    {
        if child.max_depth >= self.max_depth {
            let mut m = String::new();
            crate::text::push_str(&mut m, "Child subgraph depth exceeds parent limit");
            assert(m@ =~= depth_exceeded_message());
            return Err(LangGraphError::Graph(GraphError::InvalidStructure(m)));
        }
        let mut i: usize = 0;
        while i < self.children.len()
            invariant
                i <= self.children@.len(),
                self.children@ == old(self).children@,
                self.subgraph == old(self).subgraph,
                self.max_depth == old(self).max_depth,
                child.max_depth < old(self).max_depth,
                child_position(self.children@, id@, 0) == child_position(self.children@, id@, i as int),
            decreases self.children@.len() - i,
        {
            if crate::text::str_eq(self.children[i].0.as_str(), id.as_str()) {
                self.children.set(i, (id, child));
                return Ok(());
            }
            i = i + 1;
        }
        self.children.push((id, child));
        Ok(())
    }
}

/// Builds a graph whose nodes include subgraphs.
pub struct SubgraphBuilder {
    /// The parent graph being built
    pub parent: StateGraph,
    /// The registered subgraphs, by id
    pub subgraphs: StrMap<Subgraph>,
}

impl SubgraphBuilder {
    /// A builder of an empty parent graph named `name`.
    pub fn new(name: String) -> (b: SubgraphBuilder)
        ensures
            b.parent.wf(),
            b.parent.node_seq().len() == 0,
            b.subgraphs.map().len() == 0,
    {
        let b = SubgraphBuilder { parent: StateGraph::new(name), subgraphs: StrMap::new() };
        assert(b.subgraphs.map() =~= Map::empty());
        b
    }

    /// Adds `subgraph` as an agent node `subgraph:<id>` of the parent, and
    /// registers it under its id.
    pub fn add_subgraph(self, subgraph: Subgraph) -> (b: SubgraphBuilder)
        requires
            self.parent.wf(),
            self.parent.node_seq().len() < u32::MAX,
        ensures
            b.parent.wf(),
            b.parent.node_seq().len() == self.parent.node_seq().len() + 1,
            b.parent.node_seq().drop_last() == self.parent.node_seq(),
            b.parent.node_seq().last().id@ == subgraph.id@,
            b.parent.node_seq().last().node_type matches NodeType::Agent(a) && a@ == "subgraph:"@ + subgraph.id@,
            b.parent.node_seq().last().metadata is None,
            b.parent.names() == self.parent.names().insert(subgraph.id@, self.parent.node_seq().len() as usize),
            b.subgraphs.map() == self.subgraphs.map().insert(subgraph.id@, subgraph),
    {
        let mut b = self;
        let node_id = crate::json::copy_string(&subgraph.id);
        let label = concat_str("subgraph:", node_id.as_str());
        let node = Node { id: crate::json::copy_string(&node_id), node_type: NodeType::Agent(label), metadata: None };
        b.parent.add_node(node);
        assert(b.parent.node_seq().drop_last() =~= self.parent.node_seq());
        b.subgraphs.insert(node_id, subgraph);
        b
    }

    /// The parent graph and the registered subgraphs.
    pub fn build(self) -> (r: Result<(StateGraph, StrMap<Subgraph>), LangGraphError>)
        ensures
            r matches Ok((g, s)) && g == self.parent && s == self.subgraphs,
    {
        Ok((self.parent, self.subgraphs))
    }
}

} // verus!
