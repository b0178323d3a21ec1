//! Running a graph with human decisions at interrupt points.
//!
//! The run goes through the nodes in topological order.  A node whose
//! metadata asks for an interrupt before it stops the run until a decision
//! comes; so does one that asks for an interrupt after it, once it ran.
//! The caller gets the decision (from a person, with a timeout, ...) and
//! hands it back; the run then goes on as the decision says.
use vstd::prelude::*;
use crate::error::LangGraphError;
use crate::engine::executor::{ExecutionError, name_in_range, name_fits, run_all, run_step, run_in_range, ends_as_run, lemma_run_in_range_prefix, lemma_run_stops};
use crate::engine::human_in_loop::{InterruptError, InterruptMode, ApprovalDecision};
use crate::engine::node_executor::{DefaultNodeExecutor, node_effect, node_fails, node_in_range, node_fits};
use crate::engine::traversal::{GraphTraverser, TraversalStrategy};
use crate::graph::{CompiledGraph, StateGraph, Node, start_name, end_name, start_str, end_str, strings_view};
use crate::json::{JsonValue, JsonModel, object_find, lemma_object_find, lemma_object_model};
use crate::state::{GraphState, StateData, state_model, clone_state};
use crate::text::{str_eq, concat_str, push_str};

verus! {

/// The interrupt mode that serde reads from a variant name.
pub open spec fn mode_named(s: Seq<char>) -> Option<InterruptMode> {
    if s == "Before"@ {
        Some(InterruptMode::Before)
    } else if s == "After"@ {
        Some(InterruptMode::After)
    } else if s == "None"@ {
        Some(InterruptMode::Never)
    } else {
        None
    }
}

/// The interrupt mode that serde reads from a JSON value: a variant name,
/// or an object whose single entry maps a variant name to null.
pub open spec fn mode_from_value(v: JsonModel) -> Option<InterruptMode> {
    match v {
        JsonModel::Str(s) => mode_named(s),
        JsonModel::Object(o) => if o.len() == 1 && o[0].1 == JsonModel::Null {
            mode_named(o[0].0)
        } else {
            None
        },
        _ => None,
    }
}

/// The interrupt mode set in a node's metadata under `interrupt_mode`: the
/// first entry with that key of a metadata object.
pub open spec fn node_mode(metadata: Option<JsonValue>) -> Option<InterruptMode> {
    match metadata {
        Some(JsonValue::Object(o)) => {
            let i = object_find(o@, "interrupt_mode"@);
            if i >= 0 {
                mode_from_value(o@[i].1@)
            } else {
                None
            }
        },
        _ => None,
    }
}

fn mode_named_exec(s: &str) -> (m: Option<InterruptMode>)
    ensures
        m == mode_named(s@),
{
    if str_eq(s, "Before") {
        Some(InterruptMode::Before)
    } else if str_eq(s, "After") {
        Some(InterruptMode::After)
    } else if str_eq(s, "None") {
        Some(InterruptMode::Never)
    } else {
        None
    }
}

/// The interrupt mode asked for in a node's metadata.
pub fn interrupt_mode_of(metadata: &Option<JsonValue>) -> (m: Option<InterruptMode>)
    ensures
        m == node_mode(*metadata),
{
    match metadata {
        Some(JsonValue::Object(o)) => {
            proof {
                lemma_object_find(o@, "interrupt_mode"@);
            }
            let mut i: usize = 0;
            while i < o.len()
                invariant
                    i <= o@.len(),
                    *metadata == Some(JsonValue::Object(*o)),
                    forall|j: int| 0 <= j < i ==> (#[trigger] o@[j]).0@ != "interrupt_mode"@,
                    -1 <= object_find(o@, "interrupt_mode"@) < o@.len(),
                    object_find(o@, "interrupt_mode"@) >= 0 ==> o@[object_find(o@, "interrupt_mode"@)].0@
                        == "interrupt_mode"@,
                    forall|j: int|
                        0 <= j < o@.len() && (object_find(o@, "interrupt_mode"@) < 0 || j < object_find(
                            o@,
                            "interrupt_mode"@,
                        )) ==> (#[trigger] o@[j]).0@ != "interrupt_mode"@,
                decreases o@.len() - i,
            {
                if str_eq(o[i].0.as_str(), "interrupt_mode") {
                    assert(object_find(o@, "interrupt_mode"@) == i);
                    let v = &o[i].1;
                    let r = match v {
                        JsonValue::String(s) => mode_named_exec(s.as_str()),
                        JsonValue::Object(inner) => {
                            proof {
                                lemma_object_model(*inner);
                            }
                            if inner.len() == 1 && matches!(inner[0].1, JsonValue::Null) {
                                assert(crate::json::entry_models(inner@)[0] == (inner@[0].0@, inner@[0].1@));
                                mode_named_exec(inner[0].0.as_str())
                            } else {
                                proof {
                                    if inner@.len() == 1 {
                                        assert(crate::json::entry_models(inner@)[0].1 == inner@[0].1@);
                                    }
                                }
                                None
                            }
                        },
                        _ => None,
                    };
                    return r;
                }
                i = i + 1;
            }
            None
        },
        _ => None,
    }
}

/// What a decision does: whether the node goes ahead, and the state it leaves.
/// Continue and Retry go ahead; Skip does not; Redirect does not and records
/// where execution was sent from and to; Abort ends the run.
pub open spec fn decision_effect(
    d: ApprovalDecision,
    node_id: Seq<char>,
    m: Map<Seq<char>, JsonModel>,
) -> (bool, Map<Seq<char>, JsonModel>) {
    match d {
        ApprovalDecision::Continue => (true, m),
        ApprovalDecision::Retry => (true, m),
        ApprovalDecision::Skip => (false, m),
        ApprovalDecision::Redirect(t) => (
            false,
            m.insert("redirected_from"@, JsonModel::Str(node_id)).insert(
                "redirected_to"@,
                JsonModel::Str(t@),
            ),
        ),
        ApprovalDecision::Abort(_) => (false, m),
    }
}

/// Applies a decision taken at `node_id`: `Ok(true)` when the node goes
/// ahead, `Ok(false)` when it is passed over, and the cancellation error
/// for an abort.
pub fn process_interrupt_decision(decision: ApprovalDecision, state: &mut GraphState, node_id: &str) -> (r:
    Result<bool, LangGraphError>)
    ensures
        match decision {
            ApprovalDecision::Abort(reason) => r == Err::<bool, LangGraphError>(
                LangGraphError::Interrupt(InterruptError::Cancelled(reason)),
            ) && state_model(final(state).values) == state_model(old(state).values),
            _ => r == Ok::<bool, LangGraphError>(decision_effect(decision, node_id@, state_model(old(state).values)).0)
                && state_model(final(state).values) == decision_effect(
                decision,
                node_id@,
                state_model(old(state).values),
            ).1,
        },
        final(state).history == old(state).history,
{
    match decision {
        ApprovalDecision::Continue => Ok(true),
        ApprovalDecision::Skip => Ok(false),
        ApprovalDecision::Retry => Ok(true),
        ApprovalDecision::Abort(reason) => Err(LangGraphError::Interrupt(InterruptError::Cancelled(reason))),
        ApprovalDecision::Redirect(target) => {
            let ghost m0 = state_model(state.values);
            let ghost t = target@;
            let mut snapshot = state.snapshot();
            snapshot.insert("redirected_from".to_string(), JsonValue::String(node_id.to_string()));
            snapshot.insert("redirected_to".to_string(), JsonValue::String(target));
            state.update(snapshot);
            assert(state_model(state.values) =~= m0.insert("redirected_from"@, JsonModel::Str(node_id@)).insert(
                "redirected_to"@,
                JsonModel::Str(t),
            ));
            Ok(false)
        },
    }
}

/// Where a run stands.
#[derive(Debug, Clone, Copy, PartialEq, Structural)]
pub enum RunPhase {
    /// About to look at the next node.
    AtNode,
    /// Waiting for the decision before the current node.
    AwaitBefore,
    /// Waiting for the decision after the current node.
    AwaitAfter,
    /// Finished.
    Done,
}

/// What the run asks of its caller.
#[derive(Debug)]
pub enum RunAction {
    /// Take a decision for this interrupt key, on this state, and hand it back.
    Ask { key: String, snapshot: StateData },
    /// Call again: nothing to decide.
    Proceed,
    /// The run ended with this state.
    Finished(StateData),
}

/// What the caller hands to the run.
#[derive(Debug)]
pub enum RunEvent {
    /// Go on.
    Next,
    /// The decision asked for.
    Decision(ApprovalDecision),
}

/// The decision an event carries; going on when it carries none.
pub open spec fn event_decision(e: RunEvent) -> ApprovalDecision {
    match e {
        RunEvent::Decision(d) => d,
        RunEvent::Next => ApprovalDecision::Continue,
    }
}

/// A run of a graph with interrupts.
pub struct InterruptRun {
    /// The nodes, in the order the run takes them.
    pub order: Vec<String>,
    /// The position of the current node.
    pub pos: usize,
    /// Where the run stands.
    pub phase: RunPhase,
    /// The state of the run.
    pub state: GraphState,
    /// How many nodes ran.
    pub nodes_executed: usize,
}

/// The state after running `node` on `m` and merging its result back.
pub open spec fn ran(node: Node, m: Map<Seq<char>, JsonModel>) -> Map<Seq<char>, JsonModel> {
    m.union_prefer_right(node_effect(node, m))
}

/// Where a run stands after running the node at position `pos`: asking
/// for the decision after it when its metadata wants one, else at the next
/// node.
pub open spec fn after_run(node: Node, pos: int, run: InterruptRun, r: Result<RunAction, LangGraphError>) -> bool {
    if node_mode(node.metadata) == Some(InterruptMode::After) {
        &&& run.pos() == pos
        &&& run.phase() == RunPhase::AwaitAfter
        &&& r matches Ok(RunAction::Ask { .. })
    } else {
        &&& run.pos() == pos + 1
        &&& run.phase() == RunPhase::AtNode
        &&& r matches Ok(RunAction::Proceed)
    }
}

impl InterruptRun {
    /// The names of the nodes, in the order the run takes them.
    pub closed spec fn order(&self) -> Seq<Seq<char>> {
        strings_view(self.order@)
    }

    /// The position of the current node in the order.
    pub closed spec fn pos(&self) -> int {
        self.pos as int
    }

    /// Where the run stands.
    pub closed spec fn phase(&self) -> RunPhase {
        self.phase
    }

    /// The position never passes the end, and a run waiting for a decision
    /// is at a node.
    pub closed spec fn wf(&self) -> bool {
        &&& self.pos <= self.order@.len()
        &&& (self.phase == RunPhase::AwaitBefore || self.phase == RunPhase::AwaitAfter) ==> self.pos
            < self.order@.len()
        &&& self.nodes_executed <= self.pos + if self.phase == RunPhase::AwaitAfter || self.phase == RunPhase::Done {
            1int
        } else {
            0int
        }
    }

    /// Whether the step taken on `event` keeps the counters that the node
    /// it runs raises within range: at a node, unless the node asks for a
    /// decision first; with the decision before a node, when the decision
    /// lets it run.
    pub open spec fn step_in_range(&self, g: StateGraph, event: RunEvent) -> bool {
        let name = self.order()[self.pos()];
        let m = state_model(self.state.values);
        self.pos() < self.order().len() ==> match self.phase() {
            RunPhase::AtNode => name_in_range(g, name, m) || (g.names().contains_key(name) && node_mode(
                g.node_seq()[g.names()[name] as int].metadata,
            ) == Some(InterruptMode::Before)),
            RunPhase::AwaitBefore => !decision_effect(event_decision(event), name, m).0 || !g.names().contains_key(name)
                || node_in_range(g.node_seq()[g.names()[name] as int], m),
            _ => true,
        }
    }

    /// Whether the step taken on `event` keeps the counters within range.
    pub fn step_fits(&self, graph: &CompiledGraph, event: &RunEvent) -> (b: bool)
        requires
            graph.wf(),
        ensures
            b == self.step_in_range(graph.inner(), *event),
    {
        if self.pos >= self.order.len() {
            return true;
        }
        let name = self.order[self.pos].as_str();
        match self.phase {
            RunPhase::AtNode => {
                if name_fits(graph, name, &self.state.values) {
                    return true;
                }
                match graph.graph().get_node(name) {
                    Some(node) => matches!(interrupt_mode_of(&node.metadata), Some(InterruptMode::Before)),
                    None => false,
                }
            },
            RunPhase::AwaitBefore => {
                let go = match event {
                    RunEvent::Next => true,
                    RunEvent::Decision(ApprovalDecision::Continue) => true,
                    RunEvent::Decision(ApprovalDecision::Retry) => true,
                    _ => false,
                };
                !go || match graph.graph().get_node(name) {
                    Some(node) => node_fits(node, &self.state.values),
                    None => true,
                }
            },
            _ => true,
        }
    }

    /// A run of `graph` from `input`, taking the nodes in topological order;
    /// fails when the graph has none.
    pub fn start(graph: &CompiledGraph, input: StateData) -> (r: Result<InterruptRun, LangGraphError>)
        requires
            graph.wf(),
            crate::engine::traversal::end_edges_ranked(graph.inner()),
        ensures
            r matches Ok(run) ==> {
                &&& run.wf()
                &&& run.pos() == 0
                &&& run.phase() == RunPhase::AtNode
                &&& run.nodes_executed == 0
                &&& state_model(run.state.values) == state_model(input)
            },
            r is Ok <==> !crate::graph::digraph::has_cycle(graph.inner().links()),
            r matches Ok(run) ==> crate::engine::traversal::is_named_topo(graph.inner(), run.order()),
            crate::engine::traversal::acyclic_by_name(graph.inner()) ==> (r matches Ok(run) ==> crate::engine::traversal::is_full_named_topo(graph.inner(), run.order())),
            r matches Err(e) ==> e matches LangGraphError::Engine(ExecutionError::InvalidState(_)),
    {
        let traverser = GraphTraverser::new(TraversalStrategy::Topological);
        let order = match traverser.get_execution_order(graph) {
            Ok(o) => o,
            Err(e) => {
                return Err(e);
            },
        };
        let ghost m = state_model(input);
        let mut state = GraphState::new();
        state.update(input);
        assert(state_model(state.values) =~= m);
        Ok(InterruptRun { order, pos: 0, phase: RunPhase::AtNode, state, nodes_executed: 0 })
    }

    /// Runs the current node and asks for the decision after it when its
    /// metadata wants one; otherwise moves on.
    fn run_current(&mut self, graph: &CompiledGraph, node: &Node) -> (r: Result<RunAction, LangGraphError>)
        requires
            graph.wf(),
            old(self).wf(),
            old(self).pos() < old(self).order().len(),
            old(self).phase() == RunPhase::AtNode || old(self).phase() == RunPhase::AwaitBefore,
            node_in_range(*node, state_model(old(self).state.values)),
        ensures
            final(self).wf(),
            final(self).order() == old(self).order(),
            node_fails(*node) ==> r is Err,
            !node_fails(*node) ==> {
                &&& state_model(final(self).state.values) == ran(*node, state_model(old(self).state.values))
                &&& final(self).nodes_executed == old(self).nodes_executed + 1
                &&& node_mode(node.metadata) == Some(InterruptMode::After) ==> {
                    &&& final(self).pos() == old(self).pos()
                    &&& final(self).phase() == RunPhase::AwaitAfter
                    &&& r matches Ok(RunAction::Ask { key, snapshot }) && key@ == node.id@ + "_after"@
                        && state_model(snapshot) == state_model(final(self).state.values)
                }
                &&& node_mode(node.metadata) != Some(InterruptMode::After) ==> {
                    &&& final(self).pos() == old(self).pos() + 1
                    &&& final(self).phase() == RunPhase::AtNode
                    &&& r matches Ok(RunAction::Proceed)
                }
            },
    {
        let n = self.order.len();
        assert(self.nodes_executed < n);
        let executor = DefaultNodeExecutor;
        let ghost m0 = state_model(self.state.values);
        let mut snapshot = self.state.snapshot();
        let result = match executor.execute(node, &mut snapshot) {
            Ok(s) => s,
            Err(e) => {
                return Err(e);
            },
        };
        self.state.update(result);
        self.nodes_executed = self.nodes_executed + 1;
        if matches!(interrupt_mode_of(&node.metadata), Some(InterruptMode::After)) {
            self.phase = RunPhase::AwaitAfter;
            let key = concat_str(node.id.as_str(), "_after");
            let snapshot = self.state.snapshot();
            Ok(RunAction::Ask { key, snapshot })
        } else {
            let n = self.order.len();
            assert(self.pos < n);
            self.pos = self.pos + 1;
            self.phase = RunPhase::AtNode;
            Ok(RunAction::Proceed)
        }
    }

    /// One step of the run.
    ///
    /// At a node: past the end the run finishes; `__start__` and `__end__`
    /// are passed over; a name the graph lacks fails the run; a node that
    /// wants an interrupt before it asks for a decision under its id;
    /// otherwise the node runs.  With the decision before a node: the node
    /// runs if the decision lets it, else it is passed over.  With the
    /// decision after a node: the run goes on if the decision lets it, else
    /// it finishes.  An abort fails the run.
    pub fn step(&mut self, graph: &CompiledGraph, event: RunEvent) -> (r: Result<RunAction, LangGraphError>)
        requires
            graph.wf(),
            old(self).wf(),
            old(self).phase() != RunPhase::Done,
            (old(self).phase() == RunPhase::AtNode) == (event is Next),
            old(self).step_in_range(graph.inner(), event),
        ensures
            final(self).wf(),
            final(self).order() == old(self).order(),
            old(self).phase() == RunPhase::AtNode && old(self).pos() >= old(self).order().len() ==> {
                &&& final(self).phase() == RunPhase::Done
                &&& r matches Ok(RunAction::Finished(s)) && state_model(s) == state_model(old(self).state.values)
            },
            old(self).phase() == RunPhase::AtNode && old(self).pos() < old(self).order().len() && (
            old(self).order()[old(self).pos()] == start_name() || old(self).order()[old(self).pos()]
                == end_name()) ==> {
                &&& final(self).pos() == old(self).pos() + 1
                &&& final(self).phase() == RunPhase::AtNode
                &&& r matches Ok(RunAction::Proceed)
                &&& final(self).state.values == old(self).state.values
            },
            old(self).phase() == RunPhase::AtNode && old(self).pos() < old(self).order().len() && !(
            old(self).order()[old(self).pos()] == start_name() || old(self).order()[old(self).pos()]
                == end_name()) ==> {
                let name = old(self).order()[old(self).pos()];
                let g = graph.inner();
                &&& !g.names().contains_key(name) ==> r is Err
                &&& g.names().contains_key(name) ==> {
                    let node = g.node_seq()[g.names()[name] as int];
                    &&& node_mode(node.metadata) == Some(InterruptMode::Before) ==> {
                        &&& final(self).pos() == old(self).pos()
                        &&& final(self).phase() == RunPhase::AwaitBefore
                        &&& final(self).state == old(self).state
                        &&& r matches Ok(RunAction::Ask { key, snapshot }) && key@ == name
                            && state_model(snapshot) == state_model(old(self).state.values)
                    }
                    &&& node_mode(node.metadata) != Some(InterruptMode::Before) ==> {
                        &&& node_fails(node) ==> r is Err
                        &&& !node_fails(node) ==> state_model(final(self).state.values) == ran(
                            node,
                            state_model(old(self).state.values),
                        ) && final(self).nodes_executed == old(self).nodes_executed + 1
                            && after_run(node, old(self).pos(), *final(self), r)
                    }
                }
            },
            event matches RunEvent::Decision(ApprovalDecision::Abort(reason)) ==> r == Err::<
                RunAction,
                LangGraphError,
            >(LangGraphError::Interrupt(InterruptError::Cancelled(reason))),
            old(self).phase() == RunPhase::AwaitAfter && !(event_decision(event) is Abort) ==> ({
                let (go, m) = decision_effect(event_decision(event), old(self).order()[old(self).pos()], state_model(
                    old(self).state.values,
                ));
                &&& state_model(final(self).state.values) == m
                &&& go ==> final(self).pos() == old(self).pos() + 1 && final(self).phase()
                    == RunPhase::AtNode && (r matches Ok(RunAction::Proceed))
                &&& !go ==> final(self).phase() == RunPhase::Done && (r matches Ok(RunAction::Finished(s))
                    && state_model(s) == m)
            }),
            old(self).phase() == RunPhase::AwaitBefore && !(event_decision(event) is Abort) ==> ({
                let (go, m) = decision_effect(event_decision(event), old(self).order()[old(self).pos()], state_model(
                    old(self).state.values,
                ));
                &&& !go ==> state_model(final(self).state.values) == m && final(self).pos() == old(self).pos() + 1
                    && final(self).phase() == RunPhase::AtNode && (r matches Ok(RunAction::Proceed))
                &&& go && !graph.inner().names().contains_key(old(self).order()[old(self).pos()]) ==> r is Err
                &&& go && graph.inner().names().contains_key(old(self).order()[old(self).pos()]) ==> {
                    let g = graph.inner();
                    let node = g.node_seq()[g.names()[old(self).order()[old(self).pos()]] as int];
                    &&& node_fails(node) ==> r is Err
                    &&& !node_fails(node) ==> state_model(final(self).state.values) == ran(node, m)
                        && final(self).nodes_executed == old(self).nodes_executed + 1
                        && after_run(node, old(self).pos(), *final(self), r)
                }
            }),
    {
        match event {
            RunEvent::Next => {
                if self.pos >= self.order.len() {
                    self.phase = RunPhase::Done;
                    let s = self.state.snapshot();
                    return Ok(RunAction::Finished(s));
                }
                let start = start_str();
                let end = end_str();
                let name = self.order[self.pos].clone();
                if str_eq(name.as_str(), start.as_str()) || str_eq(name.as_str(), end.as_str()) {
                    self.pos = self.pos + 1;
                    return Ok(RunAction::Proceed);
                }
                let g = graph.graph();
                let node = match g.get_node(name.as_str()) {
                    Some(node) => node,
                    None => {
                        let msg = concat_str("Node not found: ", name.as_str());
                        return Err(LangGraphError::Engine(ExecutionError::NodeExecutionFailed(msg)));
                    },
                };
                if matches!(interrupt_mode_of(&node.metadata), Some(InterruptMode::Before)) {
                    self.phase = RunPhase::AwaitBefore;
                    let snapshot = self.state.snapshot();
                    return Ok(RunAction::Ask { key: name, snapshot });
                }
                self.run_current(graph, node)
            },
            RunEvent::Decision(d) => {
                let n = self.order.len();
                assert(self.pos < n);
                let name = self.order[self.pos].clone();
                let go = match process_interrupt_decision(d, &mut self.state, name.as_str()) {
                    Ok(b) => b,
                    Err(e) => {
                        return Err(e);
                    },
                };
                if self.phase == RunPhase::AwaitAfter {
                    if go {
                        self.pos = self.pos + 1;
                        self.phase = RunPhase::AtNode;
                        Ok(RunAction::Proceed)
                    } else {
                        self.phase = RunPhase::Done;
                        let s = self.state.snapshot();
                        Ok(RunAction::Finished(s))
                    }
                } else if !go {
                    self.pos = self.pos + 1;
                    self.phase = RunPhase::AtNode;
                    Ok(RunAction::Proceed)
                } else {
                    let g = graph.graph();
                    match g.get_node(name.as_str()) {
                        Some(node) => self.run_current(graph, node),
                        None => {
                            let msg = concat_str("Node not found: ", name.as_str());
                            Err(LangGraphError::Engine(ExecutionError::NodeExecutionFailed(msg)))
                        },
                    }
                }
            },
        }
    }
}


/// Runs `graph` from `input` as an interrupt run in which every decision
/// asked for is to continue: each node of the topological order runs in
/// turn, so the run ends as running the order without interrupts ends.
/// Each node must keep the counters it raises within range, in whichever
/// topological order the nodes run.
#[verifier::loop_isolation(false)]
pub fn run_continuing(graph: &CompiledGraph, input: StateData) -> (r: Result<StateData, LangGraphError>)
    requires
        graph.wf(),
        crate::engine::traversal::end_edges_ranked(graph.inner()),
        forall|v: Seq<Seq<char>>| #[trigger] crate::engine::traversal::is_named_topo(graph.inner(), v) ==> run_in_range(
            graph.inner(),
            v,
            state_model(input),
        ),
    ensures
        crate::graph::digraph::has_cycle(graph.inner().links()) ==> r matches Err(
            LangGraphError::Engine(ExecutionError::InvalidState(_)),
        ),
        !crate::graph::digraph::has_cycle(graph.inner().links()) ==> exists|v: Seq<Seq<char>>|
            #[trigger] crate::engine::traversal::is_named_topo(graph.inner(), v) && (
            crate::engine::traversal::acyclic_by_name(graph.inner())
                ==> crate::engine::traversal::is_full_named_topo(graph.inner(), v)) && ends_as_run(
                graph.inner(),
                v,
                state_model(input),
                r,
            ),
{
    let ghost m = state_model(input);
    let ghost g = graph.inner();
    let mut run = match InterruptRun::start(graph, input) {
        Ok(run) => run,
        Err(e) => {
            return Err(e);
        },
    };
    let ghost v = run.order();
    proof {
        assert(v.take(0) =~= Seq::<Seq<char>>::empty());
        assert(run_in_range(g, v, m));
    }
    loop
        invariant
            graph.wf(),
            g == graph.inner(),
            run.wf(),
            run.order() == v,
            run.phase() == RunPhase::AtNode,
            crate::engine::traversal::is_named_topo(g, v),
            crate::engine::traversal::acyclic_by_name(g) ==> crate::engine::traversal::is_full_named_topo(g, v),
            !crate::graph::digraph::has_cycle(g.links()),
            0 <= run.pos() <= v.len(),
            run_all(g, v.take(run.pos()), m) == Some(state_model(run.state.values)),
            run_in_range(g, v, m),
        decreases v.len() - run.pos(),
    {
        let ghost p = run.pos();
        let ghost m0 = state_model(run.state.values);
        if run.pos >= run.order.len() {
            proof {
                assert(v.take(p) =~= v);
            }
            match run.step(graph, RunEvent::Next) {
                Ok(RunAction::Finished(s)) => {
                    assert(ends_as_run(g, v, m, Ok::<StateData, LangGraphError>(s)));
                    return Ok(s);
                },
                _ => {
                    assert(false);
                    return Err(LangGraphError::Execution(String::new()));
                },
            }
        }
        let ghost name = v[p];
        proof {
            lemma_run_in_range_prefix(g, v, m, p + 1);
            assert(v.take(p + 1).drop_last() =~= v.take(p));
            assert(v.take(p + 1).last() == name);
        }
        let ghost special = name == start_name() || name == end_name();
        let ghost known = g.names().contains_key(name);
        let first = run.step(graph, RunEvent::Next);
        proof {
            if first is Ok && !(first matches Ok(RunAction::Proceed)) {
                assert(!special);
            }
        }
        let outcome = match first {
            Err(e) => Err(e),
            Ok(RunAction::Ask { .. }) => {
                if run.phase == RunPhase::AwaitBefore {
                    match run.step(graph, RunEvent::Decision(ApprovalDecision::Continue)) {
                        Err(e) => Err(e),
                        Ok(RunAction::Ask { .. }) => run.step(graph, RunEvent::Decision(ApprovalDecision::Continue)),
                        Ok(a) => Ok(a),
                    }
                } else {
                    run.step(graph, RunEvent::Decision(ApprovalDecision::Continue))
                }
            },
            Ok(a) => Ok(a),
        };
        match outcome {
            Err(e) => {
                proof {
                    if !special && known {
                        assert(node_fails(g.node_seq()[g.names()[name] as int]));
                    }
                    assert(run_step(g, name, m0) is None);
                    assert(run_all(g, v.take(p + 1), m) is None);
                    lemma_run_stops(g, v, m, p);
                    assert(ends_as_run(g, v, m, Err::<StateData, LangGraphError>(e)));
                }
                return Err(e);
            },
            Ok(_) => {
                proof {
                    if !special && known {
                        lemma_uninterrupted_step_is_plain(g, name, m0);
                    }
                    assert(run.pos() == p + 1);
                    assert(run_step(g, name, m0) == Some(state_model(run.state.values)));
                }
            },
        }
    }
}

/// A node that asks for no decision does to the state in an interrupt run
/// what a plain run does: running it and merging its result back is
/// running it.
pub proof fn lemma_uninterrupted_step_is_plain(g: StateGraph, name: Seq<char>, m: Map<Seq<char>, JsonModel>)
    requires
        name != start_name(),
        name != end_name(),
        g.names().contains_key(name),
        !node_fails(g.node_seq()[g.names()[name] as int]),
    ensures
        crate::engine::executor::run_step(g, name, m) == Some(ran(g.node_seq()[g.names()[name] as int], m)),
{
    let node = g.node_seq()[g.names()[name] as int];
    let e = node_effect(node, m);
    assert(m.dom().subset_of(e.dom()));
    assert(m.union_prefer_right(e) =~= e);
}

} // verus!
