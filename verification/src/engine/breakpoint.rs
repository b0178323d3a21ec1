//! Breakpoints: stopping a run before a node to let a debugger decide
//! what happens next.
use vstd::prelude::*;
use crate::error::LangGraphError;
use crate::engine::executor::ExecutionError;
use crate::engine::interrupts::ran;
use crate::engine::node_executor::{DefaultNodeExecutor, node_fails, node_in_range, node_fits};
use crate::engine::traversal::{GraphTraverser, TraversalStrategy};
use crate::graph::{CompiledGraph, StateGraph, start_name, end_name, start_str, end_str, strings_view};
use crate::state::{GraphState, StateData, state_model, clone_state};
use crate::text::{str_eq, concat_str};

verus! {

/// Errors of breakpoint operations.
#[derive(Debug)]
pub enum BreakpointError {
    /// No breakpoint has this id.
    NotFound(String),
    /// The breakpoint's settings are not valid.
    InvalidConfiguration(String),
    /// The operation failed, with the reason.
    OperationFailed(String),
}

/// Action to take after hitting a breakpoint.
#[derive(Debug, Clone)]
pub enum BreakpointAction {
    /// Continue normal execution.
    Continue,
    /// Step over the current node.
    StepOver,
    /// Step into a subgraph or function.
    StepInto,
    /// Step out of the current scope.
    StepOut,
    /// Abort execution, with the reason.
    Abort(String),
}

/// Where a breakpoint run stands.
#[derive(Debug, Clone, Copy, PartialEq, Structural)]
pub enum BreakpointPhase {
    /// About to look at the next node.
    AtNode,
    /// Waiting for the breakpoint check of the current node.
    AwaitCheck,
    /// Finished.
    Done,
}

/// What a breakpoint run asks of its caller.
#[derive(Debug)]
pub enum BreakpointStep {
    /// Check the breakpoints of this node on this state, and hand back the
    /// action (`Continue` when none triggers).
    Check { node_id: String, snapshot: StateData },
    /// Call again.
    Proceed,
    /// The run ended with this state.
    Finished(StateData),
}

/// A run of a graph that stops at breakpoints.
pub struct BreakpointRun {
    /// The nodes, in the order the run takes them.
    pub order: Vec<String>,
    /// The position of the current node.
    pub pos: usize,
    /// Where the run stands.
    pub phase: BreakpointPhase,
    /// The state of the run.
    pub state: GraphState,
}

impl BreakpointRun {
    /// The position never passes the end, and a run waiting for a check is
    /// at a node.
    pub open spec fn wf(&self) -> bool {
        &&& self.pos <= self.order@.len()
        &&& self.phase == BreakpointPhase::AwaitCheck ==> self.pos < self.order@.len()
    }

    /// The name of the current node.
    pub open spec fn current(&self) -> Seq<char> {
        self.order@[self.pos as int]@
    }

    /// A run of `graph` from `input` in topological order; fails when the
    /// graph has none.
    pub fn start(graph: &CompiledGraph, input: StateData) -> (r: Result<BreakpointRun, LangGraphError>)
        requires
            graph.wf(),
            crate::engine::traversal::end_edges_ranked(graph.inner()),
        ensures
            r matches Ok(run) ==> {
                &&& run.wf()
                &&& run.pos == 0
                &&& run.phase == BreakpointPhase::AtNode
                &&& state_model(run.state.values) == state_model(input)
            },
            r is Ok <==> !crate::graph::digraph::has_cycle(graph.inner().links()),
            r matches Ok(run) ==> crate::engine::traversal::is_named_topo(graph.inner(), strings_view(run.order@)),
            crate::engine::traversal::acyclic_by_name(graph.inner()) ==> (r matches Ok(run) ==> crate::engine::traversal::is_full_named_topo(graph.inner(), strings_view(run.order@))),
            r matches Err(e) ==> e matches LangGraphError::Engine(ExecutionError::InvalidState(_)),
    {
        let traverser = GraphTraverser::new(TraversalStrategy::Topological);
        let order = match traverser.get_execution_order(graph) {
            Ok(o) => o,
            Err(e) => {
                return Err(e);
            },
        };
        let ghost m = state_model(input);
        let mut state = GraphState::new();
        state.update(input);
        assert(state_model(state.values) =~= m);
        Ok(BreakpointRun { order, pos: 0, phase: BreakpointPhase::AtNode, state })
    }

    /// Moves on to the next node: past the end the run finishes,
    /// `__start__` and `__end__` are passed over, any other node is checked
    /// for breakpoints first.
    pub fn next(&mut self) -> (r: BreakpointStep)
        requires
            old(self).wf(),
            old(self).phase == BreakpointPhase::AtNode,
        ensures
            final(self).wf(),
            final(self).order == old(self).order,
            final(self).state == old(self).state,
            old(self).pos >= old(self).order@.len() ==> final(self).phase == BreakpointPhase::Done && (
            r matches BreakpointStep::Finished(s) && state_model(s) == state_model(old(self).state.values)),
            old(self).pos < old(self).order@.len() && (old(self).current() == start_name()
                || old(self).current() == end_name()) ==> final(self).pos == old(self).pos + 1
                && final(self).phase == BreakpointPhase::AtNode && (r matches BreakpointStep::Proceed),
            old(self).pos < old(self).order@.len() && !(old(self).current() == start_name()
                || old(self).current() == end_name()) ==> final(self).pos == old(self).pos
                && final(self).phase == BreakpointPhase::AwaitCheck && (r matches BreakpointStep::Check {
                node_id,
                snapshot,
            } && node_id@ == old(self).current() && state_model(snapshot) == state_model(
                old(self).state.values,
            )),
    {
        if self.pos >= self.order.len() {
            self.phase = BreakpointPhase::Done;
            return BreakpointStep::Finished(self.state.snapshot());
        }
        let start = start_str();
        let end = end_str();
        let name = self.order[self.pos].clone();
        if str_eq(name.as_str(), start.as_str()) || str_eq(name.as_str(), end.as_str()) {
            self.pos = self.pos + 1;
            return BreakpointStep::Proceed;
        }
        self.phase = BreakpointPhase::AwaitCheck;
        BreakpointStep::Check { node_id: name, snapshot: self.state.snapshot() }
    }

    /// Whether acting on `action` keeps the counters that the current node
    /// raises within range: only an action that runs the node can raise
    /// them.
    pub open spec fn resume_in_range(&self, g: StateGraph, action: BreakpointAction) -> bool {
        let name = self.current();
        (action is StepOver || action is Abort) || !g.names().contains_key(name) || node_in_range(
            g.node_seq()[g.names()[name] as int],
            state_model(self.state.values),
        )
    }

    /// Whether acting on `action` keeps the counters within range.
    pub fn resume_fits(&self, graph: &CompiledGraph, action: &BreakpointAction) -> (b: bool)
        requires
            graph.wf(),
            self.wf(),
            self.phase == BreakpointPhase::AwaitCheck,
        ensures
            b == self.resume_in_range(graph.inner(), *action),
    {
        match action {
            BreakpointAction::StepOver => true,
            BreakpointAction::Abort(_) => true,
            _ => {
                let n = self.order.len();
                assert(self.pos < n);
                match graph.graph().get_node(self.order[self.pos].as_str()) {
                    Some(node) => node_fits(node, &self.state.values),
                    None => true,
                }
            },
        }
    }

    /// Acts on the breakpoint check of the current node: `StepOver` passes
    /// the node over, `Abort` fails the run, anything else runs the node.
    pub fn resume(&mut self, graph: &CompiledGraph, action: BreakpointAction) -> (r: Result<
        BreakpointStep,
        LangGraphError,
    >)
        requires
            graph.wf(),
            old(self).wf(),
            old(self).phase == BreakpointPhase::AwaitCheck,
            old(self).resume_in_range(graph.inner(), action),
        ensures
            final(self).wf(),
            final(self).order == old(self).order,
            action matches BreakpointAction::Abort(reason) ==> r == Err::<BreakpointStep, LangGraphError>(
                LangGraphError::Breakpoint(BreakpointError::OperationFailed(reason)),
            ),
            action is StepOver ==> final(self).pos == old(self).pos + 1 && final(self).phase
                == BreakpointPhase::AtNode && final(self).state == old(self).state && (r matches Ok(
                BreakpointStep::Proceed,
            )),
            !(action is StepOver || action is Abort) ==> {
                let g = graph.inner();
                let name = old(self).current();
                &&& !g.names().contains_key(name) ==> r is Err
                &&& g.names().contains_key(name) ==> {
                    let node = g.node_seq()[g.names()[name] as int];
                    &&& node_fails(node) ==> r is Err
                    &&& !node_fails(node) ==> {
                        &&& state_model(final(self).state.values) == ran(node, state_model(old(self).state.values))
                        &&& final(self).pos == old(self).pos + 1
                        &&& final(self).phase == BreakpointPhase::AtNode
                        &&& r matches Ok(BreakpointStep::Proceed)
                    }
                }
            },
    {
        let n = self.order.len();
        assert(self.pos < n);
        match action {
            BreakpointAction::Abort(reason) => {
                return Err(LangGraphError::Breakpoint(BreakpointError::OperationFailed(reason)));
            },
            BreakpointAction::StepOver => {
                self.pos = self.pos + 1;
                self.phase = BreakpointPhase::AtNode;
                return Ok(BreakpointStep::Proceed);
            },
            _ => {},
        }
        let name = self.order[self.pos].clone();
        let g = graph.graph();
        let node = match g.get_node(name.as_str()) {
            Some(node) => node,
            None => {
                let msg = concat_str("Node not found: ", name.as_str());
                return Err(LangGraphError::Engine(ExecutionError::NodeExecutionFailed(msg)));
            },
        };
        let executor = DefaultNodeExecutor;
        let mut snapshot = self.state.snapshot();
        let result = match executor.execute(node, &mut snapshot) {
            Ok(s) => s,
            Err(e) => {
                return Err(e);
            },
        };
        self.state.update(result);
        self.pos = self.pos + 1;
        self.phase = BreakpointPhase::AtNode;
        Ok(BreakpointStep::Proceed)
    }
}


/// A condition under which a breakpoint triggers: a test of the state.
pub struct BreakpointCondition<F> {
    /// The test
    pub condition_fn: F,
}

impl<F: Fn(&StateData) -> bool> BreakpointCondition<F> {
    /// A condition that holds where `condition` holds.
    pub fn new(condition: F) -> (c: BreakpointCondition<F>)
        ensures
            c.condition_fn == condition,
    {
        BreakpointCondition { condition_fn: condition }
    }

    /// Whether the condition holds of `state`.
    pub fn evaluate(&self, state: &StateData) -> (b: bool)
        requires
            call_requires(self.condition_fn, (state,)),
        ensures
            call_ensures(self.condition_fn, (state,), b),
    {
        (self.condition_fn)(state)
    }
}

/// A breakpoint on a node. Its creation time is in nanoseconds since the
/// Unix epoch.
pub struct Breakpoint<F> {
    /// Unique identifier
    pub id: String,
    /// Node the breakpoint is set on
    pub node_id: String,
    /// Optional condition
    pub condition: Option<BreakpointCondition<F>>,
    /// Whether the breakpoint is enabled
    pub enabled: bool,
    /// Number of times this breakpoint has been hit
    pub hit_count: usize,
    /// When the breakpoint was created
    pub created_at: u64,
}

/// Whether the breakpoint's condition may be asked of `state`.
pub open spec fn can_evaluate<F: Fn(&StateData) -> bool>(bp: Breakpoint<F>, state: StateData) -> bool {
    bp.enabled && bp.condition is Some ==> call_requires(bp.condition->0.condition_fn, (&state,))
}

/// Whether `b` is a possible answer of whether `bp` triggers on `state`: a
/// disabled breakpoint never does, an enabled one without a condition
/// always does, otherwise its condition decides.
pub open spec fn triggers<F: Fn(&StateData) -> bool>(bp: Breakpoint<F>, state: StateData, b: bool) -> bool {
    if !bp.enabled {
        !b
    } else {
        match bp.condition {
            None => b,
            Some(c) => call_ensures(c.condition_fn, (&state,), b),
        }
    }
}

impl<F: Fn(&StateData) -> bool> Breakpoint<F> {
    /// An enabled breakpoint on `node_id`, with a fresh random id, created now.
    pub fn new(node_id: String, condition: Option<BreakpointCondition<F>>) -> (b: Breakpoint<F>)
        ensures
            b.id@.len() == 36,
            b.node_id == node_id,
            b.condition == condition,
            b.enabled,
            b.hit_count == 0,
    {
        Breakpoint::with_id(
            crate::engine::tracing::new_uuid_string(),
            node_id,
            condition,
            crate::clock::now_nanos(),
        )
    }

    /// An enabled breakpoint on `node_id` with the given id, created at `now`.
    pub fn with_id(id: String, node_id: String, condition: Option<BreakpointCondition<F>>, now: u64) -> (b: Breakpoint<F>)
        ensures
            b.id == id,
            b.node_id == node_id,
            b.condition == condition,
            b.enabled,
            b.hit_count == 0,
            b.created_at == now,
    {
        Breakpoint { id, node_id, condition, enabled: true, hit_count: 0, created_at: now }
    }

    /// Whether the breakpoint triggers on `state`.
    pub fn should_trigger(&self, state: &StateData) -> (b: bool)
        requires
            can_evaluate(*self, *state),
        ensures
            triggers(*self, *state, b),
    {
        if !self.enabled {
            return false;
        }
        match &self.condition {
            Some(condition) => condition.evaluate(state),
            None => true,
        }
    }
}

/// A breakpoint hit. The timestamp is in nanoseconds since the Unix epoch.
#[derive(Debug)]
pub struct BreakpointHit {
    /// The breakpoint that was hit
    pub breakpoint_id: String,
    /// The node where it was hit
    pub node_id: String,
    /// The state at the time of the hit
    pub state_snapshot: StateData,
    /// When it was hit
    pub timestamp: u64,
}

/// What a hit records.
pub open spec fn hit_view(h: BreakpointHit) -> (Seq<char>, Seq<char>, Map<Seq<char>, crate::json::JsonModel>, u64) {
    (h.breakpoint_id@, h.node_id@, state_model(h.state_snapshot), h.timestamp)
}

/// What each hit of a list records.
pub open spec fn hits_view(s: Seq<BreakpointHit>) -> Seq<(Seq<char>, Seq<char>, Map<Seq<char>, crate::json::JsonModel>, u64)> {
    Seq::new(s.len(), |i: int| hit_view(s[i]))
}

/// The hits of `s` of the breakpoint `id`, in order.
pub open spec fn hits_of(s: Seq<BreakpointHit>, id: Seq<char>) -> Seq<BreakpointHit>
    decreases s.len(),
{
    if s.len() == 0 {
        Seq::empty()
    } else if s.last().breakpoint_id@ == id {
        hits_of(s.drop_last(), id).push(s.last())
    } else {
        hits_of(s.drop_last(), id)
    }
}

/// The breakpoints of `s` whose id is not `id`, in order.
pub open spec fn without_id<F>(s: Seq<Breakpoint<F>>, id: Seq<char>) -> Seq<Breakpoint<F>>
    decreases s.len(),
{
    if s.len() == 0 {
        Seq::empty()
    } else if s.last().id@ == id {
        without_id(s.drop_last(), id)
    } else {
        without_id(s.drop_last(), id).push(s.last())
    }
}

/// The breakpoint with one more hit (the count wraps at `usize::MAX`).
pub open spec fn with_hit<F>(bp: Breakpoint<F>) -> Breakpoint<F> {
    Breakpoint {
        id: bp.id,
        node_id: bp.node_id,
        condition: bp.condition,
        enabled: bp.enabled,
        hit_count: if bp.hit_count == usize::MAX { 0 } else { (bp.hit_count + 1) as usize },
        created_at: bp.created_at,
    }
}

impl BreakpointHit {
    /// A copy of this hit, recording the same.
    pub fn copy(&self) -> (r: BreakpointHit)
        ensures
            hit_view(r) == hit_view(*self),
    {
        BreakpointHit {
            breakpoint_id: self.breakpoint_id.clone(),
            node_id: self.node_id.clone(),
            state_snapshot: clone_state(&self.state_snapshot),
            timestamp: self.timestamp,
        }
    }
}

/// Keeps the breakpoints, in the order they were set, and the history of
/// their hits.
pub struct BreakpointManager<F> {
    /// The breakpoints, oldest first
    pub breakpoints: Vec<Breakpoint<F>>,
    /// The hits, oldest first
    pub hit_history: Vec<BreakpointHit>,
}

impl<F: Fn(&StateData) -> bool> BreakpointManager<F> {
    /// A manager with no breakpoints and no hits.
    pub fn new() -> (m: BreakpointManager<F>)
        ensures
            m.breakpoints@.len() == 0,
            m.hit_history@.len() == 0,
    {
        BreakpointManager { breakpoints: Vec::new(), hit_history: Vec::new() }
    }

    /// Adds `breakpoint` last; returns its id.
    pub fn add_breakpoint(&mut self, breakpoint: Breakpoint<F>) -> (id: String)
        ensures
            id@ == breakpoint.id@,
            final(self).breakpoints@ == old(self).breakpoints@.push(breakpoint),
            final(self).hit_history == old(self).hit_history,
    {
        let id = breakpoint.id.clone();
        self.breakpoints.push(breakpoint);
        id
    }

    /// Sets an enabled breakpoint on `node_id`, with a fresh id; returns the id.
    pub fn set_breakpoint(&mut self, node_id: String, condition: Option<BreakpointCondition<F>>) -> (id: String)
        ensures
            final(self).breakpoints@.len() == old(self).breakpoints@.len() + 1,
            final(self).breakpoints@.drop_last() == old(self).breakpoints@,
            final(self).breakpoints@.last().id@ == id@,
            final(self).breakpoints@.last().node_id == node_id,
            final(self).breakpoints@.last().condition == condition,
            final(self).breakpoints@.last().enabled,
            final(self).breakpoints@.last().hit_count == 0,
            final(self).hit_history == old(self).hit_history,
    {
        let bp = Breakpoint::new(node_id, condition);
        let id = self.add_breakpoint(bp);
        assert(self.breakpoints@.drop_last() =~= old(self).breakpoints@);
        id
    }

    /// Sets a breakpoint meant to raise an interrupt: for now a plain
    /// breakpoint without a condition.
    pub fn set_breakpoint_with_interrupt(&mut self, node_id: String, trigger_interrupt: bool) -> (id: String)
        ensures
            final(self).breakpoints@.len() == old(self).breakpoints@.len() + 1,
            final(self).breakpoints@.drop_last() == old(self).breakpoints@,
            final(self).breakpoints@.last().id@ == id@,
            final(self).breakpoints@.last().node_id == node_id,
            final(self).breakpoints@.last().condition is None,
            final(self).breakpoints@.last().enabled,
            final(self).breakpoints@.last().hit_count == 0,
            final(self).hit_history == old(self).hit_history,
    {
        self.set_breakpoint(node_id, None)
    }

    /// Removes the breakpoints with this id; whether there was one.
    pub fn remove_breakpoint(&mut self, id: &str) -> (found: bool)
        ensures
            found == exists|i: int| 0 <= i < old(self).breakpoints@.len() && #[trigger] old(self).breakpoints@[i].id@ == id@,
            final(self).breakpoints@ == without_id(old(self).breakpoints@, id@),
            final(self).hit_history == old(self).hit_history,
    {
        let ghost orig = self.breakpoints@;
        let n = self.breakpoints.len();
        let mut rest: Vec<Breakpoint<F>> = Vec::new();
        std::mem::swap(&mut rest, &mut self.breakpoints);
        let mut kept: Vec<Breakpoint<F>> = Vec::new();
        let mut found = false;
        let mut k: usize = 0;
        while rest.len() > 0
            invariant
                k <= orig.len(),
                orig.len() == n,
                rest@ == orig.skip(k as int),
                kept@ == without_id(orig.take(k as int), id@),
                found == exists|i: int| 0 <= i < k && #[trigger] orig[i].id@ == id@,
            decreases rest@.len(),
        {
            let bp = rest.remove(0);
            assert(orig.take(k + 1).drop_last() =~= orig.take(k as int));
            assert(orig.take(k + 1).last() == orig[k as int]);
            assert(orig.skip(k + 1) =~= orig.skip(k as int).drop_first());
            if str_eq(bp.id.as_str(), id) {
                found = true;
            } else {
                kept.push(bp);
            }
            k = k + 1;
        }
        assert(orig.take(k as int) =~= orig);
        self.breakpoints = kept;
        found
    }

    /// All breakpoints, oldest first.
    pub fn list_breakpoints(&self) -> (r: &Vec<Breakpoint<F>>)
        ensures
            r == self.breakpoints,
    {
        &self.breakpoints
    }

    /// Removes every breakpoint; the hit history stays.
    pub fn clear_all_breakpoints(&mut self)
        ensures
            final(self).breakpoints@.len() == 0,
            final(self).hit_history == old(self).hit_history,
    {
        self.breakpoints = Vec::new();
    }

    /// Whether a breakpoint on `node_id` triggers on `state`.
    pub fn is_breakpoint(&self, node_id: &str, state: &StateData) -> (b: bool)
        requires
            forall|i: int| 0 <= i < self.breakpoints@.len() ==> can_evaluate(#[trigger] self.breakpoints@[i], *state),
        ensures
            b ==> exists|i: int|
                0 <= i < self.breakpoints@.len() && self.breakpoints@[i].node_id@ == node_id@ && #[trigger] triggers(
                    self.breakpoints@[i],
                    *state,
                    true,
                ),
            !b ==> forall|i: int|
                0 <= i < self.breakpoints@.len() && self.breakpoints@[i].node_id@ == node_id@ ==> #[trigger] triggers(
                    self.breakpoints@[i],
                    *state,
                    false,
                ),
    {
        let mut i: usize = 0;
        while i < self.breakpoints.len()
            invariant
                i <= self.breakpoints@.len(),
                forall|j: int| 0 <= j < self.breakpoints@.len() ==> can_evaluate(#[trigger] self.breakpoints@[j], *state),
                forall|j: int|
                    0 <= j < i && self.breakpoints@[j].node_id@ == node_id@ ==> #[trigger] triggers(
                        self.breakpoints@[j],
                        *state,
                        false,
                    ),
            decreases self.breakpoints@.len() - i,
        {
            if str_eq(self.breakpoints[i].node_id.as_str(), node_id) {
                if self.breakpoints[i].should_trigger(state) {
                    return true;
                }
            }
            i = i + 1;
        }
        false
    }

    /// Handles a stop at `node_id` at time `now`: the first breakpoint of
    /// the node, in order, that triggers counts a hit, and the hit is
    /// recorded and returned for a handler to decide on; none where no
    /// breakpoint triggers.
    pub fn handle_breakpoint(&mut self, node_id: &str, state: StateData, now: u64) -> (r: Option<BreakpointHit>)
        requires
            forall|i: int| 0 <= i < old(self).breakpoints@.len() ==> can_evaluate(#[trigger] old(self).breakpoints@[i], state),
        ensures
            match r {
                Some(h) => exists|i: int|
                    0 <= i < old(self).breakpoints@.len() && {
                        &&& old(self).breakpoints@[i].node_id@ == node_id@
                        &&& triggers(old(self).breakpoints@[i], state, true)
                        &&& forall|j: int|
                            0 <= j < i && old(self).breakpoints@[j].node_id@ == node_id@ ==> #[trigger] triggers(
                                old(self).breakpoints@[j],
                                state,
                                false,
                            )
                        &&& final(self).breakpoints@ == old(self).breakpoints@.update(i, with_hit(old(self).breakpoints@[i]))
                        &&& hit_view(h) == (old(self).breakpoints@[i].id@, node_id@, state_model(state), now)
                    } && hits_view(final(self).hit_history@) == hits_view(old(self).hit_history@).push(hit_view(h)),
                None => {
                    &&& forall|j: int|
                        0 <= j < old(self).breakpoints@.len() && old(self).breakpoints@[j].node_id@ == node_id@
                            ==> #[trigger] triggers(old(self).breakpoints@[j], state, false)
                    &&& final(self).breakpoints@ == old(self).breakpoints@
                    &&& final(self).hit_history == old(self).hit_history
                },
            },
    {
        let mut i: usize = 0;
        while i < self.breakpoints.len()
            invariant
                i <= self.breakpoints@.len(),
                self.breakpoints == old(self).breakpoints,
                self.hit_history == old(self).hit_history,
                forall|j: int| 0 <= j < self.breakpoints@.len() ==> can_evaluate(#[trigger] self.breakpoints@[j], state),
                forall|j: int|
                    0 <= j < i && self.breakpoints@[j].node_id@ == node_id@ ==> #[trigger] triggers(
                        self.breakpoints@[j],
                        state,
                        false,
                    ),
            decreases self.breakpoints@.len() - i,
        {
            if str_eq(self.breakpoints[i].node_id.as_str(), node_id) && self.breakpoints[i].should_trigger(&state) {
                let mut bp = self.breakpoints.remove(i);
                bp.hit_count = bp.hit_count.wrapping_add(1);
                let id = bp.id.clone();
                self.breakpoints.insert(i, bp);
                assert(self.breakpoints@ =~= old(self).breakpoints@.update(i as int, with_hit(old(self).breakpoints@[i as int])));
                let hit = BreakpointHit { breakpoint_id: id, node_id: node_id.to_owned(), state_snapshot: state, timestamp: now };
                let ghost before = self.hit_history@;
                self.hit_history.push(hit.copy());
                assert(hits_view(self.hit_history@) =~= hits_view(before).push(hit_view(hit)));
                return Some(hit);
            }
            i = i + 1;
        }
        None
    }

    /// Records a hit of the breakpoint `breakpoint_id` at `now`: its count
    /// goes up, where it is set, and the hit is recorded without a node.
    pub fn record_hit(&mut self, breakpoint_id: &str, state: &StateData, now: u64)
        ensures
            hits_view(final(self).hit_history@) == hits_view(old(self).hit_history@).push(
                (breakpoint_id@, Seq::<char>::empty(), state_model(*state), now),
            ),
            (exists|i: int| 0 <= i < old(self).breakpoints@.len() && #[trigger] old(self).breakpoints@[i].id@ == breakpoint_id@) ==> exists|i: int|
                0 <= i < old(self).breakpoints@.len() && old(self).breakpoints@[i].id@ == breakpoint_id@
                    && (forall|j: int| 0 <= j < i ==> #[trigger] old(self).breakpoints@[j].id@ != breakpoint_id@)
                    && final(self).breakpoints@ == old(self).breakpoints@.update(i, with_hit(old(self).breakpoints@[i])),
            !(exists|i: int| 0 <= i < old(self).breakpoints@.len() && #[trigger] old(self).breakpoints@[i].id@ == breakpoint_id@)
                ==> final(self).breakpoints@ == old(self).breakpoints@,
    {
        let mut i: usize = 0;
        let mut pos: Option<usize> = None;
        while i < self.breakpoints.len() && pos.is_none()
            invariant
                i <= self.breakpoints@.len(),
                self.breakpoints == old(self).breakpoints,
                self.hit_history == old(self).hit_history,
                forall|j: int| 0 <= j < i ==> #[trigger] self.breakpoints@[j].id@ != breakpoint_id@,
                pos matches Some(p) ==> p == i && i < self.breakpoints@.len() && self.breakpoints@[p as int].id@ == breakpoint_id@,
            decreases self.breakpoints@.len() - i + (if pos is None { 1int } else { 0int }),
        {
            if str_eq(self.breakpoints[i].id.as_str(), breakpoint_id) {
                pos = Some(i);
            } else {
                i = i + 1;
            }
        }
        match pos {
            Some(p) => {
                let mut bp = self.breakpoints.remove(p);
                bp.hit_count = bp.hit_count.wrapping_add(1);
                self.breakpoints.insert(p, bp);
                assert(self.breakpoints@ =~= old(self).breakpoints@.update(p as int, with_hit(old(self).breakpoints@[p as int])));
            },
            None => {},
        }
        let hit = BreakpointHit {
            breakpoint_id: breakpoint_id.to_owned(),
            node_id: String::new(),
            state_snapshot: clone_state(state),
            timestamp: now,
        };
        let ghost before = self.hit_history@;
        self.hit_history.push(hit);
        assert(hits_view(self.hit_history@) =~= hits_view(before).push(hit_view(hit)));
    }

    /// Copies of the hits of the breakpoint `breakpoint_id`, oldest first.
    pub fn get_hit_history(&self, breakpoint_id: &str) -> (r: Vec<BreakpointHit>)
        ensures
            hits_view(r@) == hits_view(hits_of(self.hit_history@, breakpoint_id@)),
    {
        let mut r: Vec<BreakpointHit> = Vec::new();
        let mut i: usize = 0;
        while i < self.hit_history.len()
            invariant
                i <= self.hit_history@.len(),
                hits_view(r@) == hits_view(hits_of(self.hit_history@.take(i as int), breakpoint_id@)),
            decreases self.hit_history@.len() - i,
        {
            let ghost pre = self.hit_history@.take(i as int);
            assert(self.hit_history@.take(i + 1).drop_last() =~= pre);
            assert(self.hit_history@.take(i + 1).last() == self.hit_history@[i as int]);
            if str_eq(self.hit_history[i].breakpoint_id.as_str(), breakpoint_id) {
                let h = self.hit_history[i].copy();
                let ghost before = r@;
                r.push(h);
                assert(hits_of(self.hit_history@.take(i + 1), breakpoint_id@) == hits_of(pre, breakpoint_id@).push(self.hit_history@[i as int]));
                assert(hits_view(r@) =~= hits_view(before).push(hit_view(self.hit_history@[i as int])));
                assert(hits_view(hits_of(pre, breakpoint_id@).push(self.hit_history@[i as int])) =~= hits_view(hits_of(pre, breakpoint_id@)).push(hit_view(self.hit_history@[i as int])));
            }
            i = i + 1;
        }
        assert(self.hit_history@.take(i as int) =~= self.hit_history@);
        r
    }
}

} // verus!
