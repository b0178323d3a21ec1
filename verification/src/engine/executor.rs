//! Running a compiled graph over a state.
use vstd::prelude::*;
use crate::error::LangGraphError;
use crate::graph::{CompiledGraph, StateGraph, Node, start_name, end_name, start_str, end_str, strings_view};
use crate::graph::digraph::has_cycle;
use crate::json::{JsonModel, JsonValue};
use crate::state::{StateData, state_model, clone_state};
use crate::text::{str_eq, push_str};
use crate::engine::traversal::{
    GraphTraverser, TraversalStrategy, is_named_topo, end_edges_ranked, topo_members, is_topo_order,
    absent_specials, order_names, is_visit_order, is_closed,
};
use crate::engine::node_executor::{DefaultNodeExecutor, node_effect, node_fails, node_in_range, node_fits};
use crate::engine::levels::lemma_pigeonhole;

verus! {

/// Errors specific to execution.
#[derive(Debug)]
pub enum ExecutionError {
    /// A node failed.
    NodeExecutionFailed(String),
    /// The execution ran out of time.
    Timeout(String),
    /// The execution was cancelled.
    Cancelled,
    /// The execution reached a state it cannot go on from.
    InvalidState(String),
    /// A message between nodes could not be passed.
    MessageError(String),
    /// The execution needs authentication.
    AuthenticationRequired,
    /// Authentication was refused.
    AuthenticationFailed(String),
}

/// Status of an execution.
#[derive(Debug, Clone, Copy, PartialEq, Eq, Structural)]
pub enum ExecutionStatus {
    /// Execution is pending
    Pending,
    /// Execution is running
    Running,
    /// Execution completed successfully
    Completed,
    /// Execution failed
    Failed,
    /// Execution was cancelled
    Cancelled,
    /// Execution was suspended
    Suspended,
}

/// Metadata about an execution.
#[derive(Debug)]
pub struct ExecutionMetadata {
    /// Start timestamp
    pub started_at: u64,
    /// End timestamp (if completed)
    pub ended_at: Option<u64>,
    /// Total nodes executed
    pub nodes_executed: usize,
    /// Execution status
    pub status: ExecutionStatus,
    /// Error message if failed
    pub error: Option<String>,
}

} // verus!

verus! {

/// Whether the integers under `counter` and `execution_count`, where
/// present, leave room for `r` more increments.
pub open spec fn counters_ok(m: Map<Seq<char>, JsonModel>, r: int) -> bool {
    &&& (m.contains_key("counter"@) && m["counter"@] is Number ==> m["counter"@]->Number_0 + r <= i64::MAX)
    &&& (m.contains_key("execution_count"@) && m["execution_count"@] is Number ==> m["execution_count"@]->Number_0 + r <= i64::MAX)
}

/// Whether the counters of `state` can each rise `r` more times, which a
/// run of `r` more nodes asks for.
pub fn counters_fit(state: &StateData, r: i64) -> (b: bool)
    requires
        r >= 0,
    ensures
        b == counters_ok(state_model(*state), r as int),
{
    let c = match state.get("counter") {
        Some(JsonValue::Number(v)) => *v <= i64::MAX - r,
        _ => true,
    };
    let e = match state.get("execution_count") {
        Some(JsonValue::Number(v)) => *v <= i64::MAX - r,
        _ => true,
    };
    c && e
}

/// What running the node named `name` does: `__start__` and `__end__` are
/// skipped; an unknown name or a failing node stops the run.
pub open spec fn run_step(g: StateGraph, name: Seq<char>, m: Map<Seq<char>, JsonModel>) -> Option<Map<Seq<char>, JsonModel>> {
    if name == start_name() || name == end_name() {
        Some(m)
    } else if !g.names().contains_key(name) {
        None
    } else {
        let node = g.node_seq()[g.names()[name] as int];
        if node_fails(node) {
            None
        } else {
            Some(node_effect(node, m))
        }
    }
}

/// What running the nodes named `names` in turn does; none when one stops
/// the run.
pub open spec fn run_all(g: StateGraph, names: Seq<Seq<char>>, m: Map<Seq<char>, JsonModel>) -> Option<Map<Seq<char>, JsonModel>>
    decreases names.len(),
{
    if names.len() == 0 {
        Some(m)
    } else {
        match run_all(g, names.drop_last(), m) {
            Some(m1) => run_step(g, names.last(), m1),
            None => None,
        }
    }
}

/// A key ending in `_data` or `_executed`, or one of the fixed keys that
/// nodes write, is neither counter.
proof fn lemma_written_keys(id: Seq<char>)
    ensures
        id + "_data"@ != "counter"@,
        id + "_data"@ != "execution_count"@,
        "conditional_"@ + id + "_executed"@ != "counter"@,
        "conditional_"@ + id + "_executed"@ != "execution_count"@,
        "subgraph_"@ + id + "_executed"@ != "counter"@,
        "subgraph_"@ + id + "_executed"@ != "execution_count"@,
        "custom_"@ + id + "_executed"@ != "counter"@,
        "custom_"@ + id + "_executed"@ != "execution_count"@,
        "agent_executed"@ != "counter"@,
        "agent_executed"@ != "execution_count"@,
        "aggregated_result"@ != "counter"@,
        "aggregated_result"@ != "execution_count"@,
        "counter"@ != "execution_count"@,
{
    reveal_strlit("_data");
    reveal_strlit("counter");
    reveal_strlit("execution_count");
    reveal_strlit("_executed");
    reveal_strlit("conditional_");
    reveal_strlit("subgraph_");
    reveal_strlit("custom_");
    reveal_strlit("agent_executed");
    reveal_strlit("aggregated_result");
    let a = id + "_data"@;
    assert(a[a.len() - 1] == 'a');
    assert("counter"@[6] == 'r');
    assert("execution_count"@[14] == 't');
    let b = "conditional_"@ + id + "_executed"@;
    assert(b[b.len() - 1] == 'd');
    let c = "subgraph_"@ + id + "_executed"@;
    assert(c[c.len() - 1] == 'd');
    let d = "custom_"@ + id + "_executed"@;
    assert(d[d.len() - 1] == 'd');
    assert("agent_executed"@.len() != "counter"@.len());
    assert("agent_executed"@.len() != "execution_count"@.len());
    assert("aggregated_result"@.len() != "counter"@.len());
    assert("aggregated_result"@.len() != "execution_count"@.len());
    assert("counter"@.len() != "execution_count"@.len());
}

/// A node raises each counter by at most one.
pub proof fn lemma_effect_counters(node: Node, m: Map<Seq<char>, JsonModel>, r: int)
    requires
        r >= 0,
        counters_ok(m, r + 1),
    ensures
        counters_ok(node_effect(node, m), r),
        node_in_range(node, m),
{
    lemma_written_keys(node.id@);
}

/// Runs the graph's nodes in a topological order over the state (all the
/// nodes reached from `__start__`, where following edges by their targets'
/// names holds no cycle); fails with `InvalidState` when the graph has a
/// cycle, and at the first node that fails or that the graph does not hold.
/// Each node must keep the counters it raises within range, in whichever
/// topological order the nodes run.
pub fn execute_graph(graph: &CompiledGraph, input: &StateData) -> (r: Result<StateData, LangGraphError>)
    requires
        graph.wf(),
        end_edges_ranked(graph.inner()),
        forall|v: Seq<Seq<char>>| #[trigger] is_named_topo(graph.inner(), v) ==> run_in_range(
            graph.inner(),
            v,
            state_model(*input),
        ),
    ensures
        has_cycle(graph.inner().links()) ==> r matches Err(LangGraphError::Engine(ExecutionError::InvalidState(_))),
        !has_cycle(graph.inner().links()) ==> exists|v: Seq<Seq<char>>|
            is_named_topo(graph.inner(), v) && (crate::engine::traversal::acyclic_by_name(graph.inner())
                ==> crate::engine::traversal::is_full_named_topo(graph.inner(), v)) && ends_as_run(
                graph.inner(),
                v,
                state_model(*input),
                r,
            ),
{
    let traverser = GraphTraverser::new(TraversalStrategy::Topological);
    let order = match traverser.get_execution_order(graph) {
        Ok(o) => o,
        Err(e) => {
            return Err(e);
        },
    };
    let ghost v = strings_view(order@);
    let g = graph.graph();
    let ghost n = g.node_seq().len();
    proof {
        lemma_topo_len(*g, v);
        assert(run_in_range(*g, v, state_model(*input)));
    }
    let executor = DefaultNodeExecutor;
    let mut state = clone_state(input);
    let start = start_str();
    let end = end_str();
    let mut i: usize = 0;
    while i < order.len()
        invariant
            g.wf(),
            *g == graph.inner(),
            n == g.node_seq().len(),
            v == strings_view(order@),
            v.len() <= n + 2,
            i <= order@.len(),
            start@ == start_name(),
            end@ == end_name(),
            run_all(*g, v.take(i as int), state_model(*input)) == Some(state_model(state)),
            run_in_range(*g, v, state_model(*input)),
            !has_cycle(g.links()),
            is_named_topo(*g, v),
            crate::engine::traversal::acyclic_by_name(*g) ==> crate::engine::traversal::is_full_named_topo(*g, v),
        decreases order@.len() - i,
    {
        let name = &order[i];
        let ghost m0 = state_model(state);
        proof {
            assert(v.take(i + 1).drop_last() =~= v.take(i as int));
            assert(v.take(i + 1).last() == name@);
            lemma_run_in_range_prefix(*g, v, state_model(*input), i + 1);
            assert(name_in_range(*g, name@, m0));
        }
        if str_eq(name.as_str(), start.as_str()) || str_eq(name.as_str(), end.as_str()) {
        } else {
            let node = match g.get_node(name.as_str()) {
                Some(node) => node,
                None => {
                    let mut msg = String::new();
                    push_str(&mut msg, "Node not found: ");
                    push_str(&mut msg, name.as_str());
                    proof {
                        lemma_run_stops(*g, v, state_model(*input), i as int);
                    }
                    return Err(LangGraphError::Engine(ExecutionError::NodeExecutionFailed(msg)));
                },
            };
            match executor.execute(node, &mut state) {
                Ok(s) => {
                    state = s;
                },
                Err(e) => {
                    proof {
                        lemma_run_stops(*g, v, state_model(*input), i as int);
                    }
                    return Err(e);
                },
            }
        }
        i = i + 1;
    }
    proof {
        assert(v.take(order@.len() as int) =~= v);
    }
    Ok(state)
}

/// Whether `r` is what running the nodes named `v` in turn from `m` gives:
/// the state it ends in, or a failure where it stops.
pub open spec fn ends_as_run(g: StateGraph, v: Seq<Seq<char>>, m: Map<Seq<char>, JsonModel>, r: Result<StateData, LangGraphError>) -> bool {
    match r {
        Ok(s) => run_all(g, v, m) == Some(state_model(s)),
        Err(_) => run_all(g, v, m) is None,
    }
}

/// Whether running the node named `name` on `m` keeps the counters it
/// raises within range; `__start__`, `__end__` and a name the graph lacks
/// run nothing.
pub open spec fn name_in_range(g: StateGraph, name: Seq<char>, m: Map<Seq<char>, JsonModel>) -> bool {
    name == start_name() || name == end_name() || !g.names().contains_key(name) || node_in_range(
        g.node_seq()[g.names()[name] as int],
        m,
    )
}

/// Whether running the node named `name` on `state` keeps the counters it
/// raises within range.
pub fn name_fits(graph: &CompiledGraph, name: &str, state: &StateData) -> (b: bool)
    requires
        graph.wf(),
    ensures
        b == name_in_range(graph.inner(), name@, state_model(*state)),
{
    let start = start_str();
    let end = end_str();
    if str_eq(name, start.as_str()) || str_eq(name, end.as_str()) {
        return true;
    }
    match graph.graph().get_node(name) {
        Some(node) => node_fits(node, state),
        None => true,
    }
}

/// Whether running the nodes named `names` in turn from `m` keeps every
/// counter that a node raises within range, up to where the run stops.
pub open spec fn run_in_range(g: StateGraph, names: Seq<Seq<char>>, m: Map<Seq<char>, JsonModel>) -> bool
    decreases names.len(),
{
    if names.len() == 0 {
        true
    } else {
        run_in_range(g, names.drop_last(), m) && match run_all(g, names.drop_last(), m) {
            Some(m1) => name_in_range(g, names.last(), m1),
            None => true,
        }
    }
}

/// A run within range is within range over each of its beginnings.
pub(crate) proof fn lemma_run_in_range_prefix(g: StateGraph, v: Seq<Seq<char>>, m: Map<Seq<char>, JsonModel>, k: int)
    requires
        0 <= k <= v.len(),
        run_in_range(g, v, m),
    ensures
        run_in_range(g, v.take(k), m),
    decreases v.len() - k,
{
    if k == v.len() {
        assert(v.take(k) =~= v);
    } else {
        lemma_run_in_range_prefix(g, v.drop_last(), m, k);
        assert(v.drop_last().take(k) =~= v.take(k));
    }
}

/// Counters with room for one increment per name keep a run of those names
/// within range, and leave the room that the run did not use.
pub proof fn lemma_room_keeps_run_in_range(g: StateGraph, v: Seq<Seq<char>>, m: Map<Seq<char>, JsonModel>, r: int)
    requires
        r >= v.len(),
        counters_ok(m, r),
    ensures
        run_in_range(g, v, m),
        run_all(g, v, m) matches Some(m1) ==> counters_ok(m1, r - v.len()),
    decreases v.len(),
{
    if v.len() > 0 {
        let u = v.drop_last();
        lemma_room_keeps_run_in_range(g, u, m, r);
        match run_all(g, u, m) {
            Some(m1) => {
                let name = v.last();
                if !(name == start_name() || name == end_name()) && g.names().contains_key(name) {
                    lemma_effect_counters(g.node_seq()[g.names()[name] as int], m1, r - v.len());
                }
            },
            None => {},
        }
    }
}

/// A run that stops at one name stops for good.
pub(crate) proof fn lemma_run_stops(g: StateGraph, v: Seq<Seq<char>>, m: Map<Seq<char>, JsonModel>, i: int)
    requires
        0 <= i < v.len(),
        run_all(g, v.take(i + 1), m) is None,
    ensures
        run_all(g, v, m) is None,
    decreases v.len() - i,
{
    if i + 1 < v.len() {
        assert(v.take(i + 2).drop_last() =~= v.take(i + 1));
        lemma_run_stops(g, v, m, i + 1);
    } else {
        assert(v.take(i + 1) =~= v);
    }
}

/// A topological order by name holds at most two names besides the nodes.
proof fn lemma_topo_len(g: StateGraph, v: Seq<Seq<char>>)
    requires
        g.wf(),
        is_named_topo(g, v),
    ensures
        v.len() <= g.node_seq().len() + 2,
{
    let (all, order) = choose|all: Seq<usize>, order: Seq<usize>|
        topo_members(g, all) && is_topo_order(g, all, order) && v == absent_specials(g) + order_names(g, order);
    g.lemma_counts();
    assert forall|k: int| 0 <= k < order.len() implies (#[trigger] order[k]) < g.node_seq().len() by {
        assert(all.contains(order[k]));
        let w = choose|w: int| 0 <= w < all.len() && all[w] == order[k];
    }
    lemma_pigeonhole(order, g.node_seq().len() as int);
}

} // verus!
