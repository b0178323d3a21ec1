//! What running a node does to the state, by node type.
use vstd::prelude::*;
use crate::error::LangGraphError;
use crate::engine::executor::ExecutionError;
use crate::graph::{Node, NodeType};
use crate::json::{JsonValue, JsonModel};
use crate::state::{StateData, state_model, clone_state};
use crate::text::{is_prefix, starts_with, to_chars, str_eq, push_str};

verus! {

/// The state map after adding one to the integer under `key`, if the key
/// holds an integer.
pub open spec fn bump(m: Map<Seq<char>, JsonModel>, key: Seq<char>) -> Map<Seq<char>, JsonModel> {
    match (if m.contains_key(key) { Some(m[key]) } else { None }) {
        Some(JsonModel::Number(c)) => m.insert(key, JsonModel::Number(c + 1)),
        _ => m,
    }
}

/// Whether the integer under `key`, if any, can be increased.
pub open spec fn bumpable(m: Map<Seq<char>, JsonModel>, key: Seq<char>) -> bool {
    m.contains_key(key) ==> match m[key] {
        JsonModel::Number(c) => c < i64::MAX,
        _ => true,
    }
}

/// What an agent node does: sets `agent_executed` to true where present,
/// counts `execution_count` up, and for a node whose id starts with
/// `collect` records `<id>_data` as `data_from_<id>`, or for the node
/// `aggregate` records `aggregated_result` as `aggregated_data`.
pub open spec fn agent_effect(id: Seq<char>, m: Map<Seq<char>, JsonModel>) -> Map<Seq<char>, JsonModel> {
    let m1 = if m.contains_key("agent_executed"@) {
        m.insert("agent_executed"@, JsonModel::Bool(true))
    } else {
        m
    };
    let m2 = bump(m1, "execution_count"@);
    if is_prefix("collect"@, id) {
        m2.insert(id + "_data"@, JsonModel::Str("data_from_"@ + id))
    } else if id == "aggregate"@ {
        m2.insert("aggregated_result"@, JsonModel::Str("aggregated_data"@))
    } else {
        m2
    }
}

/// What a tool node does: counts `counter` and `execution_count` up.
pub open spec fn tool_effect(m: Map<Seq<char>, JsonModel>) -> Map<Seq<char>, JsonModel> {
    bump(bump(m, "counter"@), "execution_count"@)
}

/// What a node does to the state when it succeeds.
pub open spec fn node_effect(node: Node, m: Map<Seq<char>, JsonModel>) -> Map<Seq<char>, JsonModel> {
    match node.node_type {
        NodeType::Agent(_) => agent_effect(node.id@, m),
        NodeType::Tool(_) => tool_effect(m),
        NodeType::Conditional => m.insert("conditional_"@ + node.id@ + "_executed"@, JsonModel::Bool(true)),
        NodeType::Subgraph(name) => m.insert("subgraph_"@ + node.id@ + "_executed"@, JsonModel::Str(name@)),
        NodeType::Custom(t) => m.insert("custom_"@ + node.id@ + "_executed"@, JsonModel::Str(t@)),
        _ => m,
    }
}

/// Whether running the node fails: an agent or tool node with an empty id
/// or an empty agent or tool name.
pub open spec fn node_fails(node: Node) -> bool {
    match node.node_type {
        NodeType::Agent(a) => node.id@.len() == 0 || a@.len() == 0,
        NodeType::Tool(t) => node.id@.len() == 0 || t@.len() == 0,
        _ => false,
    }
}

/// Whether running the node keeps the counters it raises within range (a
/// node that fails raises none).
pub open spec fn node_in_range(node: Node, m: Map<Seq<char>, JsonModel>) -> bool {
    node_fails(node) || match node.node_type {
        NodeType::Agent(_) => bumpable(m, "execution_count"@),
        NodeType::Tool(_) => bumpable(m, "counter"@) && bumpable(m, "execution_count"@),
        _ => true,
    }
}

/// Whether the integer under `key`, if any, can be raised by one.
pub fn bump_fits(state: &StateData, key: &str) -> (b: bool)
    ensures
        b == bumpable(state_model(*state), key@),
{
    match state.get(key) {
        Some(JsonValue::Number(v)) => *v < i64::MAX,
        _ => true,
    }
}

/// Whether running `node` on `state` keeps the counters it raises within
/// range.
pub fn node_fits(node: &Node, state: &StateData) -> (b: bool)
    ensures
        b == node_in_range(*node, state_model(*state)),
{
    match &node.node_type {
        NodeType::Agent(a) => node.id.unicode_len() == 0 || a.unicode_len() == 0 || bump_fits(state, "execution_count"),
        NodeType::Tool(t) => node.id.unicode_len() == 0 || t.unicode_len() == 0 || (bump_fits(state, "counter")
            && bump_fits(state, "execution_count")),
        _ => true,
    }
}

/// Inserts `value` under `key`.
fn put(state: &mut StateData, key: String, value: JsonValue)
    ensures
        state_model(*final(state)) == state_model(*old(state)).insert(key@, value@),
{
    state.insert(key, value);
    assert(state_model(*state) =~= state_model(*old(state)).insert(key@, value@));
}

/// Adds one to the integer under `key`, if it holds one.
fn bump_field(state: &mut StateData, key: &str)
    requires
        bumpable(state_model(*old(state)), key@),
    ensures
        state_model(*final(state)) == bump(state_model(*old(state)), key@),
{
    let n = match state.get(key) {
        Some(JsonValue::Number(c)) => Some(*c),
        _ => None,
    };
    match n {
        Some(c) => {
            put(state, key.to_owned(), JsonValue::Number(c + 1));
        },
        None => {},
    }
}

/// A string made of `a`, `b` and `c` in turn.
fn concat3(a: &str, b: &str, c: &str) -> (s: String)
    ensures
        s@ == a@ + b@ + c@,
{
    let mut s = String::new();
    push_str(&mut s, a);
    push_str(&mut s, b);
    push_str(&mut s, c);
    assert(s@ =~= a@ + b@ + c@);
    s
}

/// A string made of `a` and then `b`.
fn concat2(a: &str, b: &str) -> (s: String)
    ensures
        s@ == a@ + b@,
{
    let mut s = String::new();
    push_str(&mut s, a);
    push_str(&mut s, b);
    assert(s@ =~= a@ + b@);
    s
}

/// An execution error for a node that failed.
fn failed(msg: String) -> (e: LangGraphError)
    ensures
        e == LangGraphError::Engine(ExecutionError::NodeExecutionFailed(msg)),
{
    LangGraphError::Engine(ExecutionError::NodeExecutionFailed(msg))
}

/// Runs nodes by their type.
pub struct DefaultNodeExecutor;

impl DefaultNodeExecutor {
    /// Runs an agent node.
    pub fn execute_agent(&self, node_id: &str, agent_name: &str, state: &mut StateData) -> (r: Result<StateData, LangGraphError>)
        requires
            node_id@.len() > 0 && agent_name@.len() > 0 ==> bumpable(state_model(*old(state)), "execution_count"@),
        ensures
            node_id@.len() == 0 ==> (r matches Err(LangGraphError::Engine(ExecutionError::NodeExecutionFailed(m)))
                && m@ == "Agent node_id cannot be empty"@),
            node_id@.len() > 0 && agent_name@.len() == 0 ==> (r matches Err(LangGraphError::Engine(ExecutionError::NodeExecutionFailed(m)))
                && m@ == "Agent name cannot be empty for node "@ + node_id@),
            r is Err ==> *final(state) == *old(state),
            r is Ok <==> node_id@.len() > 0 && agent_name@.len() > 0,
            r is Ok ==> state_model(*final(state)) == agent_effect(node_id@, state_model(*old(state))),
            r matches Ok(s) ==> state_model(s) == state_model(*final(state)),
    {
        if node_id.unicode_len() == 0 {
            let mut m = String::new();
            push_str(&mut m, "Agent node_id cannot be empty");
            return Err(failed(m));
        }
        if agent_name.unicode_len() == 0 {
            return Err(failed(concat2("Agent name cannot be empty for node ", node_id)));
        }
        if state.contains_key("agent_executed") {
            let mut k = String::new();
            push_str(&mut k, "agent_executed");
            put(state, k, JsonValue::Bool(true));
        }
        assert(bumpable(state_model(*state), "execution_count"@)) by {
            reveal_strlit("execution_count");
            reveal_strlit("agent_executed");
            assert("agent_executed"@.len() != "execution_count"@.len());
            assert("agent_executed"@ != "execution_count"@);
        }
        bump_field(state, "execution_count");
        let idc = to_chars(node_id);
        let pc = to_chars("collect");
        if starts_with(idc.as_slice(), pc.as_slice()) {
            let key = concat2(node_id, "_data");
            let val = concat2("data_from_", node_id);
            put(state, key, JsonValue::String(val));
        } else if str_eq(node_id, "aggregate") {
            let mut key = String::new();
            push_str(&mut key, "aggregated_result");
            let mut val = String::new();
            push_str(&mut val, "aggregated_data");
            put(state, key, JsonValue::String(val));
        }
        Ok(clone_state(state))
    }

    /// Runs a tool node.
    pub fn execute_tool(&self, node_id: &str, tool_name: &str, state: &mut StateData) -> (r: Result<StateData, LangGraphError>)
        requires
            node_id@.len() > 0 && tool_name@.len() > 0 ==> bumpable(state_model(*old(state)), "counter"@)
                && bumpable(state_model(*old(state)), "execution_count"@),
        ensures
            node_id@.len() == 0 ==> (r matches Err(LangGraphError::Engine(ExecutionError::NodeExecutionFailed(m)))
                && m@ == "Tool node_id cannot be empty"@),
            node_id@.len() > 0 && tool_name@.len() == 0 ==> (r matches Err(LangGraphError::Engine(ExecutionError::NodeExecutionFailed(m)))
                && m@ == "Tool name cannot be empty for node "@ + node_id@),
            r is Err ==> *final(state) == *old(state),
            r is Ok <==> node_id@.len() > 0 && tool_name@.len() > 0,
            r is Ok ==> state_model(*final(state)) == tool_effect(state_model(*old(state))),
            r matches Ok(s) ==> state_model(s) == state_model(*final(state)),
    {
        if node_id.unicode_len() == 0 {
            let mut m = String::new();
            push_str(&mut m, "Tool node_id cannot be empty");
            return Err(failed(m));
        }
        if tool_name.unicode_len() == 0 {
            return Err(failed(concat2("Tool name cannot be empty for node ", node_id)));
        }
        bump_field(state, "counter");
        assert(bumpable(state_model(*state), "execution_count"@)) by {
            reveal_strlit("execution_count");
            reveal_strlit("counter");
            assert("counter"@.len() != "execution_count"@.len());
            assert("counter"@ != "execution_count"@);
        }
        bump_field(state, "execution_count");
        Ok(clone_state(state))
    }

    /// Runs a conditional node: records that it ran.
    pub fn execute_conditional(&self, node_id: &str, state: &mut StateData) -> (r: Result<StateData, LangGraphError>)
        ensures
            state_model(*final(state)) == state_model(*old(state)).insert(
                "conditional_"@ + node_id@ + "_executed"@,
                JsonModel::Bool(true),
            ),
            r matches Ok(s) && state_model(s) == state_model(*final(state)),
    {
        let key = concat3("conditional_", node_id, "_executed");
        put(state, key, JsonValue::Bool(true));
        Ok(clone_state(state))
    }

    /// Runs a subgraph node: records the subgraph's name.
    pub fn execute_subgraph(&self, node_id: &str, subgraph_name: &str, state: &mut StateData) -> (r: Result<StateData, LangGraphError>)
        ensures
            state_model(*final(state)) == state_model(*old(state)).insert(
                "subgraph_"@ + node_id@ + "_executed"@,
                JsonModel::Str(subgraph_name@),
            ),
            r matches Ok(s) && state_model(s) == state_model(*final(state)),
    {
        let key = concat3("subgraph_", node_id, "_executed");
        let val = subgraph_name.to_owned();
        put(state, key, JsonValue::String(val));
        Ok(clone_state(state))
    }

    /// Runs a custom node: records its type.
    pub fn execute_custom(&self, node_id: &str, custom_type: &str, state: &mut StateData) -> (r: Result<StateData, LangGraphError>)
        ensures
            state_model(*final(state)) == state_model(*old(state)).insert(
                "custom_"@ + node_id@ + "_executed"@,
                JsonModel::Str(custom_type@),
            ),
            r matches Ok(s) && state_model(s) == state_model(*final(state)),
    {
        let key = concat3("custom_", node_id, "_executed");
        let val = custom_type.to_owned();
        put(state, key, JsonValue::String(val));
        Ok(clone_state(state))
    }

    /// Runs a node according to its type.
    pub fn execute(&self, node: &Node, state: &mut StateData) -> (r: Result<StateData, LangGraphError>)
        requires
            node_in_range(*node, state_model(*old(state))),
        ensures
            r is Err <==> node_fails(*node),
            r is Err ==> *final(state) == *old(state),
            r is Ok ==> state_model(*final(state)) == node_effect(*node, state_model(*old(state))),
            r matches Ok(s) ==> state_model(s) == state_model(*final(state)),
    {
        match &node.node_type {
            NodeType::Start => Ok(clone_state(state)),
            NodeType::End => Ok(clone_state(state)),
            NodeType::Agent(agent_name) => self.execute_agent(node.id.as_str(), agent_name.as_str(), state),
            NodeType::Tool(tool_name) => self.execute_tool(node.id.as_str(), tool_name.as_str(), state),
            NodeType::Conditional => self.execute_conditional(node.id.as_str(), state),
            NodeType::Parallel => Ok(clone_state(state)),
            NodeType::Subgraph(name) => self.execute_subgraph(node.id.as_str(), name.as_str(), state),
            NodeType::Custom(t) => self.execute_custom(node.id.as_str(), t.as_str(), state),
        }
    }
}


/// What running a node by id in the engine does to the state: an agent
/// sets `agent_executed` where present and counts `execution_count` up; a
/// tool counts `counter` and `execution_count` up; a custom node counts
/// `execution_count` up; `__start__` and `__end__` change nothing; any other
/// node whose id starts with `collect` or `aggregate` records `<id>_data` as
/// `data_from_<id>`.
pub open spec fn engine_effect(node: Node, m: Map<Seq<char>, JsonModel>) -> Map<Seq<char>, JsonModel> {
    match node.node_type {
        NodeType::Agent(_) => bump(
            if m.contains_key("agent_executed"@) {
                m.insert("agent_executed"@, JsonModel::Bool(true))
            } else {
                m
            },
            "execution_count"@,
        ),
        NodeType::Tool(_) => tool_effect(m),
        NodeType::Start | NodeType::End => m,
        NodeType::Custom(_) => bump(m, "execution_count"@),
        _ => if is_prefix("collect"@, node.id@) || is_prefix("aggregate"@, node.id@) {
            m.insert(node.id@ + "_data"@, JsonModel::Str("data_from_"@ + node.id@))
        } else {
            m
        },
    }
}

/// Whether the engine running the node keeps the counters it raises within
/// range.
pub open spec fn engine_in_range(node: Node, m: Map<Seq<char>, JsonModel>) -> bool {
    match node.node_type {
        NodeType::Agent(_) | NodeType::Custom(_) => bumpable(m, "execution_count"@),
        NodeType::Tool(_) => bumpable(m, "counter"@) && bumpable(m, "execution_count"@),
        _ => true,
    }
}

/// The message for a node that the graph lacks.
pub open spec fn missing_node_message(id: Seq<char>) -> Seq<char> {
    "Node "@ + id + " not found"@
}

/// Runs the node named `node_id` of `graph` on `state`, as the engine runs a
/// single node; fails with `InvalidState` where the graph has no such node.
pub fn execute_node_by_id(graph: &crate::graph::CompiledGraph, node_id: &str, state: StateData) -> (r: Result<StateData, LangGraphError>)
    requires
        graph.wf(),
        graph.inner().names().contains_key(node_id@) ==> engine_in_range(
            graph.inner().node_seq()[graph.inner().names()[node_id@] as int],
            state_model(state),
        ),
    ensures
        !graph.inner().names().contains_key(node_id@) ==> (r matches Err(LangGraphError::Engine(
            ExecutionError::InvalidState(m),
        )) && m@ == missing_node_message(node_id@)),
        graph.inner().names().contains_key(node_id@) ==> (r matches Ok(s) && state_model(s) == engine_effect(
            graph.inner().node_seq()[graph.inner().names()[node_id@] as int],
            state_model(state),
        )),
{
    let g = graph.graph();
    let node = match g.get_node(node_id) {
        Some(n) => n,
        None => {
            let mut m = String::new();
            push_str(&mut m, "Node ");
            push_str(&mut m, node_id);
            push_str(&mut m, " not found");
            assert(m@ =~= missing_node_message(node_id@));
            return Err(LangGraphError::Engine(ExecutionError::InvalidState(m)));
        },
    };
    let mut state = state;
    proof {
        reveal_strlit("execution_count");
        reveal_strlit("agent_executed");
        reveal_strlit("counter");
        assert("agent_executed"@.len() != "execution_count"@.len());
        assert("counter"@.len() != "execution_count"@.len());
    }
    match &node.node_type {
        NodeType::Agent(_) => {
            if state.contains_key("agent_executed") {
                let mut k = String::new();
                push_str(&mut k, "agent_executed");
                put(&mut state, k, JsonValue::Bool(true));
            }
            bump_field(&mut state, "execution_count");
        },
        NodeType::Tool(_) => {
            bump_field(&mut state, "counter");
            bump_field(&mut state, "execution_count");
        },
        NodeType::Start | NodeType::End => {},
        NodeType::Custom(_) => {
            bump_field(&mut state, "execution_count");
        },
        _ => {
            let id = node.id.as_str();
            let idc = to_chars(id);
            let c1 = to_chars("collect");
            let c2 = to_chars("aggregate");
            if starts_with(idc.as_slice(), c1.as_slice()) || starts_with(idc.as_slice(), c2.as_slice()) {
                let key = concat2(id, "_data");
                let val = concat2("data_from_", id);
                put(&mut state, key, JsonValue::String(val));
            }
        },
    }
    Ok(state)
}

} // verus!
