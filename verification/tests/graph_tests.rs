use langgraph::engine::parallel_executor::{StateVersionManager, duration_millis};
use langgraph::graph::subgraph::RecursiveSubgraph;
use langgraph::engine::interrupts::run_continuing;
use langgraph::engine::executor::execute_graph;
use langgraph::engine::parallel::DependencyAnalyzer;
use langgraph::engine::traversal::end_edges_ok;
use langgraph::engine::resilience::{retry_decision, RetryStep};
use langgraph::engine::parallel_executor::ParallelExecutor;
use langgraph::graph::{Edge, EdgeType, Node, NodeType, StateGraph, CompiledGraph};
use langgraph::graph::builder::GraphBuilder;
use langgraph::graph::command::{Command, GraphTarget};
use langgraph::graph::condition::{ConditionEvaluator, ConditionalRouter};
use langgraph::engine::traversal::{GraphTraverser, TraversalStrategy};
use langgraph::json::JsonValue;
use langgraph::state::StateData;
use langgraph::keyed_map::StrMap;
use langgraph::error::LangGraphError;
use langgraph::graph::subgraph::{merge_output, Subgraph, SubgraphBuilder};
use langgraph::graph::GraphError;
use langgraph::graph::conditional::{ConditionalEdge, ConditionalRouter as BranchRouter, MultiConditionalRouter};

fn text(s: &str) -> JsonValue {
    JsonValue::String(s.to_string())
}

fn object(entries: Vec<(&str, JsonValue)>) -> JsonValue {
    JsonValue::Object(entries.into_iter().map(|(k, v)| (k.to_string(), v)).collect())
}

fn field<'a>(v: &'a JsonValue, k: &str) -> Option<&'a JsonValue> {
    match v {
        JsonValue::Object(o) => o.iter().find(|(key, _)| key == k).map(|(_, x)| x),
        _ => None,
    }
}

#[test]
fn test_node_type_equality() {
    assert_eq!(NodeType::Start, NodeType::Start);
    assert_eq!(NodeType::End, NodeType::End);
    assert_eq!(NodeType::Agent("agent1".to_string()), NodeType::Agent("agent1".to_string()));
    assert_ne!(NodeType::Agent("agent1".to_string()), NodeType::Agent("agent2".to_string()));
}

#[test]
fn node_test_node_creation() {
    let node = Node {
        id: "test_node".to_string(),
        node_type: NodeType::Agent("test_agent".to_string()),
        metadata: Some(object(vec![("key", text("value"))])),
    };
    assert_eq!(node.id, "test_node");
    assert_eq!(node.node_type, NodeType::Agent("test_agent".to_string()));
    assert!(node.metadata.is_some());
}

#[test]
fn lib_test_node_creation() {
    let node = Node { id: "test_node".to_string(), node_type: NodeType::Start, metadata: None };
    assert_eq!(node.id, "test_node");
    assert!(matches!(node.node_type, NodeType::Start));
}

#[test]
fn test_direct_edge() {
    let edge = Edge::direct();
    assert_eq!(edge.edge_type, EdgeType::Direct);
    assert!(edge.metadata.is_none());
}

#[test]
fn edge_test_conditional_edge() {
    let edge = Edge::conditional("check_status".to_string(), "next_node".to_string());
    match edge.edge_type {
        EdgeType::Conditional(ref cond) => {
            assert_eq!(cond.condition, "check_status");
            assert_eq!(cond.target, "next_node");
            assert!(cond.fallback.is_none());
        }
        _ => panic!("Expected conditional edge"),
    }
}

#[test]
fn test_conditional_edge_with_fallback() {
    let edge = Edge::conditional_with_fallback(
        "check_status".to_string(),
        "success_node".to_string(),
        "error_node".to_string(),
    );
    match edge.edge_type {
        EdgeType::Conditional(ref cond) => {
            assert_eq!(cond.condition, "check_status");
            assert_eq!(cond.target, "success_node");
            assert_eq!(cond.fallback, Some("error_node".to_string()));
        }
        _ => panic!("Expected conditional edge"),
    }
}

#[test]
fn test_edge_with_metadata() {
    let edge = Edge::direct()
        .with_metadata(object(vec![("priority", JsonValue::Number(1)), ("description", text("Main flow"))]));
    assert_eq!(edge.edge_type, EdgeType::Direct);
    assert!(edge.metadata.is_some());
    let metadata = edge.metadata.unwrap();
    assert_eq!(field(&metadata, "priority"), Some(&JsonValue::Number(1)));
    assert_eq!(field(&metadata, "description"), Some(&text("Main flow")));
}

#[test]
fn test_graph_creation() {
    let graph = StateGraph::new("test_graph".to_string());
    assert_eq!(graph.metadata().name, "test_graph");
    assert_eq!(graph.metadata().version, "0.1.0");
}

#[test]
fn test_add_node() {
    let mut graph = StateGraph::new("test_graph".to_string());
    let node = Node { id: "test_node".to_string(), node_type: NodeType::Start, metadata: None };
    let _idx = graph.add_node(node);
    assert!(graph.get_node("test_node").is_some());
}

#[test]
fn test_add_edge() {
    let mut graph = StateGraph::new("test_graph".to_string());
    graph.add_node(Node { id: "node1".to_string(), node_type: NodeType::Start, metadata: None });
    graph.add_node(Node { id: "node2".to_string(), node_type: NodeType::End, metadata: None });
    let edge = Edge { edge_type: EdgeType::Direct, metadata: None };
    assert!(graph.add_edge("node1", "node2", edge).is_ok());
}

#[test]
fn test_validation_fails_without_start() {
    let graph = StateGraph::new("test_graph".to_string());
    assert!(graph.validate().is_err());
}

#[test]
fn add_edge_to_unknown_node_fails() {
    let mut graph = StateGraph::new("g".to_string());
    graph.add_node(Node { id: "a".to_string(), node_type: NodeType::Start, metadata: None });
    assert!(graph.add_edge("a", "missing", Edge::direct()).is_err());
    assert!(graph.add_edge("missing", "a", Edge::direct()).is_err());
}

#[test]
fn test_builder_basic() {
    let graph = GraphBuilder::new("test_graph".to_string())
        .add_node("node1".to_string(), NodeType::Agent("agent1".to_string()))
        .add_node("node2".to_string(), NodeType::Agent("agent2".to_string()))
        .add_edge("node1".to_string(), "node2".to_string())
        .set_entry_point("node1".to_string())
        .build()
        .unwrap();
    assert!(graph.get_node("node1").is_some());
    assert!(graph.get_node("node2").is_some());
    assert!(graph.get_node("__start__").is_some());
    assert!(graph.get_node("__end__").is_some());
}

#[test]
fn test_builder_with_metadata() {
    let graph = GraphBuilder::new("test_graph".to_string())
        .with_description("Test graph description".to_string())
        .with_version("1.0.0".to_string())
        .with_metadata("author".to_string(), text("test_author"))
        .add_node("node1".to_string(), NodeType::Agent("agent1".to_string()))
        .set_entry_point("node1".to_string())
        .build()
        .unwrap();
    assert_eq!(graph.metadata().description, Some("Test graph description".to_string()));
    assert_eq!(graph.metadata().version, "1.0.0");
    assert!(graph.metadata().extra.is_some());
}

#[test]
fn test_builder_conditional_edges() {
    let graph = GraphBuilder::new("test_graph".to_string())
        .add_node("node1".to_string(), NodeType::Agent("agent1".to_string()))
        .add_node("node2".to_string(), NodeType::Agent("agent2".to_string()))
        .add_node("node3".to_string(), NodeType::Agent("agent3".to_string()))
        .add_conditional_edge_with_fallback(
            "node1".to_string(),
            "check_condition".to_string(),
            "node2".to_string(),
            "node3".to_string(),
        )
        .set_entry_point("node1".to_string())
        .build()
        .unwrap();
    assert!(graph.get_node("node1").is_some());
    assert!(graph.get_node("node2").is_some());
    assert!(graph.get_node("node3").is_some());
}

#[test]
fn builder_rejects_edge_to_unknown_node() {
    let r = GraphBuilder::new("g".to_string())
        .add_node("node1".to_string(), NodeType::Agent("a".to_string()))
        .add_edge("node1".to_string(), "ghost".to_string())
        .build();
    assert!(r.is_err());
}

fn create_test_graph() -> CompiledGraph {
    let mut graph = StateGraph::new("test".to_string());
    graph.add_node(Node { id: "__start__".to_string(), node_type: NodeType::Start, metadata: None });
    graph.add_node(Node {
        id: "process".to_string(),
        node_type: NodeType::Agent("processor".to_string()),
        metadata: None,
    });
    graph.add_node(Node { id: "__end__".to_string(), node_type: NodeType::End, metadata: None });
    graph.add_edge("__start__", "process", Edge::direct()).unwrap();
    graph.add_edge("process", "__end__", Edge::direct()).unwrap();
    graph.set_entry_point("__start__").unwrap();
    graph.compile().unwrap()
}

#[test]
fn test_breadth_first_traversal() {
    let graph = create_test_graph();
    let traverser = GraphTraverser::new(TraversalStrategy::BreadthFirst);
    let order = traverser.get_execution_order(&graph).unwrap();
    assert_eq!(order[0], "__start__");
    assert!(order.contains(&"process".to_string()));
    assert!(order.contains(&"__end__".to_string()));
}

#[test]
fn test_depth_first_traversal() {
    let graph = create_test_graph();
    let traverser = GraphTraverser::new(TraversalStrategy::DepthFirst);
    let order = traverser.get_execution_order(&graph).unwrap();
    assert_eq!(order[0], "__start__");
    assert!(order.contains(&"process".to_string()));
}

#[test]
fn test_topological_order() {
    let graph = create_test_graph();
    let traverser = GraphTraverser::new(TraversalStrategy::Topological);
    let order = traverser.get_execution_order(&graph).unwrap();
    let start_idx = order.iter().position(|x| x == "__start__").unwrap();
    let process_idx = order.iter().position(|x| x == "process").unwrap();
    let end_idx = order.iter().position(|x| x == "__end__").unwrap();
    assert!(start_idx < process_idx);
    assert!(process_idx < end_idx);
}

#[test]
fn topological_order_is_exactly_the_chain() {
    let graph = create_test_graph();
    let traverser = GraphTraverser::new(TraversalStrategy::Topological);
    let order = traverser.get_execution_order(&graph).unwrap();
    assert_eq!(order, vec!["__start__".to_string(), "process".to_string(), "__end__".to_string()]);
}

#[test]
fn test_command_creation() {
    let cmd = Command::new();
    assert!(cmd.update.is_none());
    assert!(cmd.goto.is_none());
    assert!(cmd.goto_multiple.is_none());
}

fn key_value_state() -> StateData {
    let mut state: StateData = StrMap::new();
    state.insert("key".to_string(), text("value"));
    state
}

#[test]
fn test_command_with_update() {
    let state = key_value_state();
    let cmd = Command::with_update(key_value_state());
    assert_eq!(cmd.update, Some(state));
    assert!(cmd.goto.is_none());
}

#[test]
fn test_command_with_goto() {
    let cmd = Command::with_goto("next_node".to_string());
    assert!(cmd.update.is_none());
    assert_eq!(cmd.goto, Some("next_node".to_string()));
}

#[test]
fn test_command_with_update_and_goto() {
    let state = key_value_state();
    let cmd = Command::with_update_and_goto(key_value_state(), "next_node".to_string());
    assert_eq!(cmd.update, Some(state));
    assert_eq!(cmd.goto, Some("next_node".to_string()));
}

#[test]
fn test_command_parallel() {
    let nodes = vec!["node1".to_string(), "node2".to_string()];
    let cmd = Command::parallel(nodes.clone());
    assert_eq!(cmd.goto_multiple, Some(nodes));
}

#[test]
fn test_command_builder() {
    let state = key_value_state();
    let cmd = Command::new()
        .update(key_value_state())
        .goto("next_node".to_string())
        .with_metadata(object(vec![("priority", JsonValue::Number(1))]));
    assert_eq!(cmd.update, Some(state));
    assert_eq!(cmd.goto, Some("next_node".to_string()));
    assert!(cmd.metadata.is_some());
}

#[test]
fn command_to_parent_targets_parent() {
    let cmd = Command::to_parent().set_graph(GraphTarget::Subgraph("s".to_string()));
    assert_eq!(cmd.graph, Some(GraphTarget::Subgraph("s".to_string())));
    assert_eq!(Command::to_parent().graph, Some(GraphTarget::Parent));
}

fn state_of(entries: Vec<(&str, JsonValue)>) -> StateData {
    let mut state: StateData = StrMap::new();
    for (k, v) in entries {
        state.insert(k.to_string(), v);
    }
    state
}

#[test]
fn test_equality_condition() {
    let state = state_of(vec![("status", text("active")), ("count", JsonValue::Number(5))]);
    assert!(ConditionEvaluator::evaluate("eq:status=active", &state).unwrap());
    assert!(!ConditionEvaluator::evaluate("eq:status=inactive", &state).unwrap());
    assert!(ConditionEvaluator::evaluate("eq:count=5", &state).unwrap());
    assert!(!ConditionEvaluator::evaluate("eq:count=10", &state).unwrap());
}

#[test]
fn test_comparison_conditions() {
    let state = state_of(vec![("score", JsonValue::Number(75))]);
    assert!(ConditionEvaluator::evaluate("gt:score>50", &state).unwrap());
    assert!(!ConditionEvaluator::evaluate("gt:score>100", &state).unwrap());
    assert!(ConditionEvaluator::evaluate("lt:score<100", &state).unwrap());
    assert!(!ConditionEvaluator::evaluate("lt:score<50", &state).unwrap());
}

#[test]
fn test_contains_condition() {
    let state = state_of(vec![
        ("text", text("hello world")),
        ("tags", JsonValue::Array(vec![text("rust"), text("graph"), text("async")])),
    ]);
    assert!(ConditionEvaluator::evaluate("contains:text:world", &state).unwrap());
    assert!(!ConditionEvaluator::evaluate("contains:text:foo", &state).unwrap());
    assert!(ConditionEvaluator::evaluate("contains:tags:rust", &state).unwrap());
    assert!(!ConditionEvaluator::evaluate("contains:tags:python", &state).unwrap());
}

#[test]
fn test_exists_condition() {
    let state = state_of(vec![("field1", JsonValue::Null), ("field2", JsonValue::Number(123))]);
    assert!(ConditionEvaluator::evaluate("exists:field1", &state).unwrap());
    assert!(ConditionEvaluator::evaluate("exists:field2", &state).unwrap());
    assert!(!ConditionEvaluator::evaluate("exists:field3", &state).unwrap());
}

#[test]
fn test_truthy_condition() {
    let state = state_of(vec![
        ("enabled", JsonValue::Bool(true)),
        ("disabled", JsonValue::Bool(false)),
        ("count", JsonValue::Number(5)),
        ("zero", JsonValue::Number(0)),
        ("text", text("hello")),
        ("empty", text("")),
    ]);
    assert!(ConditionEvaluator::evaluate("enabled", &state).unwrap());
    assert!(!ConditionEvaluator::evaluate("disabled", &state).unwrap());
    assert!(ConditionEvaluator::evaluate("count", &state).unwrap());
    assert!(!ConditionEvaluator::evaluate("zero", &state).unwrap());
    assert!(ConditionEvaluator::evaluate("text", &state).unwrap());
    assert!(!ConditionEvaluator::evaluate("empty", &state).unwrap());
}

#[test]
fn condition_evaluator_test_conditional_router() {
    let mut router = ConditionalRouter::new();
    router.add_route("gt:score>80".to_string(), "excellent".to_string(), 10);
    router.add_route("gt:score>60".to_string(), "good".to_string(), 5);
    router.add_route("exists:score".to_string(), "default".to_string(), 1);

    let mut state = state_of(vec![("score", JsonValue::Number(85))]);
    assert_eq!(router.route(&state).unwrap(), Some("excellent".to_string()));
    state.insert("score".to_string(), JsonValue::Number(70));
    assert_eq!(router.route(&state).unwrap(), Some("good".to_string()));
    state.insert("score".to_string(), JsonValue::Number(50));
    assert_eq!(router.route(&state).unwrap(), Some("default".to_string()));
}

#[test]
fn router_without_match_gives_none() {
    let mut router = ConditionalRouter::new();
    router.add_route("exists:score".to_string(), "default".to_string(), 1);
    let state = state_of(vec![]);
    assert_eq!(router.route(&state).unwrap(), None);
}


type Check = Box<dyn Fn(&StateData) -> bool>;

fn score_of(s: &StateData) -> Option<i64> {
    match s.get("score") {
        Some(JsonValue::Number(n)) => Some(*n),
        _ => None,
    }
}

fn kind_is(s: &StateData, t: &str) -> bool {
    matches!(s.get("type"), Some(JsonValue::String(v)) if v == t)
}

#[test]
fn conditional_test_conditional_edge() {
    let mut state: StateData = StrMap::new();
    state.insert("score".to_string(), JsonValue::Number(75));

    let edge: ConditionalEdge<Check> = ConditionalEdge::<Check>::new("start".to_string())
        .add_branch(
            "high_score".to_string(),
            Box::new(|s: &StateData| score_of(s).map(|score| score >= 80).unwrap_or(false)),
            10,
        )
        .add_branch(
            "medium_score".to_string(),
            Box::new(|s: &StateData| score_of(s).map(|score| score >= 60 && score < 80).unwrap_or(false)),
            5,
        )
        .with_default("low_score".to_string());

    let target = edge.evaluate(&state).unwrap();
    assert_eq!(target, "medium_score");
}

#[test]
fn conditional_test_conditional_router() {
    let mut state: StateData = StrMap::new();
    state.insert("type".to_string(), JsonValue::String("question".to_string()));

    let router: BranchRouter<Check> = BranchRouter::new("start".to_string()).add_edge(
        ConditionalEdge::<Check>::new("classifier".to_string())
            .add_branch("question_handler".to_string(), Box::new(|s: &StateData| kind_is(s, "question")), 10)
            .add_branch("statement_handler".to_string(), Box::new(|s: &StateData| kind_is(s, "statement")), 5)
            .with_default("unknown_handler".to_string()),
    );

    let target = router.route("classifier", &state).unwrap();
    assert_eq!(target, "question_handler");
}

#[test]
fn conditional_branches_keep_priority_order() {
    let edge: ConditionalEdge<Check> = ConditionalEdge::<Check>::new("a".to_string())
        .add_branch("low".to_string(), Box::new(|_: &StateData| true), 1)
        .add_branch("high".to_string(), Box::new(|_: &StateData| true), 9)
        .add_branch("also_high".to_string(), Box::new(|_: &StateData| true), 9);
    let order: Vec<&str> = edge.branches.iter().map(|b| b.target.as_str()).collect();
    assert_eq!(order, vec!["high", "also_high", "low"]);
    let empty: StateData = StrMap::new();
    assert_eq!(edge.evaluate(&empty).unwrap(), "high");
}

#[test]
fn conditional_edge_without_match_or_default_fails() {
    let edge: ConditionalEdge<Check> =
        ConditionalEdge::<Check>::new("src".to_string()).add_branch("x".to_string(), Box::new(|_: &StateData| false), 1);
    let empty: StateData = StrMap::new();
    let err = edge.evaluate(&empty).unwrap_err();
    assert!(matches!(err, LangGraphError::Graph(GraphError::EdgeError(m)) if m == "No matching condition for edge from src"));
    let router: BranchRouter<Check> = BranchRouter::new("r".to_string()).add_edge(edge);
    assert!(router.route("elsewhere", &empty).is_err());
}

#[test]
fn multi_router_checks_targets() {
    let router = MultiConditionalRouter::new(
        |s: &StateData| if s.contains_key("go") { "yes".to_string() } else { "nowhere".to_string() },
        vec!["yes".to_string()],
    );
    let mut state: StateData = StrMap::new();
    assert!(router.route(&state).is_err());
    state.insert("go".to_string(), JsonValue::Bool(true));
    assert_eq!(router.route(&state).unwrap(), "yes");
}

#[test]
fn test_subgraph_builder() {
    let subgraph_builder = GraphBuilder::new("sub".to_string())
        .add_node("__start__".to_string(), NodeType::Start)
        .add_node("__end__".to_string(), NodeType::End)
        .set_entry_point("__start__".to_string())
        .add_edge("__start__".to_string(), "__end__".to_string());

    let subgraph_compiled = subgraph_builder.build().unwrap().compile().unwrap();
    let subgraph = Subgraph::new("process_sub".to_string(), subgraph_compiled);

    let builder = SubgraphBuilder::new("parent".to_string()).add_subgraph(subgraph);

    let (parent, subgraphs) = builder.build().unwrap();
    assert!(parent.get_node("process_sub").is_some());
    assert!(subgraphs.contains_key("process_sub"));
    assert_eq!(
        parent.get_node("process_sub").unwrap().node_type,
        NodeType::Agent("subgraph:process_sub".to_string())
    );
}

#[test]
fn subgraph_output_merges_over_input() {
    let mut input: StateData = StrMap::new();
    input.insert("a".to_string(), text("1"));
    input.insert("b".to_string(), text("2"));
    let mut output: StateData = StrMap::new();
    output.insert("b".to_string(), text("20"));
    output.insert("c".to_string(), text("30"));
    let merged = merge_output(&input, output, false);
    assert_eq!(merged.get("a"), Some(&text("1")));
    assert_eq!(merged.get("b"), Some(&text("20")));
    assert_eq!(merged.get("c"), Some(&text("30")));
    let mut only: StateData = StrMap::new();
    only.insert("c".to_string(), text("30"));
    let isolated = merge_output(&input, only, true);
    assert_eq!(isolated.len(), 1);
}

#[test]
fn parallel_run_succeeds_on_acyclic_graph_and_counts_levels() {
    let compiled = GraphBuilder::new("p".to_string())
        .add_node("__start__".to_string(), NodeType::Start)
        .add_node("a".to_string(), NodeType::Agent("a".to_string()))
        .add_node("__end__".to_string(), NodeType::End)
        .set_entry_point("a".to_string())
        .add_edge("a".to_string(), "__end__".to_string())
        .build()
        .unwrap()
        .compile()
        .unwrap();
    let mut executor = ParallelExecutor::new(4);
    let mut state: StateData = StrMap::new();
    state.insert("x".to_string(), text("1"));
    let out = executor.execute_parallel(&compiled, state).unwrap();
    assert_eq!(out.get("x"), Some(&text("1")));
    assert_eq!(executor.parallel_batches, 3);
    assert_eq!(executor.rollbacks, 0);
}

#[test]
fn subgraph_with_passthrough_mappers_merges_input() {
    let compiled = GraphBuilder::new("sub".to_string())
        .add_node("__start__".to_string(), NodeType::Start)
        .add_node("__end__".to_string(), NodeType::End)
        .set_entry_point("__start__".to_string())
        .add_edge("__start__".to_string(), "__end__".to_string())
        .build()
        .unwrap()
        .compile()
        .unwrap();
    let subgraph = Subgraph::new("s".to_string(), compiled);
    let mut input: StateData = StrMap::new();
    input.insert("k".to_string(), text("v"));
    let out = subgraph.execute(&input).unwrap();
    assert_eq!(out.get("k"), Some(&text("v")));
    assert_eq!(out.len(), 1);
}

#[test]
fn readme_quick_start_runs_and_keeps_the_input() {
    let graph = GraphBuilder::new("my_workflow".to_string())
        .add_node("__start__".to_string(), NodeType::Start)
        .add_node("process".to_string(), NodeType::Agent("processor".to_string()))
        .add_node("__end__".to_string(), NodeType::End)
        .set_entry_point("__start__".to_string())
        .add_edge("__start__".to_string(), "process".to_string())
        .add_edge("process".to_string(), "__end__".to_string())
        .build()
        .unwrap()
        .compile()
        .unwrap();
    assert!(end_edges_ok(&graph));
    let mut input: StateData = StrMap::new();
    input.insert("input".to_string(), text("Hello, LangGraph!"));
    let result = execute_graph(&graph, &input).unwrap();
    assert_eq!(result.get("input"), Some(&text("Hello, LangGraph!")));
}

#[test]
fn tool_nodes_each_run_once_in_order() {
    let graph = GraphBuilder::new("g".to_string())
        .add_node("__start__".to_string(), NodeType::Start)
        .add_node("t1".to_string(), NodeType::Tool("a".to_string()))
        .add_node("t2".to_string(), NodeType::Tool("b".to_string()))
        .add_node("__end__".to_string(), NodeType::End)
        .set_entry_point("__start__".to_string())
        .add_edge("__start__".to_string(), "t1".to_string())
        .add_edge("t1".to_string(), "t2".to_string())
        .add_edge("t2".to_string(), "__end__".to_string())
        .build()
        .unwrap()
        .compile()
        .unwrap();
    let mut input: StateData = StrMap::new();
    input.insert("counter".to_string(), JsonValue::Number(0));
    let result = execute_graph(&graph, &input).unwrap();
    assert_eq!(result.get("counter"), Some(&JsonValue::Number(2)));
}

#[test]
fn diamond_graph_has_four_levels_with_a_shared_batch() {
    let graph = GraphBuilder::new("diamond".to_string())
        .add_node("__start__".to_string(), NodeType::Start)
        .add_node("A".to_string(), NodeType::Agent("a".to_string()))
        .add_node("B".to_string(), NodeType::Agent("b".to_string()))
        .add_node("C".to_string(), NodeType::Agent("c".to_string()))
        .add_node("__end__".to_string(), NodeType::End)
        .set_entry_point("__start__".to_string())
        .add_edge("__start__".to_string(), "A".to_string())
        .add_edge("__start__".to_string(), "B".to_string())
        .add_edge("A".to_string(), "C".to_string())
        .add_edge("B".to_string(), "C".to_string())
        .add_edge("C".to_string(), "__end__".to_string())
        .build()
        .unwrap()
        .compile()
        .unwrap();
    let analyzer = DependencyAnalyzer::analyze(&graph).unwrap();
    assert_eq!(analyzer.num_levels(), 4);
    let batch = analyzer.get_parallel_batch(1).unwrap();
    assert_eq!(batch.len(), 2);
    assert!(batch.contains(&"A".to_string()) && batch.contains(&"B".to_string()));
    let mut executor = ParallelExecutor::new(4);
    executor.execute_parallel(&graph, StrMap::new()).unwrap();
    // The builder already holds `__start__` and `__end__`; adding them again
    // adds two nodes that take the names over.
    assert_eq!(executor.total_nodes, 7);
    assert_eq!(executor.parallel_batches, 4);
}

#[test]
fn analysis_of_a_cycle_reports_it() {
    let graph = GraphBuilder::new("loop".to_string())
        .add_node("__start__".to_string(), NodeType::Start)
        .add_node("a".to_string(), NodeType::Agent("a".to_string()))
        .add_node("b".to_string(), NodeType::Agent("b".to_string()))
        .set_entry_point("a".to_string())
        .add_edge("a".to_string(), "b".to_string())
        .add_edge("b".to_string(), "a".to_string())
        .build()
        .unwrap();
    if let Ok(compiled) = graph.compile() {
        match DependencyAnalyzer::analyze(&compiled) {
            Err(LangGraphError::Engine(langgraph::engine::executor::ExecutionError::NodeExecutionFailed(m))) => {
                assert_eq!(m, "Graph contains cycles")
            }
            _ => panic!("expected the cycle to be reported"),
        }
    }
}

#[test]
fn retry_decisions() {
    assert_eq!(retry_decision(1, 3, true), RetryStep::Done);
    assert_eq!(retry_decision(1, 3, false), RetryStep::Retry);
    assert_eq!(retry_decision(3, 3, false), RetryStep::GiveUp);
}

#[test]
fn engine_runs_single_nodes_by_id() {
    let graph = GraphBuilder::new("g".to_string())
        .add_node("t".to_string(), NodeType::Tool("x".to_string()))
        .add_node("collect_a".to_string(), NodeType::Conditional)
        .add_node("c".to_string(), NodeType::Custom("k".to_string()))
        .set_entry_point("t".to_string())
        .add_edge("t".to_string(), "c".to_string())
        .add_edge("c".to_string(), "collect_a".to_string())
        .add_edge("collect_a".to_string(), "__end__".to_string())
        .build()
        .unwrap()
        .compile()
        .unwrap();
    let mut state: StateData = StrMap::new();
    state.insert("counter".to_string(), JsonValue::Number(1));
    state.insert("execution_count".to_string(), JsonValue::Number(0));
    let s = langgraph::engine::node_executor::execute_node_by_id(&graph, "t", state).unwrap();
    assert_eq!(s.get("counter"), Some(&JsonValue::Number(2)));
    assert_eq!(s.get("execution_count"), Some(&JsonValue::Number(1)));
    let s = langgraph::engine::node_executor::execute_node_by_id(&graph, "c", s).unwrap();
    assert_eq!(s.get("execution_count"), Some(&JsonValue::Number(2)));
    let s = langgraph::engine::node_executor::execute_node_by_id(&graph, "collect_a", s).unwrap();
    assert_eq!(s.get("collect_a_data"), Some(&text("data_from_collect_a")));
    match langgraph::engine::node_executor::execute_node_by_id(&graph, "nope", s) {
        Err(LangGraphError::Engine(langgraph::engine::executor::ExecutionError::InvalidState(m))) => {
            assert_eq!(m, "Node nope not found")
        }
        _ => panic!("expected a missing node"),
    }
}

fn parallel_test_graph() -> CompiledGraph {
    let mut graph = StateGraph::new("test_parallel".to_string());
    graph.add_node(Node { id: "__start__".to_string(), node_type: NodeType::Start, metadata: None });
    graph.add_node(Node { id: "A".to_string(), node_type: NodeType::Agent("process_a".to_string()), metadata: None });
    graph.add_node(Node { id: "B".to_string(), node_type: NodeType::Agent("process_b".to_string()), metadata: None });
    graph.add_node(Node { id: "C".to_string(), node_type: NodeType::Agent("merge_results".to_string()), metadata: None });
    graph.add_node(Node { id: "__end__".to_string(), node_type: NodeType::End, metadata: None });
    graph.add_edge("__start__", "A", Edge::direct()).unwrap();
    graph.add_edge("__start__", "B", Edge::direct()).unwrap();
    graph.add_edge("A", "C", Edge::direct()).unwrap();
    graph.add_edge("B", "C", Edge::direct()).unwrap();
    graph.add_edge("C", "__end__", Edge::direct()).unwrap();
    graph.set_entry_point("__start__").unwrap();
    graph.compile().unwrap()
}

#[test]
fn test_parallel_execution() {
    let graph = parallel_test_graph();
    let mut executor = ParallelExecutor::new(4);
    let initial_state: StateData = StrMap::new();
    let result = executor.execute_parallel(&graph, initial_state).unwrap();
    assert!(result.is_empty());
    assert_eq!(executor.total_nodes, 5);
    assert!(executor.parallel_batches > 0);
    assert_eq!(executor.parallel_batches, 4);
    assert!(executor.total_duration_ms > 0);
}

#[test]
fn test_state_versioning() {
    let mut manager = StateVersionManager::new(5);
    let mut state1: StateData = StrMap::new();
    state1.insert("key1".to_string(), text("value1"));
    let version1 = manager.snapshot(&state1, 0);
    assert_eq!(version1, 0);
    let mut state2: StateData = StrMap::new();
    state2.insert("key2".to_string(), text("value2"));
    let version2 = manager.snapshot(&state2, 0);
    assert_eq!(version2, 1);
    let rolled_back = manager.rollback(version1).unwrap();
    assert!(rolled_back.contains_key("key1"));
    assert!(!rolled_back.contains_key("key2"));
}

#[test]
fn a_snapshot_survives_fewer_than_the_limit_of_later_ones() {
    let mut manager = StateVersionManager::new(3);
    let mut saved: StateData = StrMap::new();
    saved.insert("k".to_string(), text("saved"));
    let v = manager.snapshot(&saved, 0);
    let mut other: StateData = StrMap::new();
    other.insert("k".to_string(), text("other"));
    manager.snapshot(&other, 0);
    manager.snapshot(&other, 0);
    assert_eq!(manager.rollback(v).unwrap().get("k"), Some(&text("saved")));
    manager.snapshot(&other, 0);
    match manager.rollback(v) {
        Err(LangGraphError::Engine(langgraph::engine::executor::ExecutionError::NodeExecutionFailed(m))) => {
            assert_eq!(m, "Version 0 not found")
        }
        _ => panic!("expected the snapshot to be gone"),
    }
}

#[test]
fn duration_millis_counts_whole_milliseconds_at_least_one() {
    assert_eq!(duration_millis(0, 0), 1);
    assert_eq!(duration_millis(0, 999_999), 1);
    assert_eq!(duration_millis(0, 2_500_000), 2);
    assert_eq!(duration_millis(10, 5), 1);
}

#[test]
fn recursive_subgraph_children_must_be_shallower() {
    let mut root = RecursiveSubgraph::new(Subgraph::new("root".to_string(), parallel_test_graph()), 3);
    let child = RecursiveSubgraph::new(Subgraph::new("child".to_string(), parallel_test_graph()), 2);
    assert!(root.add_child("c".to_string(), child).is_ok());
    let replacement = RecursiveSubgraph::new(Subgraph::new("other".to_string(), parallel_test_graph()), 1);
    assert!(root.add_child("c".to_string(), replacement).is_ok());
    assert_eq!(root.children.len(), 1);
    assert_eq!(root.children[0].1.max_depth, 1);
    let too_deep = RecursiveSubgraph::new(Subgraph::new("deep".to_string(), parallel_test_graph()), 3);
    match root.add_child("d".to_string(), too_deep) {
        Err(LangGraphError::Graph(GraphError::InvalidStructure(m))) => {
            assert_eq!(m, "Child subgraph depth exceeds parent limit")
        }
        _ => panic!("expected the child to be refused"),
    }
    assert_eq!(root.children.len(), 1);
}

#[test]
fn engine_single_nodes_that_raise_no_counter_accept_full_counters() {
    let graph = parallel_test_graph();
    let mut state: StateData = StrMap::new();
    state.insert("counter".to_string(), JsonValue::Number(i64::MAX));
    state.insert("execution_count".to_string(), JsonValue::Number(i64::MAX));
    let s = langgraph::engine::node_executor::execute_node_by_id(&graph, "__start__", state).unwrap();
    assert_eq!(s.get("counter"), Some(&JsonValue::Number(i64::MAX)));
    assert_eq!(s.get("execution_count"), Some(&JsonValue::Number(i64::MAX)));
    match langgraph::engine::node_executor::execute_node_by_id(&graph, "missing", s) {
        Err(LangGraphError::Engine(langgraph::engine::executor::ExecutionError::InvalidState(m))) => {
            assert_eq!(m, "Node missing not found")
        }
        _ => panic!("expected a missing node"),
    }
}

#[test]
fn continuing_interrupt_run_ends_as_the_plain_run() {
    let before = Some(object(vec![("interrupt_mode", text("Before"))]));
    let after = Some(object(vec![("interrupt_mode", text("After"))]));
    let mut graph = StateGraph::new("interrupts".to_string());
    graph.add_node(Node { id: "__start__".to_string(), node_type: NodeType::Start, metadata: None });
    graph.add_node(Node { id: "A".to_string(), node_type: NodeType::Tool("t".to_string()), metadata: before });
    graph.add_node(Node { id: "B".to_string(), node_type: NodeType::Agent("b".to_string()), metadata: after });
    graph.add_node(Node { id: "C".to_string(), node_type: NodeType::Conditional, metadata: None });
    graph.add_node(Node { id: "__end__".to_string(), node_type: NodeType::End, metadata: None });
    graph.add_edge("__start__", "A", Edge::direct()).unwrap();
    graph.add_edge("__start__", "B", Edge::direct()).unwrap();
    graph.add_edge("A", "C", Edge::direct()).unwrap();
    graph.add_edge("B", "C", Edge::direct()).unwrap();
    graph.add_edge("C", "__end__", Edge::direct()).unwrap();
    graph.set_entry_point("__start__").unwrap();
    let compiled = graph.compile().unwrap();
    let mut input: StateData = StrMap::new();
    input.insert("counter".to_string(), JsonValue::Number(0));
    input.insert("execution_count".to_string(), JsonValue::Number(10));
    let plain = execute_graph(&compiled, &input).unwrap();
    let continued = run_continuing(&compiled, input).unwrap();
    assert_eq!(plain, continued);
    assert_eq!(continued.get("counter"), Some(&JsonValue::Number(1)));
    assert_eq!(continued.get("execution_count"), Some(&JsonValue::Number(12)));
    assert_eq!(continued.get("conditional_C_executed"), Some(&JsonValue::Bool(true)));
}

#[test]
fn condition_thresholds_may_be_decimals() {
    let mut state: StateData = StrMap::new();
    state.insert("count".to_string(), JsonValue::Number(5));
    state.insert("score".to_string(), JsonValue::Number(51));
    state.insert("low".to_string(), JsonValue::Number(-3));
    assert!(ConditionEvaluator::evaluate("eq:count=5.0", &state).unwrap());
    assert!(ConditionEvaluator::evaluate("eq:count=+5.", &state).unwrap());
    assert!(!ConditionEvaluator::evaluate("eq:count=5.5", &state).unwrap());
    assert!(ConditionEvaluator::evaluate("gt:score>50.5", &state).unwrap());
    assert!(!ConditionEvaluator::evaluate("gt:score>51.25", &state).unwrap());
    assert!(ConditionEvaluator::evaluate("lt:score<51.25", &state).unwrap());
    assert!(!ConditionEvaluator::evaluate("lt:score<51.0", &state).unwrap());
    assert!(ConditionEvaluator::evaluate("lt:low<-2.5", &state).unwrap());
    assert!(!ConditionEvaluator::evaluate("lt:low<-3.5", &state).unwrap());
    assert!(ConditionEvaluator::evaluate("gt:low>-3.5", &state).unwrap());
    assert!(ConditionEvaluator::evaluate("gt:count>.5", &state).unwrap());
    assert!(!ConditionEvaluator::evaluate("gt:count>.", &state).unwrap());
    assert!(!ConditionEvaluator::evaluate("gt:count>1.2.3", &state).unwrap());
    assert!(ConditionEvaluator::evaluate("lt:count<99999999999999999999999", &state).unwrap());
    assert!(!ConditionEvaluator::evaluate("gt:count>99999999999999999999999", &state).unwrap());
}

#[test]
fn topological_order_lists_every_node_when_names_hold_no_cycle() {
    let mut graph = StateGraph::new("renamed".to_string());
    graph.add_node(Node { id: "__start__".to_string(), node_type: NodeType::Start, metadata: None });
    graph.add_node(Node { id: "A".to_string(), node_type: NodeType::Tool("a".to_string()), metadata: None });
    graph.add_node(Node { id: "B".to_string(), node_type: NodeType::Tool("b".to_string()), metadata: None });
    graph.add_node(Node { id: "__end__".to_string(), node_type: NodeType::End, metadata: None });
    graph.add_edge("__start__", "A", Edge::direct()).unwrap();
    graph.add_edge("A", "B", Edge::direct()).unwrap();
    graph.add_edge("B", "__end__", Edge::direct()).unwrap();
    graph.add_node(Node { id: "B".to_string(), node_type: NodeType::Tool("b2".to_string()), metadata: None });
    graph.add_edge("A", "B", Edge::direct()).unwrap();
    graph.add_edge("B", "__end__", Edge::direct()).unwrap();
    graph.set_entry_point("__start__").unwrap();
    let compiled = graph.compile().unwrap();
    let traverser = GraphTraverser::new(TraversalStrategy::Topological);
    let order = traverser.get_execution_order(&compiled).unwrap();
    assert_eq!(order.len(), 4);
    for name in ["__start__", "A", "B", "__end__"] {
        assert!(order.contains(&name.to_string()));
    }
    let a = order.iter().position(|n| n == "A").unwrap();
    let b = order.iter().position(|n| n == "B").unwrap();
    assert!(a < b);
}
