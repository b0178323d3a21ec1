use langgraph::engine::rate_limiter::{RateLimitError, RateLimiter};
use langgraph::engine::resilience::{CircuitBreaker, CircuitBreakerConfig, CircuitState, ResilienceError};
use langgraph::engine::rate_limiter::AcquireStep;
use langgraph::engine::breakpoint::{Breakpoint, BreakpointCondition, BreakpointManager};
use langgraph::json::JsonValue;
use langgraph::keyed_map::StrMap;
use langgraph::state::StateData;
use langgraph::engine::context::ExecutionScope;
use langgraph::engine::context::SharedContext;
use langgraph::engine::state_inspector::StateInspector;
use langgraph::engine::state_diff::ExportFormat;
use langgraph::engine::user_feedback::FeedbackManager;
use langgraph::engine::user_feedback::FeedbackRequestStatus;
use langgraph::engine::user_feedback::FeedbackType;
use langgraph::engine::user_feedback::UserFeedback;
use langgraph::engine::resumption::ResumptionManager;
use langgraph::engine::resumption::WorkflowSnapshot;
use langgraph::engine::human_in_loop::InterruptManager;
use langgraph::engine::human_in_loop::InterruptMode;
use langgraph::engine::human_in_loop::InterruptRecord;

type Cond = Box<dyn Fn(&StateData) -> bool>;

fn state_with(entries: Vec<(&str, JsonValue)>) -> StateData {
    let mut s: StateData = StrMap::new();
    for (k, v) in entries {
        s.insert(k.to_string(), v);
    }
    s
}

#[test]
fn test_breakpoint_creation() {
    let bp: Breakpoint<Cond> = Breakpoint::new("test_node".to_string(), None);
    assert_eq!(bp.node_id, "test_node");
    assert!(bp.enabled);
    assert_eq!(bp.hit_count, 0);
    assert_eq!(bp.id.len(), 36);
}

#[test]
fn test_conditional_breakpoint() {
    let condition: BreakpointCondition<Cond> =
        BreakpointCondition::new(Box::new(|state: &StateData| state.contains_key("debug")));

    let mut state1: StateData = StrMap::new();
    assert!(!condition.evaluate(&state1));

    state1.insert("debug".to_string(), JsonValue::Bool(true));
    assert!(condition.evaluate(&state1));
}

#[test]
fn breakpoint_manager_set_list_remove() {
    let mut manager: BreakpointManager<Cond> = BreakpointManager::new();
    let id = manager.set_breakpoint("node1".to_string(), None);
    assert_eq!(manager.list_breakpoints().len(), 1);
    assert!(manager.remove_breakpoint(&id));
    assert_eq!(manager.list_breakpoints().len(), 0);
    assert!(!manager.remove_breakpoint(&id));
}

#[test]
fn breakpoint_manager_handles_first_triggering_breakpoint() {
    let mut manager: BreakpointManager<Cond> = BreakpointManager::new();
    let never = manager.set_breakpoint(
        "n".to_string(),
        Some(BreakpointCondition::new(Box::new(|s: &StateData| s.contains_key("never")))),
    );
    let always = manager.set_breakpoint("n".to_string(), None);
    let other = manager.set_breakpoint("m".to_string(), None);
    let state = state_with(vec![("x", JsonValue::Number(1))]);
    assert!(manager.is_breakpoint("n", &state));
    assert!(!manager.is_breakpoint("absent", &state));

    let hit = manager.handle_breakpoint("n", state_with(vec![("x", JsonValue::Number(1))]), 7).unwrap();
    assert_eq!(hit.breakpoint_id, always);
    assert_eq!(hit.node_id, "n");
    assert_eq!(hit.timestamp, 7);
    assert_eq!(manager.breakpoints[0].hit_count, 0);
    assert_eq!(manager.breakpoints[1].hit_count, 1);
    assert_eq!(manager.get_hit_history(&always).len(), 1);
    assert!(manager.get_hit_history(&never).is_empty());

    assert!(manager.handle_breakpoint("absent", state_with(vec![]), 8).is_none());

    manager.record_hit(&other, &state, 9);
    assert_eq!(manager.breakpoints[2].hit_count, 1);
    let h = manager.get_hit_history(&other);
    assert_eq!(h.len(), 1);
    assert_eq!(h[0].node_id, "");

    manager.breakpoints[1].enabled = false;
    assert!(!manager.is_breakpoint("n", &state));
    manager.clear_all_breakpoints();
    assert!(manager.list_breakpoints().is_empty());
    assert_eq!(manager.hit_history.len(), 2);
}

#[test]
fn test_execution_scope() {
    let mut scope = ExecutionScope::new();

    scope.set("var1".to_string(), JsonValue::String("value1".to_string()));
    assert_eq!(scope.get("var1"), Some(&JsonValue::String("value1".to_string())));

    scope.push_scope();
    scope.set("var2".to_string(), JsonValue::String("value2".to_string()));

    assert_eq!(scope.get("var1"), Some(&JsonValue::String("value1".to_string())));
    assert_eq!(scope.get("var2"), Some(&JsonValue::String("value2".to_string())));

    scope.pop_scope();

    assert_eq!(scope.get("var1"), Some(&JsonValue::String("value1".to_string())));
    assert_eq!(scope.get("var2"), None);
}

#[test]
fn execution_scope_shadowing_and_flatten() {
    let mut scope = ExecutionScope::default();
    assert!(scope.pop_scope().is_none());
    scope.set("x".to_string(), JsonValue::Number(1));
    scope.push_scope();
    scope.set("x".to_string(), JsonValue::Number(2));
    scope.set("y".to_string(), JsonValue::Number(3));
    assert_eq!(scope.get("x"), Some(&JsonValue::Number(2)));
    let flat = scope.flatten();
    assert_eq!(flat.get("x"), Some(&JsonValue::Number(2)));
    assert_eq!(flat.get("y"), Some(&JsonValue::Number(3)));
    let popped = scope.pop_scope().unwrap();
    assert_eq!(popped.len(), 2);
    assert_eq!(scope.get("x"), Some(&JsonValue::Number(1)));
}

#[test]
fn shared_context_global_and_node_state() {
    let mut context = SharedContext::new();
    context.set_global("test_key".to_string(), JsonValue::String("test_value".to_string()));
    assert_eq!(context.get_global("test_key"), Some(JsonValue::String("test_value".to_string())));
    assert_eq!(context.get_global("missing"), None);

    let node_state = state_with(vec![("node_key", JsonValue::Number(42)), ("test_key", JsonValue::Null)]);
    context.set_node_state("node1".to_string(), node_state);
    let retrieved = context.get_node_state("node1").unwrap();
    assert_eq!(retrieved.get("node_key"), Some(&JsonValue::Number(42)));

    context.merge_to_global("node1");
    assert_eq!(context.get_global("node_key"), Some(JsonValue::Number(42)));
    assert_eq!(context.get_global("test_key"), Some(JsonValue::Null));
    context.merge_to_global("absent");
    assert_eq!(context.global_state.len(), 2);
}

#[test]
fn state_inspector_capture_query_and_limit() {
    let mut inspector = StateInspector::with_max_snapshots(2);
    let s1 = state_with(vec![("a", JsonValue::Number(1))]);
    let s2 = state_with(vec![("a", JsonValue::Number(2)), ("b", JsonValue::String("x".to_string()))]);
    let id1 = inspector.capture_snapshot("n1", &s1);
    let id2 = inspector.capture_snapshot("n2", &s2);
    assert_eq!(inspector.get_all_snapshots().len(), 2);
    assert_eq!(inspector.query_by_node("n1").len(), 1);
    assert_eq!(inspector.search("a", &JsonValue::Number(2)).len(), 1);
    assert_eq!(inspector.get_latest().unwrap().id, id2);

    let changes = inspector.diff_snapshots(&id1, &id2).unwrap();
    assert_eq!(changes.get("a"), Some(&(Some(JsonValue::Number(1)), Some(JsonValue::Number(2)))));
    assert_eq!(changes.get("b"), Some(&(None, Some(JsonValue::String("x".to_string())))));
    assert!(inspector.diff_snapshots(&id1, "missing").is_err());

    let d = inspector.diff_states(&id1, &id2);
    assert_eq!(d.added.len(), 1);
    assert_eq!(d.modified.len(), 1);
    assert_eq!(d.removed.len(), 0);

    // A third snapshot pushes out the oldest.
    let _id3 = inspector.capture_snapshot("n3", &s1);
    assert!(inspector.get_snapshot(&id1).is_none());
    assert_eq!(inspector.get_history(None, Some(1)).len(), 1);
    assert_eq!(inspector.get_history(Some("n3"), None).len(), 1);
}

#[test]
fn state_inspector_nested_query_and_export() {
    let mut inspector = StateInspector::new();
    let user = JsonValue::Object(vec![("name".to_string(), JsonValue::String("Ann".to_string()))]);
    let s = state_with(vec![("user", user), ("n", JsonValue::Number(3))]);
    let id = inspector.capture_snapshot("node", &s);
    assert_eq!(inspector.query_state(&id, "user.name"), Some(JsonValue::String("Ann".to_string())));
    assert_eq!(inspector.query_state(&id, "user.age"), None);
    assert_eq!(inspector.query_state(&id, "n.x"), None);
    assert_eq!(inspector.query_state("nope", "n"), None);
    assert_eq!(inspector.export_snapshot(&id, ExportFormat::Yaml), "user: {\"name\":\"Ann\"}\nn: 3\n");
    assert_eq!(inspector.export_snapshot(&id, ExportFormat::Csv), "");
    let json = inspector.export_snapshot(&id, ExportFormat::Json);
    assert!(json.contains("\"name\": \"Ann\""));
    let found = inspector.search_state(&id, "NAM");
    assert_eq!(found.len(), 0);
    let found = inspector.search_state(&id, "USE");
    assert_eq!(found.len(), 1);
    inspector.set_enabled(false);
    assert!(!inspector.is_enabled());
    inspector.clear();
    assert!(inspector.get_latest().is_none());
}

#[test]
fn feedback_manager_history_stats_and_timeouts() {
    let mut m = FeedbackManager::new();
    let mut late = UserFeedback::new("n1", FeedbackType::Approval, Some("looks good".to_string()));
    late.timestamp = 300;
    let mut early = UserFeedback::new("n2", FeedbackType::Rejection, None);
    early.timestamp = 100;
    let mut mid = UserFeedback::with_modification("n1", None, state_with(vec![("k", JsonValue::Number(7))]));
    mid.timestamp = 200;
    let late_id = m.submit_feedback(late);
    m.submit_feedback(early);
    let mid_id = m.submit_feedback(mid);

    let all = m.get_history(None, None);
    let times: Vec<i64> = all.iter().map(|f| f.timestamp).collect();
    assert_eq!(times, vec![100, 200, 300]);
    assert_eq!(m.get_history(Some(150), Some(250)).len(), 1);
    assert_eq!(m.get_history_for_node("n1").len(), 2);
    assert_eq!(m.get_history_by_type(FeedbackType::Rejection).len(), 1);
    assert_eq!(m.search_feedback("good").len(), 1);
    assert_eq!(m.search_feedback("n").len(), 3);
    assert_eq!(m.search_with_filter(|f: &UserFeedback| f.timestamp > 150).len(), 2);
    assert_eq!(m.get_feedback(&late_id).unwrap().comment, Some("looks good".to_string()));

    let stats = m.get_feedback_stats();
    assert_eq!(stats.total_count, 3);
    assert_eq!(stats.approval_count, 1);
    assert_eq!(stats.rejection_count, 1);
    assert_eq!(stats.modification_count, 1);
    let node_stats = m.get_node_feedback_stats("n1");
    assert_eq!(node_stats.total_count, 2);

    let mut state = state_with(vec![("k", JsonValue::Number(1)), ("x", JsonValue::Bool(true))]);
    assert!(m.apply_modification(&mid_id, &mut state).unwrap());
    assert_eq!(state.get("k"), Some(&JsonValue::Number(7)));
    assert!(!m.apply_modification(&late_id, &mut state).unwrap());

    let req = m.request_feedback("n3", "approve?", 10);
    assert_eq!(m.get_request_status(&req.id), FeedbackRequestStatus::Pending);
    assert!(m.time_out_request(&req.id));
    assert_eq!(m.get_request_status(&req.id), FeedbackRequestStatus::TimedOut);
    assert!(!m.time_out_request(&req.id));
    assert_eq!(m.get_history_by_type(FeedbackType::Timeout).len(), 1);
    assert_eq!(m.get_request_status("unknown"), FeedbackRequestStatus::Cancelled);

    let ids = m.export_feedback().unwrap();
    assert_eq!(ids.len(), 4);
    m.clear_all_feedback();
    assert!(m.get_history(None, None).is_empty());
    m.import_feedback(vec!["a".to_string(), "b".to_string()]).unwrap();
    assert_eq!(m.get_feedback("a").unwrap().node_id, "persist_node");
    assert_eq!(m.get_history(None, None).len(), 2);
}

#[test]
fn resumption_manager_snapshots_and_resume() {
    let mut m = ResumptionManager::new();
    let exec = "6f1e3c64-3a0b-4e0e-9d7a-2b1c0d9e8f7a";
    let snap = m.save_resumption_point(exec, "node_a", &state_with(vec![("v", JsonValue::Number(1))])).unwrap();
    assert_eq!(snap.graph_name, "workflow");
    assert_eq!(snap.last_completed_node, "node_a");
    assert!(m.get_resumption_point("node_a").unwrap().can_modify_state);
    assert_eq!(m.list_all_resumption_points().len(), 1);

    m.suspend_execution(exec.to_string());
    assert!(m.is_suspended(exec));
    let (state, next) = m.resume_workflow(&snap.id).unwrap();
    assert_eq!(state.get("v"), Some(&JsonValue::Number(1)));
    assert_eq!(next, "end");
    assert!(!m.is_suspended(exec));
    assert!(m.resume_workflow("missing").is_err());

    let next = m.resume_with_modified_state(&snap.id, state_with(vec![("v", JsonValue::Number(2))]), 5).unwrap();
    assert_eq!(next, "end");
    assert_eq!(m.load_snapshot(&snap.id).unwrap().state.get("v"), Some(&JsonValue::Number(2)));
    assert_eq!(m.list_snapshots().len(), 1);

    let mut older = WorkflowSnapshot::new(exec.to_string(), "g".to_string(), "x".to_string(), state_with(vec![]));
    older.timestamp = 1;
    m.record_resumption(older);
    let err = m.save_error_state("other".to_string(), "bad", "boom", state_with(vec![]), "t0".to_string()).unwrap();
    assert_eq!(
        err.metadata,
        JsonValue::Object(vec![
            ("error".to_string(), JsonValue::String("boom".to_string())),
            ("error_node".to_string(), JsonValue::String("bad".to_string())),
            ("error_time".to_string(), JsonValue::String("t0".to_string())),
        ])
    );
    let hist = m.get_resumption_history(Some(exec), None);
    assert_eq!(hist.len(), 2);
    assert_eq!(m.get_resumption_history(None, Some(1)).len(), 1);
    assert_eq!(m.get_execution_resumptions(exec).len(), 2);
    assert!(m.get_execution_resumptions("not-a-uuid").is_empty());

    let stats = m.get_resumption_stats();
    assert_eq!(stats.total_resumptions, 3);
    assert_eq!(stats.unique_executions, 2);
    assert_eq!(stats.oldest_snapshot, Some(1));

    assert_eq!(m.cleanup_old_snapshots(0, 1_000).unwrap(), 2);
    let remaining = m.list_snapshots()[0].id.clone();
    assert!(m.delete_snapshot(&remaining));
    assert!(m.list_snapshots().is_empty());

    let cp = m
        .create_from_checkpoint_with_id("thread1-cp9", "e".to_string(), Some((state_with(vec![]), state_with(vec![("step", JsonValue::Number(3))]))))
        .unwrap();
    assert_eq!(cp.last_completed_node, "thread1");
    assert_eq!(cp.graph_name, "thread1-cp9");
    assert!(m.create_from_checkpoint_with_id("x", "e".to_string(), None).is_err());
    let parsed = WorkflowSnapshot::from_str_execution_id("6F1E3C64-3A0B-4E0E-9D7A-2B1C0D9E8F7A", "g".to_string(), "n".to_string(), state_with(vec![])).unwrap();
    assert_eq!(parsed.execution_id, exec);
}

#[test]
fn interrupt_manager_configs_and_pending() {
    let mut m = InterruptManager::new();
    m.add_node_config("review".to_string(), InterruptMode::Before);
    assert!(m.should_interrupt("review", InterruptMode::Before));
    assert!(!m.should_interrupt("review", InterruptMode::After));
    assert!(!m.should_interrupt("other", InterruptMode::Before));

    let mut rec = InterruptRecord::new("review".to_string(), state_with(vec![("a", JsonValue::Number(1))]), Some(5));
    rec.modify_state(state_with(vec![("a", JsonValue::Number(2)), ("b", JsonValue::Null)])).unwrap();
    assert_eq!(rec.state_snapshot.get("a"), Some(&JsonValue::Number(2)));
    let id = m.add_pending(rec);
    m.add_pending(InterruptRecord::new("x".to_string(), state_with(vec![]), None));
    assert_eq!(m.get_pending().len(), 2);
    m.remove_pending(&id);
    assert_eq!(m.get_pending().len(), 1);
    assert_eq!(m.get_pending()[0].node_id, "x");
    m.clear_pending();
    assert!(m.get_pending().is_empty());
}

#[test]
fn state_inspector_search_finds_every_match_in_order() {
    let mut inspector = StateInspector::new();
    let s = state_with(vec![
        ("title", JsonValue::String("Alpha".to_string())),
        ("other", JsonValue::String("ALPHABET".to_string())),
        ("alpha_count", JsonValue::Number(2)),
        ("none", JsonValue::Number(1)),
    ]);
    let id = inspector.capture_snapshot("node", &s);
    let found = inspector.search_state(&id, "alpha");
    let keys: Vec<&str> = found.iter().map(|(k, _)| k.as_str()).collect();
    assert_eq!(keys, vec!["title", "other", "alpha_count"]);
    assert!(inspector.search_state("missing", "alpha").is_empty());
    assert_eq!(inspector.export_snapshot("missing", ExportFormat::Yaml), "");
}

#[test]
fn feedback_timeout_of_unknown_request_changes_nothing() {
    let mut m = FeedbackManager::new();
    assert!(!m.time_out_request("no-such-request"));
    assert_eq!(m.get_request_status("no-such-request"), FeedbackRequestStatus::Cancelled);
    let mut state = state_with(vec![("a", JsonValue::Number(1))]);
    assert!(!m.apply_modification("no-such-feedback", &mut state).unwrap());
    assert_eq!(state.get("a"), Some(&JsonValue::Number(1)));
}

#[test]
fn test_rate_limiter_basic() {
    let mut limiter = langgraph::engine::rate_limiter::RateLimiter::new_at(5, 1_000_000_000, 0);
    for _ in 0..5 {
        assert!(limiter.try_acquire_at(0).is_ok());
    }
    assert!(limiter.try_acquire_at(0).is_err());
}

#[test]
fn test_rate_limiter_refill() {
    let mut limiter = langgraph::engine::rate_limiter::RateLimiter::new_at(2, 1_000_000_000, 0);
    assert_eq!(limiter.acquire_step(0), AcquireStep::Granted);
    assert_eq!(limiter.acquire_step(0), AcquireStep::Granted);
    assert!(limiter.try_acquire_at(0).is_err());
    assert_eq!(limiter.acquire_step(0), AcquireStep::WaitNanos(500_000_000));
    assert!(limiter.try_acquire_at(1_000_000_000).is_ok());
    assert!(limiter.try_acquire_at(1_000_000_000).is_ok());
    assert!(limiter.try_acquire_at(1_000_000_000).is_err());
}

#[test]
fn test_rate_limiter_refusal_messages() {
    let mut limiter = RateLimiter::new_at(2, 1_000_000_000, 0);
    assert!(limiter.try_acquire_at(0).is_ok());
    assert!(limiter.try_acquire_at(0).is_ok());
    match limiter.try_acquire_at(0) {
        Err(RateLimitError::RateLimitExceeded(m)) => assert_eq!(m, "Rate limit exceeded: 0/2 per 1s"),
        _ => panic!("expected a refusal"),
    }
    match limiter.retry_acquire_at(0) {
        Err(RateLimitError::RateLimitExceeded(m)) => assert_eq!(m, "Unable to acquire rate limit permit"),
        _ => panic!("expected a refusal"),
    }
    let mut fast = RateLimiter::new_at(3, 250_000_000, 0);
    for _ in 0..3 {
        assert!(fast.try_acquire_at(0).is_ok());
    }
    match fast.try_acquire_at(0) {
        Err(RateLimitError::RateLimitExceeded(m)) => assert_eq!(m, "Rate limit exceeded: 0/3 per 250ms"),
        _ => panic!("expected a refusal"),
    }
}

#[test]
fn test_rate_limiter_zero_limits() {
    let mut none = RateLimiter::new_at(0, 1_000_000_000, 0);
    match none.try_acquire_at(5_000_000_000) {
        Err(RateLimitError::RateLimitExceeded(m)) => assert_eq!(m, "Rate limit exceeded: 0/0 per 1s"),
        _ => panic!("expected a refusal"),
    }
    let mut instant = RateLimiter::new_at(1, 0, 0);
    for _ in 0..10 {
        assert!(instant.try_acquire_at(0).is_ok());
    }
}

#[test]
fn test_circuit_breaker() {
    let config = CircuitBreakerConfig {
        failure_threshold: 2,
        timeout_duration: 100_000_000,
        success_threshold: 2,
        failure_window: 1_000_000_000,
    };
    let mut breaker = CircuitBreaker::new_at(config, 0);
    assert_eq!(breaker.get_state(), CircuitState::Closed);
    let _ = breaker.execute(|| Err::<(), String>("test error".to_string()), 1_000_000);
    let _ = breaker.execute(|| Err::<(), String>("test error".to_string()), 2_000_000);
    assert_eq!(breaker.get_state(), CircuitState::Open);
    let _ = breaker.execute(|| Ok::<(), String>(()), 2_000_000 + 150_000_000);
    assert_eq!(breaker.get_state(), CircuitState::HalfOpen);
}

#[test]
fn circuit_breaker_execute_refuses_without_running_and_returns_values() {
    let config = CircuitBreakerConfig {
        failure_threshold: 1,
        timeout_duration: 100,
        success_threshold: 1,
        failure_window: 1_000,
    };
    let mut breaker = CircuitBreaker::new_at(config, 0);
    assert!(matches!(breaker.execute(|| Ok::<u32, String>(42), 1), Ok(42)));
    assert!(matches!(
        breaker.execute(|| Err::<u32, String>("no".to_string()), 2),
        Err(ResilienceError::CircuitBreakerOpen)
    ));
    assert_eq!(breaker.get_state(), CircuitState::Open);
    let calls = std::cell::Cell::new(0u32);
    let r = breaker.execute(
        || {
            calls.set(calls.get() + 1);
            Ok::<u32, String>(7)
        },
        50,
    );
    assert!(matches!(r, Err(ResilienceError::CircuitBreakerOpen)));
    assert_eq!(calls.get(), 0);
    assert!(matches!(breaker.execute(|| Ok::<u32, String>(7), 200), Ok(7)));
    assert_eq!(breaker.get_state(), CircuitState::Closed);
}
