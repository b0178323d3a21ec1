use langgraph::json::JsonValue;
use langgraph::keyed_map::StrMap;
use langgraph::state::{GraphState, StateData, StateSchema};
use langgraph::state::advanced::StateDiff;
use langgraph::state::advanced::{merge_states, SnapshotManager, StateError, VersionedStateManager};
use langgraph::error::LangGraphError;
use langgraph::state::channel::{Channel, ChannelBuilder, ChannelType};
use langgraph::state::reducer::{AddReducer, AppendReducer, DefaultReducer, MaxReducer, MergeReducer, MinReducer, Reducer};
use langgraph::state::advanced_channels::LastValueChannel;
use langgraph::state::advanced_channels::TopicChannel;
use langgraph::state::advanced_channels::ContextChannel;
use langgraph::state::advanced_channels::ChannelComposer;
use langgraph::state::versioning::{StateDelta, VersionId, VersionMetadata};
use langgraph::state::schema::FieldType;
use langgraph::state::schema::FieldDefinition;
use langgraph::state::validation::StateValidator;
use langgraph::state::validation::ValidationRuleBuilder;
use langgraph::state::validation::ValueType;

fn text(s: &str) -> JsonValue {
    JsonValue::String(s.to_string())
}

fn num(n: i64) -> JsonValue {
    JsonValue::Number(n)
}

fn array(v: Vec<JsonValue>) -> JsonValue {
    JsonValue::Array(v)
}

fn object(entries: Vec<(&str, JsonValue)>) -> JsonValue {
    JsonValue::Object(entries.into_iter().map(|(k, v)| (k.to_string(), v)).collect())
}

fn state_of(entries: Vec<(&str, JsonValue)>) -> StateData {
    let mut state: StateData = StrMap::new();
    for (k, v) in entries {
        state.insert(k.to_string(), v);
    }
    state
}

#[test]
fn test_default_reducer() {
    let reducer = DefaultReducer;
    assert_eq!(reducer.reduce(None, text("new")), text("new"));
    assert_eq!(reducer.reduce(Some(&text("old")), text("new")), text("new"));
    assert_eq!(reducer.reduce(Some(&num(42)), num(100)), num(100));
}

#[test]
fn test_append_reducer() {
    let reducer = AppendReducer;
    assert_eq!(reducer.reduce(None, text("value")), array(vec![text("value")]));
    assert_eq!(reducer.reduce(None, array(vec![num(1), num(2)])), array(vec![num(1), num(2)]));
    assert_eq!(
        reducer.reduce(Some(&array(vec![num(1), num(2)])), num(3)),
        array(vec![num(1), num(2), num(3)])
    );
    assert_eq!(
        reducer.reduce(Some(&array(vec![num(1), num(2)])), array(vec![num(3), num(4)])),
        array(vec![num(1), num(2), num(3), num(4)])
    );
    assert_eq!(
        reducer.reduce(Some(&text("first")), text("second")),
        array(vec![text("first"), text("second")])
    );
}

#[test]
fn test_merge_reducer() {
    let reducer = MergeReducer;
    let existing = object(vec![("a", num(1)), ("b", num(2))]);
    let new = object(vec![("b", num(3)), ("c", num(4))]);
    let expected = object(vec![("a", num(1)), ("b", num(3)), ("c", num(4))]);
    assert_eq!(reducer.reduce(Some(&existing), new), expected);
    assert_eq!(reducer.reduce(Some(&text("old")), text("new")), text("new"));
    assert_eq!(reducer.reduce(None, object(vec![("a", num(1))])), object(vec![("a", num(1))]));
}

#[test]
fn test_add_reducer() {
    let reducer = AddReducer;
    assert_eq!(reducer.reduce(Some(&num(5)), num(3)), num(8));
    assert_eq!(reducer.reduce(Some(&text("old")), text("new")), text("new"));
    assert_eq!(reducer.reduce(None, num(42)), num(42));
}

#[test]
fn test_max_reducer() {
    let reducer = MaxReducer;
    assert_eq!(reducer.reduce(Some(&num(5)), num(10)), num(10));
    assert_eq!(reducer.reduce(Some(&num(10)), num(5)), num(10));
    assert_eq!(reducer.reduce(None, num(42)), num(42));
}

#[test]
fn test_min_reducer() {
    let reducer = MinReducer;
    assert_eq!(reducer.reduce(Some(&num(5)), num(10)), num(5));
    assert_eq!(reducer.reduce(Some(&num(10)), num(5)), num(5));
    assert_eq!(reducer.reduce(None, num(42)), num(42));
}

#[test]
fn max_and_min_of_texts_compare_json_text() {
    // serde_json writes "\"b\"" and "\"a\"": the first is greater.
    assert_eq!(MaxReducer.reduce(Some(&text("b")), text("a")), text("b"));
    assert_eq!(MinReducer.reduce(Some(&text("b")), text("a")), text("a"));
    // A string's text starts with '"', which sorts before every digit.
    assert_eq!(MaxReducer.reduce(Some(&text("zzz")), num(1)), num(1));
    assert_eq!(MinReducer.reduce(Some(&text("zzz")), num(1)), text("zzz"));
}

#[test]
fn reducer_metadata_is_none() {
    assert!(DefaultReducer.metadata().is_none());
    assert!(MergeReducer.metadata().is_none());
}

#[test]
fn test_graph_state_creation() {
    let state = GraphState::new();
    assert!(state.values.is_empty());
    assert!(state.history.is_empty());
    assert!(state.current_node.is_none());
    assert!(state.thread_id.is_none());
}

#[test]
fn test_state_initialization() {
    let state = GraphState::new();
    assert!(state.values.is_empty());
    assert!(state.history.is_empty());
    assert!(state.current_node.is_none());
    assert!(state.thread_id.is_none());
}

#[test]
fn test_graph_state_with_thread_id() {
    let state = GraphState::with_thread_id("thread-123".to_string());
    assert_eq!(state.thread_id, Some("thread-123".to_string()));
}

#[test]
fn test_state_get_set() {
    let mut state = GraphState::new();
    state.set("key1".to_string(), text("value1"));
    assert_eq!(state.get("key1"), Some(&text("value1")));
    assert_eq!(state.get("key2"), None);
}

#[test]
fn mod_test_state_update() {
    let mut state = GraphState::new();
    let updates = state_of(vec![("key1", text("value1")), ("key2", num(42))]);
    state.update(updates);
    assert_eq!(state.get("key1"), Some(&text("value1")));
    assert_eq!(state.get("key2"), Some(&num(42)));
}

#[test]
fn test_state_transition() {
    let mut state = GraphState::new();
    state.set("key1".to_string(), text("value1"));
    let changes = state_of(vec![("key2", text("value2"))]);
    state.add_transition("node1".to_string(), "node2".to_string(), Some(changes));
    assert_eq!(state.history.len(), 1);
    assert_eq!(state.metadata.transition_count, 1);
    let transition = &state.history[0];
    assert_eq!(transition.from, "node1");
    assert_eq!(transition.to, "node2");
    assert!(transition.state_before.is_some());
    assert!(transition.changes.is_some());
}

#[test]
fn test_state_snapshot_restore() {
    let mut state = GraphState::new();
    state.set("key1".to_string(), text("value1"));
    state.set("key2".to_string(), num(42));
    let snapshot = state.snapshot();
    state.set("key1".to_string(), text("modified"));
    state.set("key3".to_string(), text("new"));
    state.restore(snapshot);
    assert_eq!(state.get("key1"), Some(&text("value1")));
    assert_eq!(state.get("key2"), Some(&num(42)));
    assert_eq!(state.get("key3"), None);
}

#[test]
fn apply_update_uses_the_reducer() {
    let mut state = GraphState::new();
    state.set("n".to_string(), num(5));
    state.apply_update("n", num(3), &AddReducer);
    assert_eq!(state.get("n"), Some(&num(8)));
}

#[test]
fn test_state_schema_validation() {
    let mut schema = StateSchema::new();
    schema.add_channel(
        "required_field".to_string(),
        Channel { channel_type: ChannelType::String, required: true, reducer: None, default: None, metadata: None },
    );
    let mut state: StateData = StrMap::new();
    assert!(schema.validate(&state).is_err());
    state.insert("required_field".to_string(), text("value"));
    assert!(schema.validate(&state).is_ok());
}

#[test]
fn schema_reports_missing_then_mismatched_fields() {
    let mut schema = StateSchema::new();
    schema.add_channel("name".to_string(), Channel::required(ChannelType::String));
    schema.add_channel("age".to_string(), Channel::new(ChannelType::Number));
    let state = state_of(vec![("age", text("old"))]);
    let errors = schema.validate(&state).unwrap_err();
    assert_eq!(
        errors,
        vec![
            "Missing required field: name".to_string(),
            "Type mismatch for field 'age': expected Number".to_string()
        ]
    );
}

#[test]
fn channel_test_channel_creation() {
    let channel = Channel::new(ChannelType::String);
    assert_eq!(channel.channel_type, ChannelType::String);
    assert!(!channel.required);
    assert!(channel.reducer.is_none());
    assert!(channel.default.is_none());
}

#[test]
fn test_required_channel() {
    let channel = Channel::required(ChannelType::Number);
    assert_eq!(channel.channel_type, ChannelType::Number);
    assert!(channel.required);
}

#[test]
fn test_channel_with_default() {
    let channel = Channel::new(ChannelType::String).with_default(text("default_value"));
    assert_eq!(channel.default, Some(text("default_value")));
}

#[test]
fn test_channel_type_validation() {
    let string_channel = Channel::new(ChannelType::String);
    assert!(string_channel.validate_type(&text("test")));
    assert!(!string_channel.validate_type(&num(42)));

    let number_channel = Channel::new(ChannelType::Number);
    assert!(number_channel.validate_type(&num(42)));
    assert!(!number_channel.validate_type(&text("not a number")));

    let array_channel = Channel::new(ChannelType::Array);
    assert!(array_channel.validate_type(&array(vec![num(1), num(2), num(3)])));
    assert!(!array_channel.validate_type(&text("not an array")));

    let any_channel = Channel::new(ChannelType::Any);
    assert!(any_channel.validate_type(&text("anything")));
    assert!(any_channel.validate_type(&num(42)));
    assert!(any_channel.validate_type(&array(vec![num(1), num(2), num(3)])));
}

#[test]
fn test_channel_builder() {
    let channel = ChannelBuilder::new(ChannelType::Array)
        .required()
        .reducer(Box::new(AppendReducer))
        .default(array(vec![]))
        .metadata(object(vec![("description", text("Message list"))]))
        .build();
    assert_eq!(channel.channel_type, ChannelType::Array);
    assert!(channel.required);
    assert!(channel.reducer.is_some());
    assert_eq!(channel.default, Some(array(vec![])));
    assert!(channel.metadata.is_some());
}

#[test]
fn channel_reduce_with_and_without_reducer() {
    let plain = Channel::new(ChannelType::Array);
    assert_eq!(plain.reduce(Some(&array(vec![num(1)])), num(2)), num(2));
    let appending = Channel::new(ChannelType::Array).with_reducer(Box::new(AppendReducer));
    assert_eq!(appending.reduce(Some(&array(vec![num(1)])), num(2)), array(vec![num(1), num(2)]));
}

#[test]
fn test_state_diff() {
    let old = state_of(vec![("key1", text("value1")), ("key2", text("value2"))]);
    let new = state_of(vec![("key1", text("modified")), ("key3", text("value3"))]);
    let diff = StateDiff::calculate(&old, &new);

    assert_eq!(diff.added.len(), 1);
    assert!(diff.added.contains_key("key3"));
    assert_eq!(diff.modified.len(), 1);
    assert!(diff.modified.contains_key("key1"));
    assert_eq!(diff.removed.len(), 1);
    assert!(diff.removed.contains_key("key2"));

    let mut target = state_of(vec![("key1", text("value1")), ("key2", text("value2"))]);
    diff.apply(&mut target);
    assert_eq!(target.get("key1"), Some(&text("modified")));
    assert_eq!(target.get("key3"), Some(&text("value3")));
    assert!(!target.contains_key("key2"));
}

#[test]
fn state_delta_roundtrip() {
    let base = state_of(vec![("key1", text("value1")), ("key2", text("value2"))]);
    let target = state_of(vec![("key1", text("modified")), ("key3", text("new"))]);
    let delta = StateDelta::compute(&base, &target);
    assert_eq!(delta.changes.len(), 2);
    assert_eq!(delta.removals.len(), 1);
    let reconstructed = delta.apply(&base);
    assert_eq!(reconstructed.get("key1"), Some(&text("modified")));
    assert_eq!(reconstructed.get("key3"), Some(&text("new")));
    assert!(!reconstructed.contains_key("key2"));
    assert_eq!(reconstructed.len(), 2);
}

#[test]
fn version_id_hash_is_hex_id_and_timestamp() {
    let v = VersionId::at(255, 16);
    assert_eq!(v.hash, "ff-10");
    assert_eq!(v.id, 255);
    let now = VersionId::new(1);
    assert!(now.hash.starts_with("1-"));
}

#[test]
fn version_metadata_defaults() {
    let m = VersionMetadata::default();
    assert_eq!(m.author, "system");
    assert_eq!(m.branch, "main");
    assert!(m.message.is_empty());
    assert!(m.tags.is_empty());
    assert!(!m.is_checkpoint);
}

#[test]
fn test_field_type_matching() {
    assert!(FieldType::String.matches(&text("hello")));
    assert!(!FieldType::String.matches(&num(123)));

    assert!(FieldType::Integer.matches(&num(42)));

    assert!(FieldType::Boolean.matches(&JsonValue::Bool(true)));
    assert!(!FieldType::Boolean.matches(&text("true")));
}

#[test]
fn test_basic_field_validation() {
    let field = FieldDefinition {
        name: "test".to_string(),
        field_type: FieldType::String,
        required: true,
        default: None,
        min_length: Some(3),
        max_length: Some(10),
        min_value: None,
        max_value: None,
        validators: vec![],
    };

    // Valid
    assert!(field.validate(Some(&text("hello"))).is_ok());
    // Too short
    assert!(field.validate(Some(&text("hi"))).is_err());
    // Too long
    assert!(field.validate(Some(&text("hello world!"))).is_err());
    // Missing required
    assert!(field.validate(None).is_err());
}

#[test]
fn test_field_builder() {
    let field = FieldDefinition::builder("username".to_string(), FieldType::String)
        .required()
        .min_length(3)
        .max_length(50)
        .build();

    assert_eq!(field.name, "username");
    assert!(field.required);
    assert_eq!(field.min_length, Some(3));
    assert_eq!(field.max_length, Some(50));

    assert!(field.validate(Some(&text("john_doe"))).is_ok());
    assert!(field.validate(Some(&text("ab"))).is_err());
}

#[test]
fn test_type_validation() {
    let mut validator = StateValidator::new();
    validator.add_rule(ValidationRuleBuilder::new("name".to_string()).with_type(ValueType::String).build());

    let current = state_of(vec![]);
    let mut updates = state_of(vec![("name", text("John"))]);
    assert!(validator.validate(&current, &updates).is_ok());

    updates.insert("name".to_string(), num(123));
    assert!(validator.validate(&current, &updates).is_err());
}

#[test]
fn test_range_validation() {
    let mut validator = StateValidator::new();
    validator.add_rule(
        ValidationRuleBuilder::new("age".to_string())
            .with_type(ValueType::Number)
            .with_range(Some(0), Some(150))
            .build(),
    );

    let current = state_of(vec![]);
    let mut updates = state_of(vec![("age", num(25))]);
    assert!(validator.validate(&current, &updates).is_ok());

    updates.insert("age".to_string(), num(200));
    assert!(validator.validate(&current, &updates).is_err());
}

#[test]
fn test_sanitization() {
    let validator = StateValidator::new();

    let mut value = text("  hello world  ");
    validator.sanitize(&mut value);
    assert_eq!(value, text("hello world"));

    let mut value = text("hello\0world");
    validator.sanitize(&mut value);
    assert_eq!(value, text("helloworld"));
}

#[test]
fn last_value_channel_keeps_latest() {
    let mut channel = LastValueChannel::new("test".to_string());
    assert!(channel.get().is_none());
    channel.set(num(42));
    assert_eq!(channel.get(), Some(num(42)));
    channel.set_at(text("new value"), 9);
    assert_eq!(channel.get_with_timestamp(), Some((text("new value"), 9)));
    channel.clear();
    assert!(channel.get().is_none());
}

#[test]
fn topic_channel_bounded_history() {
    let mut channel = TopicChannel::with_history("t".to_string(), 2);
    channel.publish_at(text("message 1"), 1);
    channel.publish_at(text("message 2"), 2);
    channel.publish_at(text("message 3"), 3);
    let history = channel.get_history(10);
    assert_eq!(history, vec![(text("message 2"), 2), (text("message 3"), 3)]);
    assert_eq!(channel.get_history(1), vec![(text("message 3"), 3)]);
    channel.clear_history();
    assert!(channel.get_history(5).is_empty());
}

#[test]
fn context_channel_inherits_and_overrides() {
    let mut parent = ContextChannel::new("parent".to_string());
    parent.set("global".to_string(), text("parent value"));
    parent.set("override".to_string(), text("parent override"));

    let mut child = parent.create_child("child".to_string());
    child.set("local".to_string(), text("child value"));
    child.set("override".to_string(), text("child override"));

    assert_eq!(child.get("global"), Some(text("parent value")));
    assert_eq!(child.get("local"), Some(text("child value")));
    assert_eq!(child.get("override"), Some(text("child override")));
    assert_eq!(child.get("missing"), None);
    assert!(child.contains("global"));

    let all = child.get_all();
    assert_eq!(all.get("global"), Some(&text("parent value")));
    assert_eq!(all.get("local"), Some(&text("child value")));
    assert_eq!(all.get("override"), Some(&text("child override")));
    child.clear_local();
    assert_eq!(child.get("override"), Some(text("parent override")));
}

#[test]
fn channel_composer_pipeline() {
    let mut composer = ChannelComposer::new();
    composer.add_last_value("lv".to_string());
    composer.add_topic("tp".to_string());
    composer.add_context("cx".to_string());
    assert!(composer.get("lv").is_some());
    let names = vec!["lv".to_string(), "tp".to_string(), "nope".to_string()];
    assert_eq!(composer.compose_pipeline(&names), JsonValue::Null);
    if let Some(langgraph::state::advanced_channels::ChannelType::LastValue(_)) = composer.get("lv") {} else { panic!("expected a last-value channel") }
    let with_context = vec!["lv".to_string(), "cx".to_string()];
    assert_eq!(composer.compose_pipeline(&with_context), JsonValue::Object(vec![]));

    let mut lv = langgraph::state::advanced_channels::LastValueChannel::new("lv".to_string());
    lv.set_at(num(5), 1);
    composer.channels.insert("lv".to_string(), langgraph::state::advanced_channels::ChannelType::LastValue(lv));
    assert_eq!(composer.compose_pipeline(&names), num(5));
    let mut tp = langgraph::state::advanced_channels::TopicChannel::new("tp".to_string());
    tp.publish_at(text("hi"), 2);
    composer.channels.insert("tp".to_string(), langgraph::state::advanced_channels::ChannelType::Topic(tp));
    assert_eq!(composer.compose_pipeline(&names), text("hi"));
}

#[test]
fn test_versioned_state_manager() {
    let mut manager = VersionedStateManager::new(10);
    let state1 = state_of(vec![("key1", text("value1"))]);
    let version1 = manager.create_version(state1, Some("Initial state".to_string())).unwrap();
    assert_eq!(version1, 1);
    let state2 = state_of(vec![("key1", text("value1")), ("key2", text("value2"))]);
    let version2 = manager.create_version(state2, Some("Added key2".to_string())).unwrap();
    assert_eq!(version2, 2);
    let current = manager.get_current_version().unwrap();
    assert_eq!(current.version, 2);
    manager.rollback(1).unwrap();
    let rolled_back = manager.get_current_version().unwrap();
    assert_eq!(rolled_back.version, 1);
}

#[test]
fn test_branching() {
    let mut manager = VersionedStateManager::new(10);
    manager.create_version(StateData::new(), None).unwrap();
    manager.create_branch("feature".to_string()).unwrap();
    manager.switch_branch("feature").unwrap();
    let feature_state = state_of(vec![("feature", JsonValue::Bool(true))]);
    manager.create_version(feature_state, None).unwrap();
}

#[test]
fn test_snapshots() {
    let mut manager = SnapshotManager::new(5);
    let state = state_of(vec![("test", text("value"))]);
    manager.create_snapshot("snapshot1".to_string(), state, 1, None).unwrap();
    let snapshots = manager.list_snapshots();
    assert_eq!(snapshots.len(), 1);
    let loaded = manager.load_snapshot("snapshot1").unwrap();
    assert_eq!(loaded.id, "snapshot1");
    assert_eq!(loaded.version, 1);
    manager.delete_snapshot("snapshot1").unwrap();
    let snapshots = manager.list_snapshots();
    assert_eq!(snapshots.len(), 0);
}

#[test]
fn versions_record_parent_and_description() {
    let mut manager = VersionedStateManager::new(10);
    manager.create_version_at(state_of(vec![("a", num(1))]), None, 100).unwrap();
    manager.create_version_at(state_of(vec![("a", num(2))]), Some("second".to_string()), 200).unwrap();
    let v1 = manager.get_version(1).unwrap();
    assert_eq!(v1.parent, None);
    assert_eq!(v1.timestamp, 100);
    let v2 = manager.get_version(2).unwrap();
    assert_eq!(v2.parent, Some(1));
    assert_eq!(v2.description, Some("second".to_string()));
    assert_eq!(v2.state.get("a"), Some(&num(2)));
}

#[test]
fn version_limit_drops_oldest() {
    let mut manager = VersionedStateManager::new(2);
    for i in 0..3 {
        manager.create_version_at(state_of(vec![("i", num(i))]), None, 10).unwrap();
    }
    assert_eq!(manager.versions.len(), 2);
    assert!(matches!(
        manager.get_version(1),
        Err(LangGraphError::AdvancedState(StateError::VersionNotFound(1)))
    ));
    assert_eq!(manager.get_version(3).unwrap().state.get("i"), Some(&num(2)));
}

#[test]
fn version_after_rollback_replaces_next() {
    let mut manager = VersionedStateManager::new(10);
    manager.create_version_at(state_of(vec![("a", num(1))]), None, 1).unwrap();
    manager.create_version_at(state_of(vec![("a", num(2))]), None, 2).unwrap();
    manager.create_version_at(state_of(vec![("a", num(3))]), None, 3).unwrap();
    manager.rollback(1).unwrap();
    let n = manager.create_version_at(state_of(vec![("a", num(20))]), None, 4).unwrap();
    assert_eq!(n, 2);
    assert_eq!(manager.versions.len(), 3);
    assert_eq!(manager.get_version(2).unwrap().state.get("a"), Some(&num(20)));
    assert_eq!(manager.get_version(3).unwrap().state.get("a"), Some(&num(3)));
}

#[test]
fn rollback_to_missing_version_fails() {
    let mut manager = VersionedStateManager::new(10);
    manager.create_version_at(StateData::new(), None, 1).unwrap();
    assert!(matches!(
        manager.rollback(7),
        Err(LangGraphError::AdvancedState(StateError::VersionNotFound(7)))
    ));
    assert_eq!(manager.current_version, 1);
    let empty = VersionedStateManager::new(3);
    assert!(matches!(
        empty.get_current_version(),
        Err(LangGraphError::AdvancedState(StateError::VersionNotFound(0)))
    ));
}

#[test]
fn switch_to_missing_branch_fails() {
    let mut manager = VersionedStateManager::new(10);
    match manager.switch_branch("nope") {
        Err(LangGraphError::AdvancedState(StateError::BranchNotFound(name))) => assert_eq!(name, "nope"),
        _ => panic!("expected a missing branch"),
    }
    match manager.merge_branch("nope") {
        Err(LangGraphError::AdvancedState(StateError::BranchNotFound(name))) => assert_eq!(name, "nope"),
        _ => panic!("expected a missing branch"),
    }
}

#[test]
fn merge_branch_combines_states() {
    let mut manager = VersionedStateManager::new(10);
    manager
        .create_version_at(state_of(vec![("list", array(vec![num(1), num(2)])), ("x", num(1))]), None, 1)
        .unwrap();
    manager.create_branch("feature".to_string()).unwrap();
    manager
        .create_version_at(state_of(vec![("list", array(vec![num(9)])), ("y", num(5))]), None, 2)
        .unwrap();
    manager.rollback(1).unwrap();
    let merged = manager.merge_branch("feature").unwrap();
    assert_eq!(merged.get("list"), Some(&array(vec![num(1), num(2)])));
    assert_eq!(merged.get("x"), Some(&num(1)));
    manager.create_branch("later".to_string()).unwrap();
    assert!(manager.branches.contains_key("feature"));
    assert_eq!(manager.current_branch, Some("later".to_string()));
}

#[test]
fn merge_states_rules() {
    let base = state_of(vec![
        ("list", array(vec![num(1), num(2)])),
        ("obj", object(vec![("a", num(1)), ("b", num(2))])),
        ("n", num(1)),
        ("s", text("old")),
    ]);
    let other = state_of(vec![
        ("list", array(vec![num(2), num(3)])),
        ("obj", object(vec![("b", num(20)), ("c", num(30))])),
        ("n", num(5)),
        ("s", num(7)),
        ("new", text("fresh")),
    ]);
    let merged = merge_states(&base, &other);
    assert_eq!(merged.get("list"), Some(&array(vec![num(1), num(2), num(3)])));
    assert_eq!(
        merged.get("obj"),
        Some(&object(vec![("a", num(1)), ("b", num(20)), ("c", num(30))]))
    );
    assert_eq!(merged.get("n"), Some(&num(5)));
    assert_eq!(merged.get("s"), Some(&num(7)));
    assert_eq!(merged.get("new"), Some(&text("fresh")));
    assert_eq!(merged.len(), 5);
}

#[test]
fn snapshot_limit_drops_oldest() {
    let mut manager = SnapshotManager::new(2);
    manager.create_snapshot_at("a".to_string(), StateData::new(), 1, None, 30).unwrap();
    manager.create_snapshot_at("b".to_string(), StateData::new(), 2, None, 10).unwrap();
    manager.create_snapshot_at("c".to_string(), StateData::new(), 3, Some("main".to_string()), 20).unwrap();
    let ids = manager.list_snapshots();
    assert_eq!(ids, vec!["a".to_string(), "c".to_string()]);
    let c = manager.load_snapshot("c").unwrap();
    assert_eq!(c.branch, Some("main".to_string()));
    assert_eq!(c.timestamp, 20);
}

#[test]
fn missing_snapshot_errors() {
    let mut manager = SnapshotManager::new(2);
    match manager.load_snapshot("x") {
        Err(LangGraphError::AdvancedState(StateError::SnapshotNotFound(id))) => assert_eq!(id, "x"),
        _ => panic!("expected a missing snapshot"),
    }
    match manager.delete_snapshot("x") {
        Err(LangGraphError::AdvancedState(StateError::SnapshotNotFound(id))) => assert_eq!(id, "x"),
        _ => panic!("expected a missing snapshot"),
    }
}

#[test]
fn sanitize_trims_unicode_white_space_like_std() {
    let validator = StateValidator::new();
    for raw in ["\u{3000}\u{85} a b \u{2028}\t", "\u{a0}x\u{200b}", "\u{1680}\u{180e}y"] {
        let mut value = text(raw);
        validator.sanitize(&mut value);
        assert_eq!(value, text(raw.trim()));
    }
}
