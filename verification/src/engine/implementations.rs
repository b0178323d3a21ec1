//! Engine metrics, factories and storage settings.
use vstd::prelude::*;
use crate::error::{LangGraphError, LgResult};
use crate::engine::traits::{
    ExecutionCapabilities, ExecutionResult, ReducerOperation, StateCheckpoint, StateVersion,
    ValidationResult,
};
use crate::graph::{Node, NodeType};
use crate::json::{JsonValue, JsonModel, entry_models, lemma_array_model, lemma_object_model, models,
    object_insert, copy_string};
use crate::keyed_map::{StrMap, keys_unique, entries_map};
use crate::state::{StateData, state_model, clone_state, copy_key, lemma_prefix_map, lemma_take_all};
use crate::state::reducer::{merge_entries, entries_set, lemma_find_models};
use crate::text::concat_str;

verus! {

/// Counters of an execution engine.
#[derive(Debug, Clone, Default)]
pub struct EngineMetrics {
    pub total_executions: u64,
    pub successful_executions: u64,
    pub failed_executions: u64,
    /// Total time spent executing, in nanoseconds.
    pub total_duration: u64,
}

impl EngineMetrics {
    /// Counts one execution, successful or not, that took `duration` nanoseconds.
    pub fn record(&mut self, success: bool, duration: u64)
        requires
            old(self).total_executions < u64::MAX,
            success ==> old(self).successful_executions < u64::MAX,
            !success ==> old(self).failed_executions < u64::MAX,
            old(self).total_duration + duration <= u64::MAX,
        ensures
            final(self).total_executions == old(self).total_executions + 1,
            final(self).successful_executions == old(self).successful_executions + (if success {
                1int
            } else {
                0
            }),
            final(self).failed_executions == old(self).failed_executions + (if success {
                0int
            } else {
                1
            }),
            final(self).total_duration == old(self).total_duration + duration,
    {
        self.total_executions = self.total_executions + 1;
        if success {
            self.successful_executions = self.successful_executions + 1;
        } else {
            self.failed_executions = self.failed_executions + 1;
        }
        self.total_duration = self.total_duration + duration;
    }
}

/// Chooses how execution engines are set up.
pub struct ExecutionEngineFactory;

/// The concurrency of a parallel engine: the one asked for, else what the
/// machine offers, else 4.
pub fn parallel_concurrency(requested: Option<usize>, available: Option<usize>) -> (n: usize)
    ensures
        n == match requested {
            Some(c) => c,
            None => match available {
                Some(a) => a,
                None => 4,
            },
        },
{
    match requested {
        Some(c) => c,
        None => match available {
            Some(a) => a,
            None => 4,
        },
    }
}

/// The concurrency of an adaptive engine: half of what the machine offers,
/// else 2.
pub fn adaptive_concurrency(available: Option<usize>) -> (n: usize)
    ensures
        n == match available {
            Some(a) => a / 2,
            None => 2,
        },
{
    match available {
        Some(a) => a / 2,
        None => 2,
    }
}

/// Chooses how state managers are set up.
pub struct StateManagerFactory;

/// Settings of persistent state storage.
#[derive(Debug)]
pub struct PersistenceConfig {
    /// Which storage.
    pub backend: StorageBackend,
    /// Connection string or path.
    pub connection: String,
    /// Further options.
    pub options: StrMap<String>,
}

/// Kinds of storage.
#[derive(Debug, Clone)]
pub enum StorageBackend {
    SQLite,
    PostgreSQL,
    Redis,
    FileSystem,
    Memory,
}

/// The output of running a node of the given type: a line saying what ran.
pub open spec fn node_output(t: NodeType) -> Option<Seq<char>> {
    match t {
        NodeType::Start => Some("Started"@),
        NodeType::End => Some("Completed"@),
        NodeType::Agent(a) => Some("Agent "@ + a@ + " executed"@),
        NodeType::Tool(t) => Some("Tool "@ + t@ + " executed"@),
        NodeType::Conditional => Some("Condition evaluated"@),
        _ => None,
    }
}

/// A parallel execution engine: its concurrency and time limit.
pub struct ParallelExecutionEngine {
    pub max_concurrency: usize,
    /// Time allowed per node, in nanoseconds.
    pub timeout: u64,
    pub metrics: EngineMetrics,
}

impl ParallelExecutionEngine {
    /// An engine running at most `max_concurrency` nodes at once.
    pub fn new(max_concurrency: usize, timeout: u64) -> (e: ParallelExecutionEngine)
        ensures
            e.max_concurrency == max_concurrency,
            e.timeout == timeout,
            e.metrics.total_executions == 0,
            e.metrics.successful_executions == 0,
            e.metrics.failed_executions == 0,
            e.metrics.total_duration == 0,
    {
        ParallelExecutionEngine {
            max_concurrency,
            timeout,
            metrics: EngineMetrics {
                total_executions: 0,
                successful_executions: 0,
                failed_executions: 0,
                total_duration: 0,
            },
        }
    }

    /// Sets the concurrency limit.
    pub fn set_max_concurrency(&mut self, max_concurrency: usize)
        ensures
            final(self).max_concurrency == max_concurrency,
            final(self).timeout == old(self).timeout,
    {
        self.max_concurrency = max_concurrency;
    }

    /// The result of running `node`, which took `duration` nanoseconds, and
    /// counts it in the metrics.
    pub fn execute_node(&mut self, node: &Node, duration: u64) -> (r: ExecutionResult)
        requires
            old(self).metrics.total_executions < u64::MAX,
            old(self).metrics.successful_executions < u64::MAX,
            old(self).metrics.total_duration + duration <= u64::MAX,
        ensures
            r.success,
            r.duration == duration,
            r.error is None,
            match node_output(node.node_type) {
                Some(o) => r.output matches Some(JsonValue::String(s)) && s@ == o,
                None => r.output is None,
            },
            final(self).metrics.total_executions == old(self).metrics.total_executions + 1,
            final(self).metrics.successful_executions == old(self).metrics.successful_executions + 1,
            final(self).metrics.failed_executions == old(self).metrics.failed_executions,
            final(self).metrics.total_duration == old(self).metrics.total_duration + duration,
    {
        let output = match &node.node_type {
            NodeType::Start => Some(JsonValue::String("Started".to_string())),
            NodeType::End => Some(JsonValue::String("Completed".to_string())),
            NodeType::Agent(a) => {
                let mut s = concat_str("Agent ", a.as_str());
                crate::text::push_str(&mut s, " executed");
                Some(JsonValue::String(s))
            },
            NodeType::Tool(t) => {
                let mut s = concat_str("Tool ", t.as_str());
                crate::text::push_str(&mut s, " executed");
                Some(JsonValue::String(s))
            },
            NodeType::Conditional => Some(JsonValue::String("Condition evaluated".to_string())),
            _ => None,
        };
        self.metrics.record(true, duration);
        ExecutionResult { success: true, output, duration, error: None, metadata: StrMap::new() }
    }

    /// What this engine can do.
    pub fn capabilities(&self) -> (c: ExecutionCapabilities)
        ensures
            c.supports_parallel,
            c.max_concurrency == Some(self.max_concurrency),
            !c.supports_streaming,
            !c.supports_checkpointing,
            crate::graph::strings_view(c.supported_node_types@) == seq![
                "Start"@,
                "End"@,
                "Agent"@,
                "Tool"@,
                "Conditional"@,
            ],
    {
        let types = vec![
            "Start".to_string(),
            "End".to_string(),
            "Agent".to_string(),
            "Tool".to_string(),
            "Conditional".to_string(),
        ];
        assert(crate::graph::strings_view(types@) =~= seq![
            "Start"@,
            "End"@,
            "Agent"@,
            "Tool"@,
            "Conditional"@,
        ]);
        ExecutionCapabilities {
            supports_parallel: true,
            max_concurrency: Some(self.max_concurrency),
            supports_streaming: false,
            supports_checkpointing: false,
            supported_node_types: types,
        }
    }
}

/// The state kept by an in-memory state manager after applying a reducer
/// operation to field `key`: appending needs an array there, merging an
/// object (merged key by key with an object value, kept as it is with any
/// other value); custom operations are not available.
pub open spec fn reduced(m: Map<Seq<char>, JsonModel>, key: Seq<char>, op: ReducerOperation) -> Result<
    Map<Seq<char>, JsonModel>,
    Seq<char>,
> {
    let cur = if m.contains_key(key) {
        Some(m[key])
    } else {
        None
    };
    match op {
        ReducerOperation::Append(v) => match cur {
            Some(JsonModel::Array(a)) => Ok(m.insert(key, JsonModel::Array(a.push(v@)))),
            _ => Err("Key "@ + key + " is not an array"@),
        },
        ReducerOperation::Merge(v) => match cur {
            Some(JsonModel::Object(o)) => Ok(
                match v@ {
                    JsonModel::Object(n) => m.insert(key, JsonModel::Object(merge_entries(o, n))),
                    _ => m,
                },
            ),
            _ => Err("Key "@ + key + " is not an object"@),
        },
        ReducerOperation::Replace(v) => Ok(m.insert(key, v@)),
        ReducerOperation::Custom(_, _) => Err("Custom reducers not implemented"@),
    }
}

/// A state manager that keeps everything in memory.
pub struct InMemoryStateManager {
    pub state: StateData,
    pub history: Vec<StateVersion>,
    pub checkpoints: StrMap<StateCheckpoint>,
    pub next_version_id: u64,
}

impl InMemoryStateManager {
    /// A manager with an empty state.
    pub fn new() -> (m: InMemoryStateManager)
        ensures
            state_model(m.state) == Map::<Seq<char>, JsonModel>::empty(),
            m.history@.len() == 0,
            m.next_version_id == 1,
    {
        let m = InMemoryStateManager {
            state: StrMap::new(),
            history: Vec::new(),
            checkpoints: StrMap::new(),
            next_version_id: 1,
        };
        assert(state_model(m.state) =~= Map::<Seq<char>, JsonModel>::empty());
        m
    }

    /// A manager starting from `initial_state`.
    pub fn with_initial_state(initial_state: StateData) -> (m: InMemoryStateManager)
        ensures
            m.state == initial_state,
            m.history@.len() == 0,
            m.next_version_id == 1,
    {
        InMemoryStateManager {
            state: initial_state,
            history: Vec::new(),
            checkpoints: StrMap::new(),
            next_version_id: 1,
        }
    }

    /// A copy of the state.
    pub fn get_state(&self) -> (s: StateData)
        ensures
            state_model(s) == state_model(self.state),
    {
        clone_state(&self.state)
    }

    /// Merges `updates` into the state and records a version at `now`.
    pub fn update_state(&mut self, updates: StateData, now: u64) -> (r: LgResult<()>)
        requires
            old(self).next_version_id < u64::MAX,
        ensures
            r is Ok,
            state_model(final(self).state) == state_model(old(self).state).union_prefer_right(
                state_model(updates),
            ),
            final(self).next_version_id == old(self).next_version_id + 1,
            final(self).history@.len() == old(self).history@.len() + 1,
            final(self).history@.take(old(self).history@.len() as int) == old(self).history@,
            ({
                let v = final(self).history@.last();
                &&& v.id == old(self).next_version_id
                &&& v.parent_id == (if v.id > 1 {
                    Some((v.id - 1) as u64)
                } else {
                    None
                })
                &&& v.timestamp == now
                &&& v.description@ == "State update"@
                &&& v.author@ == "system"@
            }),
    {
        updates.assert_unique();
        let ghost es = updates.spec_entries();
        let ghost s0 = state_model(self.state);
        let mut i: usize = 0;
        while i < updates.len()
            invariant
                0 <= i <= es.len(),
                es == updates.spec_entries(),
                keys_unique(es),
                state_model(self.state) == s0.union_prefer_right(
                    entries_map(es.take(i as int)).map_values(|v: JsonValue| v@),
                ),
                self.history == old(self).history,
                self.next_version_id == old(self).next_version_id,
            decreases es.len() - i,
        {
            proof {
                lemma_prefix_map(es, i as int);
            }
            let k = copy_key(updates.key_at(i));
            let v = updates.value_at(i).deep_clone();
            let ghost before = state_model(self.state);
            let ghost m_new = entries_map(es.take(i + 1)).map_values(|v: JsonValue| v@);
            self.state.insert(k, v);
            proof {
                assert(m_new =~= entries_map(es.take(i as int)).map_values(|v: JsonValue| v@).insert(
                    k@,
                    v@,
                ));
                assert(state_model(self.state) =~= before.insert(k@, v@));
                assert(state_model(self.state) =~= s0.union_prefer_right(m_new));
            }
            i = i + 1;
        }
        proof {
            lemma_take_all(es);
            assert(entries_map(es).map_values(|v: JsonValue| v@) =~= state_model(updates));
        }
        let id = self.next_version_id;
        self.next_version_id = self.next_version_id + 1;
        let version = StateVersion {
            id,
            parent_id: if id > 1 {
                Some(id - 1)
            } else {
                None
            },
            timestamp: now,
            description: "State update".to_string(),
            author: "system".to_string(),
        };
        let ghost h0 = self.history@;
        self.history.push(version);
        assert(self.history@.take(h0.len() as int) =~= h0);
        Ok(())
    }

    /// Applies `operation` to field `key`.
    pub fn apply_reducer(&mut self, key: &str, operation: ReducerOperation) -> (r: LgResult<()>)
        ensures
            match reduced(state_model(old(self).state), key@, operation) {
                Ok(m) => r is Ok && state_model(final(self).state) == m,
                Err(msg) => (r matches Err(LangGraphError::State(e)) && e@ == msg) && state_model(
                    final(self).state,
                ) == state_model(old(self).state),
            },
            final(self).history == old(self).history,
    {
        let ghost m0 = state_model(self.state);
        match operation {
            ReducerOperation::Append(value) => {
                let mut a = match self.state.get(key) {
                    Some(JsonValue::Array(a)) => {
                        proof {
                            lemma_array_model(*a);
                        }
                        crate::json::clone_values(a)
                    },
                    _ => {
                        let mut msg = concat_str("Key ", key);
                        crate::text::push_str(&mut msg, " is not an array");
                        return Err(LangGraphError::State(msg));
                    },
                };
                let ghost before = models(a@);
                let ghost vm = value@;
                a.push(value);
                proof {
                    lemma_array_model(a);
                    assert(models(a@) =~= before.push(vm));
                }
                let ghost na = JsonValue::Array(a)@;
                self.state.insert(key.to_string(), JsonValue::Array(a));
                assert(state_model(self.state) =~= m0.insert(key@, na));
                Ok(())
            },
            ReducerOperation::Merge(value) => {
                let mut out = match self.state.get(key) {
                    Some(JsonValue::Object(o)) => {
                        proof {
                            lemma_object_model(*o);
                        }
                        crate::json::clone_entries(o)
                    },
                    _ => {
                        let mut msg = concat_str("Key ", key);
                        crate::text::push_str(&mut msg, " is not an object");
                        return Err(LangGraphError::State(msg));
                    },
                };
                match &value {
                    JsonValue::Object(n) => {
                        proof {
                            lemma_object_model(out);
                            lemma_object_model(*n);
                        }
                        let ghost em = entry_models(out@);
                        let ghost nm = entry_models(n@);
                        let mut i: usize = 0;
                        while i < n.len()
                            invariant
                                i <= n@.len(),
                                nm == entry_models(n@),
                                entry_models(out@) == merge_entries(em, nm.take(i as int)),
                            decreases n@.len() - i,
                        {
                            let k = copy_string(&n[i].0);
                            let v = n[i].1.deep_clone();
                            let ghost before = out@;
                            proof {
                                lemma_find_models(before, k@);
                                crate::json::lemma_object_find(before, k@);
                            }
                            object_insert(&mut out, k, v);
                            proof {
                                assert(nm.take(i + 1).drop_last() =~= nm.take(i as int));
                                assert(nm.take(i + 1).last() == (k@, v@));
                                if crate::json::object_find(before, k@) >= 0 {
                                    assert(entry_models(out@) =~= entry_models(before).update(
                                        crate::json::object_find(before, k@),
                                        (k@, v@),
                                    ));
                                } else {
                                    assert(entry_models(out@) =~= entry_models(before).push((k@, v@)));
                                }
                            }
                            i = i + 1;
                        }
                        proof {
                            assert(nm.take(n@.len() as int) =~= nm);
                            lemma_object_model(out);
                        }
                        let ghost no = JsonValue::Object(out)@;
                        self.state.insert(key.to_string(), JsonValue::Object(out));
                        assert(state_model(self.state) =~= m0.insert(key@, no));
                        Ok(())
                    },
                    _ => {
                        assert(state_model(self.state) =~= m0);
                        Ok(())
                    },
                }
            },
            ReducerOperation::Replace(value) => {
                let ghost vm = value@;
                self.state.insert(key.to_string(), value);
                assert(state_model(self.state) =~= m0.insert(key@, vm));
                Ok(())
            },
            ReducerOperation::Custom(_, _) => Err(LangGraphError::State("Custom reducers not implemented".to_string())),
        }
    }

    /// The recorded versions.
    pub fn get_state_history(&self) -> (h: Vec<StateVersion>)
        ensures
            h@.len() == self.history@.len(),
    {
        self.history.clone()
    }

    /// Every state passes: no errors, no warnings.
    pub fn validate_state(&self, state: &StateData) -> (r: ValidationResult)
        ensures
            r.valid,
            r.errors@.len() == 0,
            r.warnings@.len() == 0,
    {
        ValidationResult { valid: true, errors: Vec::new(), warnings: Vec::new() }
    }
}

} // verus!
