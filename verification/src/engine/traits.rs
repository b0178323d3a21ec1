//! Types shared by the engine's interfaces: strategies, capabilities,
//! checkpoints, validation results, resilience status, and stream traits.
use vstd::prelude::*;
use crate::error::LgResult;
use crate::keyed_map::StrMap;
use crate::json::JsonValue;

verus! {

/// How nodes are scheduled.
#[derive(Debug)]
pub enum ExecutionStrategy {
    /// One after another.
    Sequential,
    /// In parallel, up to a limit.
    Parallel { max_concurrency: usize },
    /// In named pipeline stages.
    Pipeline { stages: Vec<String> },
    /// Adapting a base strategy to the load.
    Adaptive { base_strategy: Box<ExecutionStrategy> },
}

/// Runtime facts about one execution.
#[derive(Debug)]
pub struct ExecutionContext {
    pub execution_id: String,
    pub graph_id: String,
    /// Current step.
    pub step: usize,
    pub metadata: StrMap<JsonValue>,
    /// Time allowed, in nanoseconds.
    pub timeout: Option<u64>,
}

/// The result of running one node.
#[derive(Debug)]
pub struct ExecutionResult {
    pub success: bool,
    pub output: Option<JsonValue>,
    /// Time taken, in nanoseconds.
    pub duration: u64,
    pub error: Option<String>,
    pub metadata: StrMap<JsonValue>,
}

/// An operation that combines a value into a state field.
#[derive(Debug)]
pub enum ReducerOperation {
    /// Append to an array.
    Append(JsonValue),
    /// Merge into an object.
    Merge(JsonValue),
    /// Replace the value.
    Replace(JsonValue),
    /// A named custom operation.
    Custom(String, JsonValue),
}

/// A recorded version of a state.
#[derive(Debug, Clone)]
pub struct StateVersion {
    pub id: u64,
    pub parent_id: Option<u64>,
    pub timestamp: u64,
    pub description: String,
    pub author: String,
}

/// What an execution engine can do.
#[derive(Debug, Clone)]
pub struct ExecutionCapabilities {
    pub supports_parallel: bool,
    pub max_concurrency: Option<usize>,
    pub supports_streaming: bool,
    pub supports_checkpointing: bool,
    pub supported_node_types: Vec<String>,
}

/// A saved state.
#[derive(Debug)]
pub struct StateCheckpoint {
    pub id: String,
    pub timestamp: u64,
    /// The serialised state.
    pub data: Vec<u8>,
    pub metadata: StrMap<String>,
}

/// The outcome of a validation.
#[derive(Debug, Clone)]
pub struct ValidationResult {
    pub valid: bool,
    pub errors: Vec<String>,
    pub warnings: Vec<String>,
}

impl ValidationResult {
    /// A result of the given errors and warnings: valid when there are no errors.
    pub fn from_findings(errors: Vec<String>, warnings: Vec<String>) -> (r: ValidationResult)
        ensures
            r.valid == (errors@.len() == 0),
            r.errors == errors,
            r.warnings == warnings,
    {
        let valid = errors.len() == 0;
        ValidationResult { valid, errors, warnings }
    }
}

/// The state of the fault-tolerance machinery.
#[derive(Debug)]
pub struct ResilienceStatus {
    pub circuit_breakers: StrMap<CircuitBreakerState>,
    pub active_retries: usize,
    pub total_operations: u64,
    pub failed_operations: u64,
}

/// The state of a circuit breaker.
#[derive(Debug, Clone)]
pub enum CircuitBreakerState {
    /// Requests pass.
    Closed,
    /// Requests fail fast, since the given time.
    Open { open_since: u64 },
    /// A trial request may pass.
    HalfOpen,
}

/// A source of items.
pub trait Stream<Item> {
    /// The next item, if any.
    fn next(&mut self) -> Option<Item>;
    /// Whether more items may come.
    fn has_more(&self) -> bool;
}

/// Handles the items of a stream one by one.
pub trait StreamItemProcessor<T> {
    /// Handles one item.
    fn process(&mut self, item: T) -> LgResult<()>;
}

/// A stream with a buffer of pending items.
pub trait BufferedStream<T>: Stream<T> {
    /// Adds an item to the buffer.
    fn push(&mut self, item: T) -> LgResult<()>;
    /// How many items are buffered.
    fn buffer_size(&self) -> usize;
    /// Whether the buffer is full.
    fn is_buffer_full(&self) -> bool;
}

/// What to do when a buffer is full.
#[derive(Debug, Clone, Copy, PartialEq, Structural)]
pub enum BackpressureStrategy {
    /// Wait for space.
    Block,
    /// Drop the oldest items.
    DropOldest,
    /// Drop the newest items.
    DropNewest,
    /// Fail.
    Error,
}

/// Formats in which metrics are exported.
#[derive(Debug, Clone)]
pub enum MetricsFormat {
    Prometheus,
    Json,
    Csv,
    Custom(String),
}

/// How severe an error is.
#[derive(Debug, Clone, Copy, PartialEq, Structural)]
pub enum ErrorSeverity {
    Low,
    Medium,
    High,
    Critical,
}

} // verus!
