//! The library's error type.
use vstd::prelude::*;
use crate::graph::GraphError;
use crate::engine::executor::ExecutionError;
use crate::state::advanced::StateError;
use crate::engine::human_in_loop::InterruptError;
use crate::engine::breakpoint::BreakpointError;
use crate::state::schema::SchemaError;

verus! {

/// Every error that the library's operations report.
#[derive(Debug)]
pub enum LangGraphError {
    /// Graph structure error (cycles, missing nodes, etc.)
    GraphStructure(String),
    /// State management error
    State(String),
    /// Execution error during graph traversal
    Execution(String),
    /// Checkpoint error
    Checkpoint(String),
    /// Serialization error
    Serialization(String),
    /// Graph-specific errors
    Graph(GraphError),
    /// Engine execution errors
    Engine(ExecutionError),
    /// Advanced state errors
    AdvancedState(StateError),
    /// Generic error for unexpected conditions
    Internal(String),
    /// Graph validation error
    GraphValidation(String),
    /// State error
    StateError(String),
    /// Human-in-the-loop interrupt error
    Interrupt(InterruptError),
    /// Breakpoint error
    Breakpoint(BreakpointError),
    /// Schema validation error
    Schema(SchemaError),
}

/// The result of a fallible operation of the library.
pub type LgResult<T> = core::result::Result<T, LangGraphError>;

} // verus!
