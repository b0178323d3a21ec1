//! Executing graphs: traversal orders, dependency levels, node execution,
//! fault tolerance and tracing.
pub mod executor;
pub mod context;
pub mod marks;
pub mod traversal;
pub mod levels;
pub mod parallel;
pub mod node_executor;
pub mod resilience;
pub mod tracing;
pub mod state_diff;
pub mod state_inspector;
pub mod resumption;
pub mod breakpoint;
pub mod human_in_loop;
pub mod implementations;
pub mod metrics;
pub mod rate_limiter;
pub mod traits;
pub mod user_feedback;
pub mod executable;
pub mod interrupts;
pub mod walk;
pub mod parallel_executor;
pub mod run_order;
