//! A graph-based workflow library: graphs of nodes and edges, state that
//! flows through them, and the rules that route, merge and version it.
pub mod clock;
pub mod error;
pub mod keyed_map;
pub mod json;
pub mod text;
pub mod state;
pub mod graph;
pub mod engine;
pub mod security;
pub mod stream;
pub mod message;
