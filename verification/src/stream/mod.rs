//! Streaming: collectors that gather items, transformers that map them,
//! and the flow control and channel selection around them.
pub mod collectors;
pub mod transformers;
pub mod streaming_engine;
pub mod flow_control;
pub mod channels;
