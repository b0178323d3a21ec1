//! The items a streaming execution emits, and the settings of the engine
//! that emits them.
use vstd::prelude::*;
use crate::json::{JsonValue, JsonModel};
use crate::text::{concat_str, decimal_string, dec_string};

verus! {

/// One item of an execution stream.
#[derive(Debug)]
pub struct StreamOutput<T> {
    pub value: T,
    /// When the item was emitted, in nanoseconds since the Unix epoch.
    pub timestamp: u64,
    pub node_id: String,
    /// Position of the item in the stream.
    pub sequence: usize,
}

/// Streams an execution node by node.
pub struct DefaultStreamingEngine {
    buffer_size: usize,
    enable_metrics: bool,
}

/// The value emitted for node `i`: its index and that it is processing,
/// and whether backpressure applies when it does.
pub open spec fn output_value(i: usize, backpressure: bool) -> JsonModel {
    let base = seq![
        ("node_index"@, JsonModel::Number(i as int)),
        ("state"@, JsonModel::Str("processing"@)),
    ];
    JsonModel::Object(
        if backpressure {
            base.push(("backpressure"@, JsonModel::Bool(true)))
        } else {
            base
        },
    )
}

impl DefaultStreamingEngine {
    /// The capacity of the stream's buffer.
    pub closed spec fn buffer_size(&self) -> usize {
        self.buffer_size
    }

    /// Whether the engine keeps metrics.
    pub closed spec fn metrics_enabled(&self) -> bool {
        self.enable_metrics
    }

    /// An engine with the given buffer, keeping metrics.
    pub fn new(buffer_size: usize) -> (e: DefaultStreamingEngine)
        ensures
            e.buffer_size() == buffer_size,
            e.metrics_enabled(),
    {
        DefaultStreamingEngine { buffer_size, enable_metrics: true }
    }

    /// This engine with metrics switched on or off.
    pub fn with_metrics(self, enable: bool) -> (e: DefaultStreamingEngine)
        ensures
            e.buffer_size() == self.buffer_size(),
            e.metrics_enabled() == enable,
    {
        let mut e = self;
        e.enable_metrics = enable;
        e
    }

    /// The capacity of the stream's buffer.
    pub fn get_buffer_size(&self) -> (n: usize)
        ensures
            n == self.buffer_size(),
    {
        self.buffer_size
    }

    /// The item emitted for node `i`, the `i`-th of the stream, at `timestamp`.
    pub fn node_output(i: usize, backpressure: bool, timestamp: u64) -> (o: StreamOutput<JsonValue>)
        requires
            i <= i64::MAX,
        ensures
            o.value@ == output_value(i, backpressure),
            o.timestamp == timestamp,
            o.node_id@ == "node_"@ + dec_string(i as nat),
            o.sequence == i,
    {
        let mut entries: Vec<(String, JsonValue)> = Vec::new();
        entries.push(("node_index".to_string(), JsonValue::Number(i as i64)));
        entries.push(("state".to_string(), JsonValue::String("processing".to_string())));
        if backpressure {
            entries.push(("backpressure".to_string(), JsonValue::Bool(true)));
        }
        proof {
            crate::json::lemma_object_model(entries);
            assert(crate::json::entry_models(entries@) =~= output_value(i, backpressure)->Object_0);
        }
        let value = JsonValue::Object(entries);
        let node_id = concat_str("node_", decimal_string(i as u64).as_str());
        StreamOutput { value, timestamp, node_id, sequence: i }
    }
}

/// A node whose output can be streamed.
pub struct StreamingNode<T> {
    inner: T,
    stream_enabled: bool,
}

impl<T> StreamingNode<T> {
    /// The wrapped node.
    pub closed spec fn inner(&self) -> T {
        self.inner
    }

    /// Whether streaming is on.
    pub closed spec fn streaming(&self) -> bool {
        self.stream_enabled
    }

    /// Wraps `inner`, with streaming on.
    pub fn new(inner: T) -> (n: StreamingNode<T>)
        ensures
            n.inner() == inner,
            n.streaming(),
    {
        StreamingNode { inner, stream_enabled: true }
    }

    /// This node with streaming off.
    pub fn disable_streaming(self) -> (n: StreamingNode<T>)
        ensures
            n.inner() == self.inner(),
            !n.streaming(),
    {
        let mut n = self;
        n.stream_enabled = false;
        n
    }

    /// Whether streaming is on.
    pub fn is_streaming_enabled(&self) -> (b: bool)
        ensures
            b == self.streaming(),
    {
        self.stream_enabled
    }
}

} // verus!
