//! Messages exchanged in message-based workflows.
use vstd::prelude::*;

verus! {

/// Who sent a message.
#[derive(Debug, Clone, Copy, PartialEq, Eq, Structural)]
pub enum MessageRole {
    User,
    Assistant,
    System,
    Tool,
}

/// What a message carries.
#[derive(Debug, Clone, Copy, PartialEq, Eq, Structural)]
pub enum MessageType {
    Text,
    Image,
    Audio,
    Video,
    File,
    Command,
}

/// Facts about a message graph.
#[derive(Debug, Clone, Copy)]
pub struct MessageGraphStats {
    pub node_count: usize,
    pub router_count: usize,
    pub has_entry_point: bool,
    pub history_enabled: bool,
    pub max_history_size: usize,
}

impl MessageGraphStats {
    /// The statistics of a graph with `node_count` nodes, `routers` plain and
    /// `content_routers` content routers, an entry point or not, and a
    /// history of at most `max_history` messages (none when 0).
    pub fn describe(
        node_count: usize,
        routers: usize,
        content_routers: usize,
        has_entry_point: bool,
        max_history: usize,
    ) -> (s: MessageGraphStats)
        requires
            routers + content_routers <= usize::MAX,
        ensures
            s.node_count == node_count,
            s.router_count == routers + content_routers,
            s.has_entry_point == has_entry_point,
            s.history_enabled == (max_history > 0),
            s.max_history_size == max_history,
    {
        MessageGraphStats {
            node_count,
            router_count: routers + content_routers,
            has_entry_point,
            history_enabled: max_history > 0,
            max_history_size: max_history,
        }
    }
}

} // verus!
