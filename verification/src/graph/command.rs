//! Commands: a state update together with where execution goes next.
use vstd::prelude::*;
use crate::json::JsonValue;
use crate::state::StateData;

verus! {

/// The graph that a command sends execution to.
#[derive(Debug, Clone, PartialEq)]
pub enum GraphTarget {
    /// The current graph.
    Current,
    /// The parent graph.
    Parent,
    /// A named subgraph.
    Subgraph(String),
}

/// A state update combined with a routing decision.
#[derive(Debug)]
pub struct Command {
    /// State updates to apply.
    pub update: Option<StateData>,
    /// The next node.
    pub goto: Option<String>,
    /// Several next nodes, run in parallel.
    pub goto_multiple: Option<Vec<String>>,
    /// The graph to go to.
    pub graph: Option<GraphTarget>,
    pub metadata: Option<JsonValue>,
}

impl Command {
    /// A command that does nothing.
    pub fn new() -> (c: Command)
        ensures
            c.update is None,
            c.goto is None,
            c.goto_multiple is None,
            c.graph is None,
            c.metadata is None,
    {
        Command { update: None, goto: None, goto_multiple: None, graph: None, metadata: None }
    }

    /// A command that applies `update`.
    pub fn with_update(update: StateData) -> (c: Command)
        ensures
            c.update == Some(update),
            c.goto is None,
            c.goto_multiple is None,
            c.graph is None,
            c.metadata is None,
    {
        Command { update: Some(update), goto: None, goto_multiple: None, graph: None, metadata: None }
    }

    /// A command that goes to `goto`.
    pub fn with_goto(goto: String) -> (c: Command)
        ensures
            c.update is None,
            c.goto == Some(goto),
            c.goto_multiple is None,
            c.graph is None,
            c.metadata is None,
    {
        Command { update: None, goto: Some(goto), goto_multiple: None, graph: None, metadata: None }
    }

    /// A command that applies `update` and goes to `goto`.
    pub fn with_update_and_goto(update: StateData, goto: String) -> (c: Command)
        ensures
            c.update == Some(update),
            c.goto == Some(goto),
            c.goto_multiple is None,
            c.graph is None,
            c.metadata is None,
    {
        Command {
            update: Some(update),
            goto: Some(goto),
            goto_multiple: None,
            graph: None,
            metadata: None,
        }
    }

    /// A command that runs `nodes` in parallel.
    pub fn parallel(nodes: Vec<String>) -> (c: Command)
        ensures
            c.update is None,
            c.goto is None,
            c.goto_multiple == Some(nodes),
            c.graph is None,
            c.metadata is None,
    {
        Command { update: None, goto: None, goto_multiple: Some(nodes), graph: None, metadata: None }
    }

    /// A command that goes to the parent graph.
    pub fn to_parent() -> (c: Command)
        ensures
            c.update is None,
            c.goto is None,
            c.goto_multiple is None,
            c.graph == Some(GraphTarget::Parent),
            c.metadata is None,
    {
        Command {
            update: None,
            goto: None,
            goto_multiple: None,
            graph: Some(GraphTarget::Parent),
            metadata: None,
        }
    }

    /// This command with `update` as its state update.
    pub fn update(self, update: StateData) -> (c: Command)
        ensures
            c == (Command { update: Some(update), ..self }),
    {
        let mut c = self;
        c.update = Some(update);
        c
    }

    /// This command going to `node`.
    pub fn goto(self, node: String) -> (c: Command)
        ensures
            c == (Command { goto: Some(node), ..self }),
    {
        let mut c = self;
        c.goto = Some(node);
        c
    }

    /// This command running `nodes` in parallel.
    pub fn goto_multiple(self, nodes: Vec<String>) -> (c: Command)
        ensures
            c == (Command { goto_multiple: Some(nodes), ..self }),
    {
        let mut c = self;
        c.goto_multiple = Some(nodes);
        c
    }

    /// This command going to graph `target`.
    pub fn set_graph(self, target: GraphTarget) -> (c: Command)
        ensures
            c == (Command { graph: Some(target), ..self }),
    {
        let mut c = self;
        c.graph = Some(target);
        c
    }

    /// This command with `metadata`.
    pub fn with_metadata(self, metadata: JsonValue) -> (c: Command)
        ensures
            c == (Command { metadata: Some(metadata), ..self }),
    {
        let mut c = self;
        c.metadata = Some(metadata);
        c
    }
}

impl Default for Command {
    /// The command that does nothing.
    fn default() -> (c: Command)
        ensures
            c.update is None,
            c.goto is None,
            c.goto_multiple is None,
            c.graph is None,
            c.metadata is None,
    {
        Command::new()
    }
}

} // verus!
