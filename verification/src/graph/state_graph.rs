//! Graphs over a typed state: checkpointing and conditional edges.
use vstd::prelude::*;
use std::marker::PhantomData;

verus! {

/// Saves and loads states of type `T` under checkpoint ids.
pub trait GenericCheckpointer<T> {
    /// Saves `state` as `checkpoint_id`.
    fn save(&self, checkpoint_id: &str, state: &T) -> Result<(), String>;
    /// Loads the state saved as `checkpoint_id`.
    fn load(&self, checkpoint_id: &str) -> Result<T, String>;
}

/// An edge taken when a condition on the state holds.
pub struct StateConditionalEdge<T, F> {
    pub source: String,
    pub target: String,
    pub condition: F,
    pub _state: PhantomData<T>,
}

impl<T, F: Fn(&T) -> bool> StateConditionalEdge<T, F> {
    /// An edge from `source` to `target` taken when `condition` holds.
    pub fn new(source: String, target: String, condition: F) -> (e: StateConditionalEdge<T, F>)
        ensures
            e.source == source,
            e.target == target,
            e.condition == condition,
    {
        StateConditionalEdge { source, target, condition, _state: PhantomData }
    }

    /// Whether the edge is taken in `state`.
    pub fn applies(&self, state: &T) -> (b: bool)
        requires
            call_requires(self.condition, (state,)),
        ensures
            call_ensures(self.condition, (state,), b),
    {
        (self.condition)(state)
    }
}

} // verus!
