//! Components that can be run.
use vstd::prelude::*;
use crate::error::LgResult;

verus! {

/// A component of a graph that can be executed.
pub trait Executable {
    /// Runs the component.
    fn execute(&self) -> LgResult<()>;
}

} // verus!
