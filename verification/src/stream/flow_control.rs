//! Flow control: permits that bound how much work is in flight.
use vstd::prelude::*;
use crate::graph::GraphError;

verus! {

/// Hands out permits for work and takes them back.
pub trait FlowController {
    /// A permit to do one piece of work.
    fn acquire(&mut self) -> Result<FlowPermit, GraphError>;

    /// Gives a permit back.
    fn release(&mut self, permit: FlowPermit);

    /// Whether the controller is within its healthy range.
    fn is_healthy(&self) -> bool;
}

/// Permission to do one piece of work.
#[derive(Debug)]
pub struct FlowPermit {
    /// Which permit this is.
    pub id: usize,
    /// When it was handed out, in nanoseconds since the Unix epoch.
    pub timestamp: u64,
}

/// Whether `in_flight` pieces of work out of at most `max_in_flight` keep a
/// controller healthy: under 90 percent of its capacity.
pub open spec fn load_healthy(in_flight: usize, max_in_flight: usize) -> bool {
    in_flight * 100 < max_in_flight * 90
}

/// Whether the load is under 90 percent of the capacity; never for a
/// controller without capacity.
pub fn is_load_healthy(in_flight: usize, max_in_flight: usize) -> (b: bool)
    ensures
        b == load_healthy(in_flight, max_in_flight),
{
    (in_flight as u128) * 100 < (max_in_flight as u128) * 90
}

} // verus!
