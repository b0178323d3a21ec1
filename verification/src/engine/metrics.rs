//! Batch processing of measurements.
use vstd::prelude::*;

verus! {

/// Analyses batches of measurements.
pub struct BatchMetricsProcessor;

} // verus!
