//! When a benchmark has measured enough.
use vstd::prelude::*;

verus! {

/// Calls between two looks at the clock.
pub const CALLS_PER_LOOK: u64 = 16;

/// How long a measurement goes on at least.
pub const BUDGET_MILLIS: u64 = 200;

/// Whether a measurement ends after so many calls and so much time: the clock
/// counts only after every sixteenth call.
pub fn measurement_ends(iterations: u64, elapsed_millis: u64) -> (ends: bool)
    ensures
        ends == (iterations % 16 == 0 && elapsed_millis >= 200),
{
    iterations % CALLS_PER_LOOK == 0 && elapsed_millis >= BUDGET_MILLIS
}

} // verus!
