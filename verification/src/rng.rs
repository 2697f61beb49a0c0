//! Randomness for trigger parameters, from the thread-local generator.

use vstd::prelude::*;

verus! {

/// Relies on rand::random_range: a value drawn from the half-open range,
/// always at least `low` and strictly below `high`.
#[verifier::external_body]
pub fn random_in_range(low: u64, high: u64) -> (r: u64)
    requires
        low < high,
    ensures
        low <= r < high,
{
    rand::random_range(low..high)
}

} // verus!
