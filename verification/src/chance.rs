//! Random draws.  These two functions are the only code in the library that
//! is trusted rather than proved: each hands one call to the `rand` crate and
//! states what every possible draw has in common.

use rand::Rng;
use vstd::prelude::*;

verus! {

/// Draws an integer from the thread-local generator with
/// `rand::Rng::gen_range(low, high)`.
///
/// The contract claims only that the draw lies in the half-open range
/// `low..high`.  `gen_range` panics on an empty range, which the
/// precondition rules out.
#[verifier::external_body]
pub(crate) fn random_in_range(low: u32, high: u32) -> (r: u32)
    requires
        low < high,
    ensures
        low <= r < high,
{
    rand::thread_rng().gen_range(low, high)
}

/// Draws a boolean from the thread-local generator with `rand::Rng::gen`.
///
/// Nothing is claimed of the result.
#[verifier::external_body]
pub(crate) fn random_bool() -> (b: bool) {
    rand::thread_rng().gen()
}

} // verus!
