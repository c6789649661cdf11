//! The uniform sampler that placement and reproduction draw from.
//!
//! Randomness enters the library only here. Nothing is assumed about which
//! value comes back beyond its range, so every caller is verified for every
//! possible draw.

use vstd::prelude::*;

verus! {

/// Relies on rand::random_range: a draw from `low..high` lies in that
/// half-open range (the range must not be empty, or the call panics).
#[verifier::external_body]
fn sample_uniform(low: i64, high: i64) -> (r: i64)
    requires
        low < high,
    ensures
        low <= r < high,
{
    rand::random_range(low..high)
}

/// A uniform draw from `low..high`; a degenerate range (`low >= high`)
/// deterministically yields `low`.
pub fn rng_range(low: i64, high: i64) -> (r: i64)
    ensures
        low < high ==> low <= r < high,
        low >= high ==> r == low,
{
    if low >= high {
        low
    } else {
        sample_uniform(low, high)
    }
}

} // verus!
