//! Randomness used by the simulation: formation jitter, random open-slot
//! picks and weighted reward draws all go through these two wrappers, so the
//! rest of the crate is verified for every value they may return.

use vstd::prelude::*;
use rand::Rng;

verus! {

/// Relies on rand::thread_rng and rand::Rng::gen_range: draws a value
/// uniformly from the half-open range `0..n`, which is non-empty because of
/// the precondition, so the call does not panic and the result is below `n`.
#[verifier::external_body]
pub(crate) fn rand_below(n: usize) -> (r: usize)
    requires
        n > 0,
    ensures
        r < n,
{
    rand::thread_rng().gen_range(0..n)
}

/// Relies on rand::thread_rng and rand::Rng::gen_range: draws a value
/// uniformly from the inclusive range `lo..=hi`, which is non-empty because
/// of the precondition, so the call does not panic and the result lies
/// between the bounds.
#[verifier::external_body]
pub(crate) fn rand_between(lo: i64, hi: i64) -> (r: i64)
    requires
        lo <= hi,
    ensures
        lo <= r <= hi,
{
    rand::thread_rng().gen_range(lo..=hi)
}

} // verus!
