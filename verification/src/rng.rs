//! Trusted draws from the process's random number generator. Nothing
//! can be promised of a random value beyond its range, and the
//! contracts promise exactly that.

use vstd::prelude::*;

verus! {

/// Relies on rand::random_range over an inclusive i64 range: the
/// draw lies within the bounds (an empty range would panic, so the
/// bounds are required to be ordered).
#[verifier::external_body]
pub(crate) fn random_i64_between(lo: i64, hi: i64) -> (r: i64)
    requires
        lo <= hi,
    ensures
        lo <= r <= hi,
{
    rand::random_range(lo..=hi)
}

/// Relies on rand::random_range over an inclusive u32 range: the
/// draw lies within the bounds.
#[verifier::external_body]
pub(crate) fn random_u32_between(lo: u32, hi: u32) -> (r: u32)
    requires
        lo <= hi,
    ensures
        lo <= r <= hi,
{
    rand::random_range(lo..=hi)
}

/// Relies on rand::random for bool: a coin flip, of which nothing is
/// promised.
#[verifier::external_body]
pub(crate) fn random_coin() -> bool {
    rand::random()
}

} // verus!
