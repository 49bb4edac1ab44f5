//! The one source of randomness: a uniform draw below a bound, taken from
//! the process-wide thread-local random number generator.

use vstd::prelude::*;

verus! {

/// Relies on rand::Rng::gen_range over the half-open range 0..n (via
/// rand::thread_rng): the draw lies below the bound; nothing else can be
/// promised of a random value.
#[verifier::external_body]
pub(crate) fn random_below(n: u32) -> (r: u32)
    requires
        n > 0,
    ensures
        r < n,
{
    rand::Rng::gen_range(&mut rand::thread_rng(), 0..n)
}

} // verus!
