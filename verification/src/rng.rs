//! The one source of randomness: a uniform draw below a bound.
//!
//! Every stochastic rule of the simulation (patch seeding, initial placement,
//! random walks, litter sizes, old-age death) consumes randomness through
//! `rand_below`, so every caller is verified for every value the draw can
//! take.

use vstd::prelude::*;

verus! {

/// Relies on rand::thread_rng and rand::Rng::gen_range: a draw from the
/// half-open range `0..n`, which is non-empty because `n >= 1` (gen_range
/// panics on an empty range). Nothing beyond the bound is assumed of the
/// result.
#[verifier::external_body]
pub(crate) fn rand_below(n: usize) -> (r: usize)
    requires
        n >= 1,
    ensures
        r < n,
{
    rand::Rng::gen_range(&mut rand::thread_rng(), 0..n)
}

} // verus!
