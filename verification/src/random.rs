//! The seedable random source of a run.
//!
//! Reproducibility requires an explicit, seeded generator threaded through
//! the run, never ambient global state.  The generator itself comes from
//! the `rand` crate; its two entry points are wrapped here, and nothing is
//! assumed of the values drawn beyond their range.

use vstd::prelude::*;

verus! {

#[verifier::external_type_specification]
#[verifier::external_body]
pub struct ExStdRng(rand::rngs::StdRng);

/// Relies on rand's `SeedableRng::seed_from_u64`: builds the standard
/// pseudo-random generator from a 64-bit seed.  Nothing is assumed about
/// the stream it will produce.
#[verifier::external_body]
pub(crate) fn rng_from_seed(seed: u64) -> rand::rngs::StdRng {
    <rand::rngs::StdRng as rand::SeedableRng>::seed_from_u64(seed)
}

/// Relies on rand's `Rng::gen_range`: draws a value uniformly from a
/// non-empty range.  All that is assumed of the draw is that it lies below
/// the bound; which value comes out is left open.
#[verifier::external_body]
pub(crate) fn rng_below(rng: &mut rand::rngs::StdRng, bound: u64) -> (r: u64)
    requires
        1 <= bound,
    ensures
        r < bound,
{
    rand::Rng::gen_range(rng, 0..bound)
}

} // verus!
