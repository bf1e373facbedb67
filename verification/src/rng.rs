//! Pseudo-random number generation, injected as an explicit seeded handle.
//!
//! The only randomness primitive the library uses is a uniform draw below a
//! bound; everything else (card colors, exploration coin flips, epsilon
//! thresholds) is derived from it in verified code.

use vstd::prelude::*;

verus! {

/// The seedable generator from the `rand` crate, used as an opaque handle.
#[verifier::external_type_specification]
#[verifier::external_body]
pub struct ExStdRng(rand::rngs::StdRng);

/// Relies on `rand::SeedableRng::seed_from_u64`: builds a deterministic
/// generator from the seed.  Nothing is assumed about the values it yields.
#[verifier::external_body]
pub fn rng_from_seed(seed: u64) -> rand::rngs::StdRng {
    <rand::rngs::StdRng as rand::SeedableRng>::seed_from_u64(seed)
}

/// Relies on `rand::Rng::gen_range` over `0..n`: returns a value uniform in
/// `[0, n)`, and panics only on an empty range, which `n >= 1` rules out.
#[verifier::external_body]
pub fn rand_below(rng: &mut rand::rngs::StdRng, n: u64) -> (r: u64)
    requires
        n >= 1,
    ensures
        r < n,
{
    rand::Rng::gen_range(rng, 0..n)
}

} // verus!
