//! Random draws for the bot factory, bot answers and question sampling,
//! through the `rand` crate's standard generator. The generator is seedable
//! so that a whole run can be reproduced.

use rand::RngExt;
use rand::SeedableRng;
use vstd::prelude::*;

verus! {

#[verifier::external_type_specification]
#[verifier::external_body]
pub struct ExStdRng(rand::rngs::StdRng);

/// Relies on `StdRng::seed_from_u64` (`SeedableRng`): builds a generator
/// from the given seed.
#[verifier::external_body]
pub fn rng_from_seed(seed: u64) -> rand::rngs::StdRng {
    rand::rngs::StdRng::seed_from_u64(seed)
}

/// Relies on `RngExt::random_range`: a draw from `0..n` lies below `n`.
/// Nothing else is assumed of the value.
#[verifier::external_body]
pub fn rng_below(rng: &mut rand::rngs::StdRng, n: u64) -> (r: u64)
    requires
        n > 0,
    ensures
        r < n,
{
    rng.random_range(0..n)
}

} // verus!
