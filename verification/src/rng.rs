//! Trusted boundary to the outside random-number generator. A library holds
//! one seeded generator so that identical seeds replay identical draws; the
//! draw logic itself is verified and only the raw index below comes from here.

use vstd::prelude::*;

verus! {

#[verifier::external_type_specification]
#[verifier::external_body]
pub struct ExStdRng(rand::rngs::StdRng);

/// Relies on rand's derived `StdRng::clone`: a field-for-field copy, so the
/// copy equals the original and will replay the same stream.
pub assume_specification[ <rand::rngs::StdRng as core::clone::Clone>::clone ](
    rng: &rand::rngs::StdRng,
) -> (r: rand::rngs::StdRng)
    ensures
        r == *rng,
;

/// Relies on rand's `StdRng::seed_from_u64`: builds a generator from a
/// 64-bit seed, deterministically and without panicking.
#[verifier::external_body]
pub(crate) fn rng_from_seed(seed: u64) -> rand::rngs::StdRng {
    <rand::rngs::StdRng as rand::SeedableRng>::seed_from_u64(seed)
}

/// Relies on rand's `Rng::gen_range` over `0..bound`: returns a value below
/// `bound`, and panics only on an empty range, which the precondition rules
/// out. Which value comes back depends on the generator's state, so nothing
/// more is claimed of it.
#[verifier::external_body]
pub(crate) fn rng_below(rng: &mut rand::rngs::StdRng, bound: usize) -> (r: usize)
    requires
        bound > 0,
    ensures
        r < bound,
{
    rand::Rng::gen_range(rng, 0..bound)
}

} // verus!
