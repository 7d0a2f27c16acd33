//! Randomness for the shuffler, supplied by the `rand` crate behind small
//! trusted wrappers.  Nothing proved here depends on which numbers come back:
//! every draw is used only to pick among candidates, and the shuffler
//! certifies its final output independently.

use vstd::prelude::*;

use rand::Rng;
use rand::SeedableRng;

verus! {

/// Declares `rand::rngs::SmallRng` so that values of it can be held and
/// passed around; the generator state is opaque to the proofs.
#[verifier::external_type_specification]
#[verifier::external_body]
pub struct ExSmallRng(rand::rngs::SmallRng);

/// Relies on `rand_core::SeedableRng::seed_from_u64`: builds a generator from
/// a seed, so repeated runs with one seed draw the same numbers.
#[verifier::external_body]
pub(crate) fn seeded_rng(seed: u64) -> rand::rngs::SmallRng {
    rand::rngs::SmallRng::seed_from_u64(seed)
}

/// Relies on `rand_core::SeedableRng::from_entropy`: builds a generator from
/// operating-system entropy.  Aborts only if the operating system cannot
/// supply entropy at all.
#[verifier::external_body]
pub(crate) fn entropy_rng() -> rand::rngs::SmallRng {
    rand::rngs::SmallRng::from_entropy()
}

/// Relies on `rand::Rng::gen_range`: a draw over `0..n` returns a value below
/// `n`, and panics only when the range is empty, which the precondition rules
/// out.
#[verifier::external_body]
pub(crate) fn rand_below(rng: &mut rand::rngs::SmallRng, n: usize) -> (r: usize)
    requires
        n > 0,
    ensures
        r < n,
{
    rng.gen_range(0..n)
}

} // verus!
