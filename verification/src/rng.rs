//! The random source of a search: `rand`'s small generator, behind the two
//! calls that the library makes on it.

use vstd::prelude::*;
use rand::Rng;
use rand::SeedableRng;

verus! {

/// `rand::rngs::SmallRng`, carried through as an opaque value.
#[verifier::external_type_specification]
#[verifier::external_body]
pub struct ExSmallRng(rand::rngs::SmallRng);

/// The generator that `SmallRng::seed_from_u64` makes of a seed. The call
/// expands the seed by fixed arithmetic into the state of the generator and
/// reads nothing else, so the generator is a function of the seed. What it
/// goes on to draw is not stated here.
pub uninterp spec fn seeded_generator(seed: u64) -> rand::rngs::SmallRng;

/// `SmallRng::seed_from_u64`: the generator that is made of `seed`, the
/// same for the same seed.
#[verifier::external_body]
pub(crate) fn seeded(seed: u64) -> (rng: rand::rngs::SmallRng)
    ensures
        rng == seeded_generator(seed),
{
    rand::rngs::SmallRng::seed_from_u64(seed)
}

/// `Rng::gen_range` on `0..bound`: some index below `bound`. The call
/// panics on an empty range, so `bound` must not be 0. Which index comes
/// back depends on the generator's state, of which nothing is claimed.
#[verifier::external_body]
pub(crate) fn draw_below(rng: &mut rand::rngs::SmallRng, bound: usize) -> (draw: usize)
    requires
        bound > 0,
    ensures
        draw < bound,
{
    rng.gen_range(0..bound)
}

} // verus!
