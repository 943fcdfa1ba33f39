//! The seeded pseudo-random generator behind scrambles: rand's `StdRng`.
//!
//! Its state is carried through the verified code as an opaque value. Seeding
//! and drawing are named: the same seed gives the same generator, and the
//! same generator and range give the same draw and the same next state.
use vstd::prelude::*;

use rand::rngs::StdRng;
use rand::Rng;
use rand::SeedableRng;

verus! {

#[verifier::external_type_specification]
#[verifier::external_body]
pub struct ExStdRng(StdRng);

/// The generator seeded with the 32 bytes of `seed`.
pub uninterp spec fn seeded_generator(seed: Seq<u8>) -> StdRng;

/// The generator seeded from the 64-bit value `state`.
pub uninterp spec fn generator_from_u64(state: u64) -> StdRng;

/// The value drawn from `low .. high` by generator `g`, and `g`'s next state.
pub uninterp spec fn uniform_draw(g: StdRng, low: u32, high: u32) -> (u32, StdRng);

/// Relies on `rand::SeedableRng::from_seed` for `StdRng`: the generator's
/// state is a function of the seed alone.
#[verifier::external_body]
pub(crate) fn generator_from_seed(seed: [u8; 32]) -> (g: StdRng)
    ensures
        g == seeded_generator(seed@),
{
    StdRng::from_seed(seed)
}

/// Relies on `rand::SeedableRng::seed_from_u64` for `StdRng`: the
/// generator's state is a function of `state` alone.
#[verifier::external_body]
pub(crate) fn generator_from_state(state: u64) -> (g: StdRng)
    ensures
        g == generator_from_u64(state),
{
    StdRng::seed_from_u64(state)
}

/// Relies on `rand::Rng::gen_range` over the half-open range `low..high` of
/// `u32`: it returns a value of the range, and what it returns and the state
/// it leaves depend on the generator's state and the range alone. It panics
/// on an empty range, which `requires` leaves out.
#[verifier::external_body]
pub(crate) fn draw(g: &mut StdRng, low: u32, high: u32) -> (v: u32)
    requires
        low < high,
    ensures
        low <= v < high,
        (v, *final(g)) == uniform_draw(*old(g), low, high),
{
    g.gen_range(low..high)
}

} // verus!
