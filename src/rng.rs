//! The random generator that draws priorities, from the `rand` crate.
use rand::rngs::StdRng;
use rand::Rng;
use rand::SeedableRng;
use vstd::prelude::*;

verus! {

/// `rand`'s standard generator, held as an opaque value.
#[verifier::external_type_specification]
#[verifier::external_body]
pub struct ExStdRng(StdRng);

/// The generator that `StdRng::from_seed` makes of the given seed bytes.
pub uninterp spec fn seeded_bytes(seed: Seq<u8>) -> StdRng;

/// The generator that `StdRng::seed_from_u64` makes of the given integer.
pub uninterp spec fn seeded_u64(seed: u64) -> StdRng;

/// The `u64` that `Rng::gen` draws from the generator in state `rng`.
pub uninterp spec fn next_draw(rng: StdRng) -> u64;

/// The state that the generator in state `rng` is left in by one `u64` draw.
pub uninterp spec fn after_draw(rng: StdRng) -> StdRng;

/// Relies on `SeedableRng::from_entropy` for `StdRng`: a generator seeded
/// from the operating system's entropy source. `from_entropy` panics only
/// where the operating system offers no entropy at all.
#[verifier::external_body]
pub(crate) fn entropy_rng() -> (r: StdRng) {
    StdRng::from_entropy()
}

/// Relies on `SeedableRng::from_seed` for `StdRng`: a generator seeded with
/// the given 32 bytes. `StdRng` is a deterministic algorithm, so the result
/// depends on the seed alone.
#[verifier::external_body]
pub(crate) fn rng_from_seed(seed: [u8; 32]) -> (r: StdRng)
    ensures
        r == seeded_bytes(seed@),
{
    StdRng::from_seed(seed)
}

/// Relies on `SeedableRng::seed_from_u64` for `StdRng`: a generator whose
/// seed is expanded from the given integer; the result depends on the
/// integer alone.
#[verifier::external_body]
pub(crate) fn rng_from_u64(seed: u64) -> (r: StdRng)
    ensures
        r == seeded_u64(seed),
{
    StdRng::seed_from_u64(seed)
}

/// Relies on `Rng::gen::<u64>`: draws a uniformly distributed integer and
/// advances the generator. Both depend on the generator's state alone.
#[verifier::external_body]
pub(crate) fn draw_priority(rng: &mut StdRng) -> (r: u64)
    ensures
        r == next_draw(*old(rng)),
        *final(rng) == after_draw(*old(rng)),
{
    rng.gen::<u64>()
}

} // verus!
