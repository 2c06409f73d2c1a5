use vstd::prelude::*;

verus! {

#[verifier::external_type_specification]
#[verifier::external_body]
pub struct ExRandomNumberGenerator(rltk::RandomNumberGenerator);

/// Relies on rltk::RandomNumberGenerator::new: a generator seeded from entropy.
/// Nothing is assumed of the values it will produce.
#[verifier::external_body]
pub(crate) fn rng_new() -> rltk::RandomNumberGenerator {
    rltk::RandomNumberGenerator::new()
}

/// Relies on rltk::RandomNumberGenerator::seeded: a generator built from the
/// given seed alone. Nothing is assumed of the values it will produce.
#[verifier::external_body]
pub(crate) fn rng_seeded(seed: u64) -> rltk::RandomNumberGenerator {
    rltk::RandomNumberGenerator::seeded(seed)
}

/// Relies on rltk::RandomNumberGenerator::range: a uniform draw, inclusive of
/// `min` and exclusive of `max`; it panics on an empty range.
#[verifier::external_body]
pub(crate) fn rng_range(rng: &mut rltk::RandomNumberGenerator, min: i32, max: i32) -> (r: i32)
    requires
        min < max,
    ensures
        min <= r < max,
{
    rng.range(min, max)
}

/// Relies on rltk::RandomNumberGenerator::roll_dice: the sum of `n` draws,
/// each inclusively between 1 and `die`; it panics when `die < 1`.
#[verifier::external_body]
pub(crate) fn rng_roll_dice(rng: &mut rltk::RandomNumberGenerator, n: i32, die: i32) -> (r: i32)
    requires
        1 <= n,
        1 <= die,
        die < i32::MAX,
        n * die <= i32::MAX,
    ensures
        n <= r <= n * die,
{
    rng.roll_dice(n, die)
}

} // verus!
