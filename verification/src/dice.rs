//! The random source: the generator of `rltk`, reached through three calls
//! whose contracts are taken on trust.

use vstd::prelude::*;

verus! {

/// `rltk::RandomNumberGenerator`, made known as a type whose inside stays
/// out of sight.
#[verifier::external_type_specification]
#[verifier::external_body]
pub struct ExRandomNumberGenerator(rltk::RandomNumberGenerator);

/// Calls `RandomNumberGenerator::new`, which seeds a generator from the
/// operating system. Nothing is claimed of the generator.
#[verifier::external_body]
pub(crate) fn fresh_rng() -> (rng: rltk::RandomNumberGenerator) {
    rltk::RandomNumberGenerator::new()
}

/// Calls `RandomNumberGenerator::range`, which draws from `min` up to, but
/// not including, `max`, and panics on an empty range. Only the bounds of
/// the value drawn are claimed.
#[verifier::external_body]
pub(crate) fn range(rng: &mut rltk::RandomNumberGenerator, min: i32, max: i32) -> (drawn: i32)
    requires
        min < max,
    ensures
        min <= drawn < max,
{
    rng.range(min, max)
}

/// Calls `RandomNumberGenerator::roll_dice`, which adds up `n` draws from
/// `1` to `die_type`, both included. Only the bounds of the sum are
/// claimed; the inputs on which a draw has an empty range, or on which the
/// sum can leave `i32`, are left out.
#[verifier::external_body]
pub(crate) fn roll_dice(rng: &mut rltk::RandomNumberGenerator, n: i32, die_type: i32) -> (sum: i32)
    requires
        0 <= n,
        1 <= die_type < i32::MAX,
        n * die_type <= i32::MAX,
    ensures
        n <= sum <= n * die_type,
{
    rng.roll_dice(n, die_type)
}

} // verus!
