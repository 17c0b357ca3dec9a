use vstd::prelude::*;

verus! {

/// The random number generator of `rltk`. Nothing of its state is visible here.
#[verifier::external_type_specification]
#[verifier::external_body]
pub struct ExRandomNumberGenerator(rltk::RandomNumberGenerator);

/// Calls `RandomNumberGenerator::range` on `i32`: a number drawn from
/// `min..max`, the lower end included and the upper end left out. The call
/// panics on an empty range, so `min < max` is asked for. Which number comes
/// out is not stated.
#[verifier::external_body]
pub(crate) fn range(rng: &mut rltk::RandomNumberGenerator, min: i32, max: i32) -> (r: i32)
    requires
        min < max,
    ensures
        min <= r < max,
{
    rng.range(min, max)
}

/// Calls `RandomNumberGenerator::roll_dice`: the sum of `n` throws of a die
/// with faces `1..=die_type`. The call panics on a die without faces or where
/// the sum leaves `i32`, so neither is allowed. Which sum comes out is not
/// stated.
#[verifier::external_body]
pub(crate) fn roll_dice(rng: &mut rltk::RandomNumberGenerator, n: i32, die_type: i32) -> (r: i32)
    requires
        0 <= n,
        1 <= die_type < i32::MAX,
        n * die_type <= i32::MAX,
    ensures
        n <= r <= n * die_type,
{
    rng.roll_dice(n, die_type)
}

} // verus!
