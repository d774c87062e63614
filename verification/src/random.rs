//! Draws from the random number generator of the current thread.

use vstd::prelude::*;
use rand::Rng;

verus! {

/// Calls `rand::Rng::gen_range` with the range `low..high` on the generator
/// that `rand::thread_rng` hands out.
///
/// Trusted, not proved: the number drawn lies in the range. Which number it
/// is depends on chance, so nothing more is claimed. The empty range, on
/// which `gen_range` panics, is excluded.
#[verifier::external_body]
pub(crate) fn random_in_range(low: usize, high: usize) -> (drawn: usize)
    requires
        low < high,
    ensures
        low <= drawn < high,
{
    rand::thread_rng().gen_range(low..high)
}

/// Calls `rand::Rng::gen_ratio` on the generator that `rand::thread_rng`
/// hands out: a coin that shows `true` with a chance of `numerator` in
/// `denominator`.
///
/// Trusted, not proved: equal numbers always give `true`, and the numerator
/// zero always gives `false`. In between the outcome depends on chance, and
/// nothing is claimed of it. A zero denominator and a numerator above the
/// denominator, on which `gen_ratio` panics, are excluded.
#[verifier::external_body]
pub(crate) fn random_ratio(numerator: u32, denominator: u32) -> (hit: bool)
    requires
        denominator > 0,
        numerator <= denominator,
    ensures
        numerator == denominator ==> hit,
        numerator == 0 ==> !hit,
{
    rand::thread_rng().gen_ratio(numerator, denominator)
}

} // verus!
