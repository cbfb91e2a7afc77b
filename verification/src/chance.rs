//! The one source of chance in the engine.

use rand::Rng;
use vstd::prelude::*;

verus! {

/// Draws `true` with `numerator` chances in `denominator`: calls
/// `random_ratio` of `rand::Rng` on the thread's generator, `rand::rng()`.
/// That call panics on a denominator of zero and on a numerator above the
/// denominator, which the precondition leaves out. Trusted, and nothing is
/// claimed of the result: two draws may differ, and either value may come
/// up.
#[verifier::external_body]
pub(crate) fn random_ratio(numerator: u32, denominator: u32) -> (drawn: bool)
    requires
        0 < denominator,
        numerator <= denominator,
{
    rand::rng().random_ratio(numerator, denominator)
}

} // verus!
