//! The random draws of the search, taken from the thread-local generator of
//! the `rand` crate.
//!
//! Nothing here is proved: each contract states what `rand` documents of the
//! call, and that is all the rest of the library knows of a draw.

use rand::Rng;
use vstd::prelude::*;

verus! {

/// `rand::rngs::ThreadRng`, a handle to the generator of the current thread.
/// Its state is opaque here.
#[verifier::external_type_specification]
#[verifier::external_body]
pub struct ExThreadRng(rand::rngs::ThreadRng);

/// `rand::rng`: hands out the handle. Nothing is claimed of it.
pub assume_specification[ rand::rng ]() -> (generator: rand::rngs::ThreadRng)
;

/// `Rng::random_range` on a half-open range of `usize`: the range must not be
/// empty, and the value drawn lies in it.
#[verifier::external_body]
pub(crate) fn random_in(generator: &mut rand::rngs::ThreadRng, low: usize, high: usize) -> (drawn:
    usize)
    requires
        low < high,
    ensures
        low <= drawn < high,
{
    generator.random_range(low..high)
}

/// `Rng::random_ratio`: `true` with the chance `numerator / denominator`. The
/// denominator must not be zero nor smaller than the numerator; nothing is
/// claimed of the outcome.
#[verifier::external_body]
pub(crate) fn random_ratio(
    generator: &mut rand::rngs::ThreadRng,
    numerator: u32,
    denominator: u32,
) -> (drawn: bool)
    requires
        denominator > 0,
        numerator <= denominator,
{
    generator.random_ratio(numerator, denominator)
}

} // verus!
