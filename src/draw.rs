//! Random draws, taken from rand's standard generator.

use vstd::prelude::*;

verus! {

/// rand's `StdRng`, carried through the library without looking inside.
#[verifier::external_type_specification]
#[verifier::external_body]
pub struct ExStdRng(rand::rngs::StdRng);

/// Relies on rand's `Rng::random_range` on a half-open range: for a range that
/// is not empty it returns a value `low <= r < high` (and panics on an empty
/// one, which `requires` rules out).
#[verifier::external_body]
pub(crate) fn draw_below(rng: &mut rand::rngs::StdRng, bound: u32) -> (r: u32)
    requires
        bound > 0,
    ensures
        r < bound,
{
    rand::Rng::random_range(rng, 0..bound)
}

} // verus!
