//! The one source of chance: uniform draws from the thread's generator.

use rand::rngs::ThreadRng;
use rand::Rng;
use vstd::prelude::*;

verus! {

/// The generator of `rand` that each thread has for itself. Nothing is known
/// of what it holds.
#[verifier::external_type_specification]
#[verifier::external_body]
pub struct ExThreadRng(rand::rngs::ThreadRng);

/// `rand::thread_rng` hands out the calling thread's generator. Trusted:
/// nothing is claimed of it. It panics when the system's source of
/// randomness cannot be read, which no argument decides.
pub assume_specification[ rand::thread_rng ]() -> (rng: ThreadRng)
;

/// Draws a number from `low..high` by `rand::Rng::gen_range`. Trusted, not
/// proved: the draw lies in the half-open range. `gen_range` panics on an
/// empty range, which the precondition rules out. Nothing else is claimed,
/// so two draws may differ.
#[verifier::external_body]
pub(crate) fn draw_in_range(rng: &mut ThreadRng, low: usize, high: usize) -> (n: usize)
    requires
        low < high,
    ensures
        low <= n < high,
{
    rng.gen_range(low..high)
}

} // verus!
