//! The one source of chance: numbers drawn from the thread's generator.
use vstd::prelude::*;
use rand::Rng;

verus! {

/// Draws a number from `low..=high` with `rand::Rng::gen_range` on
/// `rand::thread_rng()`.
///
/// Trusted: the number lies within the bounds. Which number comes is left
/// open, so two draws with the same bounds may differ. An empty range, on
/// which `gen_range` panics, is kept out by the precondition.
#[verifier::external_body]
pub(crate) fn draw_between(low: u32, high: u32) -> (n: u32)
    requires
        low <= high,
    ensures
        low <= n <= high,
{
    rand::thread_rng().gen_range(low..=high)
}

} // verus!
