//! The source of chance for laying mines: the `rand` crate's generator
//! for the current thread. Nothing here is proved; each item states what
//! this crate takes on trust from `rand`.

use rand::Rng;
use vstd::prelude::*;

verus! {

/// `rand::ThreadRng`, the handle to the current thread's generator. Its
/// content is of no concern here: a value is only handed on to
/// `random_in_range`.
#[verifier::external_type_specification]
#[verifier::external_body]
pub struct ExThreadRng(rand::ThreadRng);

/// `rand::thread_rng` hands out the generator of the current thread.
/// Nothing is claimed of it. (It gives up with a panic where the system
/// has no source of entropy at all.)
pub assume_specification[ rand::thread_rng ]() -> (rng: rand::ThreadRng);

/// Draws a number with `Rng::gen_range(low, high)`.
///
/// `gen_range` panics unless `low < high`, hence the demand. For
/// integers it samples from `[low, high)`: the result is `low` plus a
/// remainder modulo `high - low`. Which number of the range comes out
/// is left open, so two calls may differ.
#[verifier::external_body]
pub(crate) fn random_in_range(rng: &mut rand::ThreadRng, low: usize, high: usize) -> (r: usize)
    requires
        low < high,
    ensures
        low <= r < high,
{
    rng.gen_range(low, high)
}

} // verus!
