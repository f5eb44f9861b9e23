//! The source of the thresholds of random dithering.

use vstd::prelude::*;
use rand::Rng;

verus! {

/// Draws 32 random bits from the thread's generator of the `rand` crate,
/// `rand::thread_rng().gen::<u32>()`. Nothing is claimed of the bits drawn.
#[verifier::external_body]
pub(crate) fn draw_word() -> (word: u32) {
    rand::thread_rng().gen::<u32>()
}

} // verus!
