//! The pseudo-random number generator of macroquad (`macroquad::rand`, a
//! re-export of `quad_rand`), whose global state seeds and draws the boards.
use vstd::prelude::*;

verus! {

/// Seeds macroquad's global generator: calls `macroquad::rand::srand`.
/// Nothing is claimed: the call only changes the generator's hidden state.
#[verifier::external_body]
pub(crate) fn srand(seed: u64) {
    macroquad::rand::srand(seed)
}

/// Draws a number from macroquad's global generator: calls
/// `macroquad::rand::gen_range` on `u64`.
/// Claimed: the result lies in `low .. high`. The source computes
/// `low + (high - low) * (r / 2^32)` in `f64` for a 32-bit draw `r` and
/// truncates; below 2^20 every step of that is exact, so the result is at
/// least `low` and below `high`. Which number comes out depends on the
/// generator's state and is not stated.
#[verifier::external_body]
pub(crate) fn gen_range(low: u64, high: u64) -> (r: u64)
    requires
        low < high,
        high <= 0x10_0000,
    ensures
        low <= r < high,
{
    macroquad::rand::gen_range(low, high)
}

} // verus!
