//! The random source of the game.

use vstd::prelude::*;

verus! {

/// Draws a `usize` with `rand::random`, which samples the thread's generator.
/// Nothing is claimed of the value: any `usize` may come back.
#[verifier::external_body]
pub(crate) fn random_usize() -> (r: usize) {
    rand::random::<usize>()
}

/// Flips a coin with `rand::random`, which samples the thread's generator.
/// Nothing is claimed of the value: either side may come up.
#[verifier::external_body]
pub(crate) fn random_bool() -> (b: bool) {
    rand::random::<bool>()
}

} // verus!
