//! The one source of chance in the game.

use vstd::prelude::*;

verus! {

/// Draws a number from the thread's random generator with
/// `rand::Rng::gen_range` over `0..n`. The generator returns a value inside
/// the range it is given, and refuses an empty range, hence `n > 0`. Which
/// value comes back is not stated: two draws may differ.
#[verifier::external_body]
pub(crate) fn random_below(n: u32) -> (r: u32)
    requires
        n > 0,
    ensures
        r < n,
{
    rand::Rng::gen_range(&mut rand::thread_rng(), 0..n)
}

} // verus!
