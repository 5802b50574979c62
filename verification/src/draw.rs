//! The library's one source of randomness.
//!
//! Selection logic is written against a draw handed in as a plain number,
//! so everything downstream of the draw is verified for every value the
//! generator could produce; nothing is promised about which value comes
//! back.

use vstd::prelude::*;

verus! {

/// Relies on rand::random_range: a uniform draw from the thread-local
/// generator, strictly below the given bound; the range `0..n` is
/// non-empty by the precondition, so the call cannot panic.
#[verifier::external_body]
pub(crate) fn draw_below(n: u128) -> (r: u128)
    requires
        n > 0,
    ensures
        r < n,
{
    rand::random_range(0..n)
}

/// A uniform index below `n`.
pub(crate) fn draw_index(n: usize) -> (r: usize)
    requires
        n > 0,
    ensures
        r < n,
{
    let d: u128 = draw_below(n as u128);
    d as usize
}

} // verus!
