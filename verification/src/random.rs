//! The one source of chance in the game.

use vstd::prelude::*;

verus! {

/// `quad_rand::gen_range` on `i32`, which scales the next number of the
/// global generator into the span from `low` to `high`. All that is known
/// of the result is that it lies in that span, both ends included.
#[verifier::external_body]
pub(crate) fn gen_range(low: i32, high: i32) -> (r: i32)
    ensures
        low <= high ==> low <= r <= high,
{
    quad_rand::gen_range(low, high)
}

} // verus!
