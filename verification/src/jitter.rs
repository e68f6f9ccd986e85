//! The random part of a wait.

use rand::Rng;
use vstd::prelude::*;

verus! {

/// Draws a number of nanoseconds between 0 and `bound`, both included, from
/// the calling thread's generator: `rand::thread_rng` and then
/// `Rng::gen_range` over `0..=bound`. The draw is uniform, which no contract
/// can say; what is stated, and believed without proof, is the one thing that
/// holds of every draw: it does not exceed `bound`.
#[verifier::external_body]
pub(crate) fn sample_up_to(bound: u128) -> (drawn: u128)
    ensures
        drawn <= bound,
{
    rand::thread_rng().gen_range(0..=bound)
}

} // verus!
