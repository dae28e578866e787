//! The random draws of the game. All of them use the generator of the
//! thread, which the operating system seeds: nothing is claimed of which
//! outcome comes, only of what every outcome is like.

use vstd::prelude::*;
use rand::distributions::{IndependentSample, Weighted, WeightedChoice};
use rand::Rng;

verus! {

/// The sum of a list of weights.
pub open spec fn total_weight(weights: Seq<u32>) -> int
    decreases weights.len(),
{
    if weights.len() == 0 {
        0
    } else {
        total_weight(weights.drop_last()) + weights.last()
    }
}

/// Calls `Rng::gen_range` on the generator of `rand::thread_rng`. The
/// contract claims what the method documents for integers: the number lies
/// in `[low, high)`. The method panics unless `low < high`.
#[verifier::external_body]
pub(crate) fn random_in_range(low: i32, high: i32) -> (n: i32)
    requires
        low < high,
    ensures
        low <= n < high,
{
    rand::thread_rng().gen_range(low, high)
}

/// Calls `rand::random` for a `bool`. Nothing is claimed of the result.
#[verifier::external_body]
pub(crate) fn random_bool() -> (b: bool) {
    rand::random()
}

/// Calls `WeightedChoice::new` on the weights, each with its index as its
/// item, and `ind_sample` on the result, with the generator of
/// `rand::thread_rng`. The contract claims that the index of one of the
/// weights comes back, and that this weight is not zero: the sample picks
/// the first item whose running total exceeds a number drawn below the
/// sum. `new` panics when there is no item, when the sum is zero and when it
/// does not fit 32 bits.
#[verifier::external_body]
pub(crate) fn weighted_index(weights: &Vec<u32>) -> (index: usize)
    requires
        weights.len() > 0,
        0 < total_weight(weights@) <= u32::MAX,
    ensures
        index < weights.len(),
        weights[index as int] > 0,
{
    let mut items: Vec<Weighted<usize>> = Vec::new();
    for (item, weight) in weights.iter().enumerate() {
        items.push(Weighted { weight: *weight, item });
    }
    WeightedChoice::new(&mut items).ind_sample(&mut rand::thread_rng())
}

} // verus!
