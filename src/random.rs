use rand::distributions::{Distribution, WeightedIndex};
use rand::Rng;
use vstd::prelude::*;

verus! {

/// Relies on `rand::random::<bool>`: a fair coin. Nothing is known of the outcome.
#[verifier::external_body]
pub(crate) fn random_coin() -> (r: bool) {
    rand::random::<bool>()
}

/// Relies on `rand::Rng::gen_range` over an inclusive range of the thread-local
/// generator: the value lies in `lo..=hi`; the range must not be empty.
#[verifier::external_body]
pub(crate) fn random_between(lo: u32, hi: u32) -> (r: u32)
    requires
        lo <= hi,
    ensures
        lo <= r <= hi,
{
    rand::thread_rng().gen_range(lo..=hi)
}

/// The total of a weight sequence.
pub open spec fn weight_sum(weights: Seq<u32>) -> int
    decreases weights.len(),
{
    if weights.len() == 0 {
        0
    } else {
        weight_sum(weights.drop_last()) + weights.last()
    }
}

/// Relies on `rand::distributions::WeightedIndex`: `new` accepts a non-empty
/// list with a positive total (the running total is a `u32` and must not
/// overflow), and `sample` returns an index whose weight is positive, chosen
/// with probability proportional to its weight.
#[verifier::external_body]
pub(crate) fn weighted_index(weights: &Vec<u32>) -> (r: usize)
    requires
        weights.len() > 0,
        0 < weight_sum(weights@) <= u32::MAX,
    ensures
        r < weights.len(),
        weights[r as int] > 0,
{
    let dist = WeightedIndex::new(weights.iter().copied()).unwrap();
    dist.sample(&mut rand::thread_rng())
}

} // verus!
