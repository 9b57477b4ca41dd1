use vstd::prelude::*;

use rand::distributions::weighted::alias_method::WeightedIndex;
use rand::distributions::Distribution;
use rand::Rng;

verus! {

/// Uniform draw from the half-open range `[low, high)`.
///
/// Relies on rand's `Rng::gen_range` on the thread-local generator, which
/// panics when `low >= high` and otherwise returns a value of the range.
#[verifier::external_body]
pub(crate) fn rand_range(low: i32, high: i32) -> (r: i32)
    requires
        low < high,
    ensures
        low <= r < high,
{
    rand::thread_rng().gen_range(low, high)
}

/// A coin flip; nothing is promised of the outcome.
///
/// Relies on `rand::random`, which returns an arbitrary `bool`.
#[verifier::external_body]
pub(crate) fn rand_coin() -> (r: bool) {
    rand::random()
}

/// Draws an index with probability proportional to its weight.
///
/// Relies on rand's alias-method `WeightedIndex`: `new` accepts weights that
/// are nonnegative, at most `i32::MAX` divided by their number, and not all
/// zero; `sample` then returns the index of a positive weight.
#[verifier::external_body]
pub(crate) fn sample_weighted(weights: &Vec<i32>) -> (r: usize)
    requires
        0 < weights@.len() <= i32::MAX,
        forall|i: int|
            0 <= i < weights@.len() ==> 0 <= #[trigger] weights@[i] <= i32::MAX as int
                / weights@.len() as int,
        exists|i: int| 0 <= i < weights@.len() && weights@[i] > 0,
    ensures
        r < weights@.len(),
        weights@[r as int] > 0,
{
    let dist = WeightedIndex::new(weights.clone()).unwrap();
    dist.sample(&mut rand::thread_rng())
}

} // verus!
