use rand::distributions::{Distribution, WeightedError, WeightedIndex};
use rand::rngs::StdRng;
use rand::Rng;
use vstd::prelude::*;

verus! {

/// rand's `StdRng`, the random source that every operator is handed.
#[verifier::external_type_specification]
#[verifier::external_body]
pub struct ExStdRng(StdRng);

/// rand's `WeightedError`, which says why no sampler was made.
#[verifier::external_type_specification]
#[verifier::external_body]
pub struct ExWeightedError(WeightedError);

/// rand's `WeightedIndex` over 128-bit weights: draws an index with a chance in
/// proportion to its weight. Its own declaration is bounded by a trait of rand, so
/// it is held in a field that Verus does not look into.
#[verifier::external_body]
pub struct WeightedSampler {
    inner: WeightedIndex<u128>,
}

/// The weights that a sampler was made from, in their order.
pub uninterp spec fn sampler_weights(sampler: WeightedSampler) -> Seq<u128>;

/// The sum of the weights.
pub open spec fn total_weight(weights: Seq<u128>) -> nat
    decreases weights.len(),
{
    if weights.len() == 0 {
        0
    } else {
        total_weight(weights.drop_last()) + weights.last() as nat
    }
}

/// Some weight is positive.
pub open spec fn has_positive(weights: Seq<u128>) -> bool {
    exists|i: int| 0 <= i < weights.len() && #[trigger] weights[i] > 0
}

/// `WeightedIndex::new`: a sampler over the weights, or an error where there is no
/// weight or none is positive. The call sums the weights, so the sum has to fit.
#[verifier::external_body]
pub(crate) fn weighted_sampler(weights: &Vec<u128>) -> (r: Result<WeightedSampler, WeightedError>)
    requires
        total_weight(weights@) <= u128::MAX,
    ensures
        r is Ok <==> has_positive(weights@),
        r matches Ok(sampler) ==> sampler_weights(sampler) == weights@,
{
    WeightedIndex::new(weights).map(|inner| WeightedSampler { inner })
}

/// `WeightedIndex::sample`: the index of one of the weights, never of a weight that
/// is zero.
#[verifier::external_body]
pub(crate) fn sample_index(sampler: &WeightedSampler, rng: &mut StdRng) -> (index: usize)
    ensures
        index < sampler_weights(*sampler).len(),
        sampler_weights(*sampler)[index as int] > 0,
{
    sampler.inner.sample(rng)
}

/// `Rng::gen_range` on `0..bound`: some index below `bound`. The call panics on an
/// empty range.
#[verifier::external_body]
pub(crate) fn draw_below(rng: &mut StdRng, bound: usize) -> (drawn: usize)
    requires
        bound > 0,
    ensures
        drawn < bound,
{
    rng.gen_range(0..bound)
}

/// `Rng::gen_ratio`: true with a chance of `numerator` in `denominator`; always true
/// where the two are equal, never true where `numerator` is 0. The call panics
/// unless `numerator <= denominator` and `denominator > 0`.
#[verifier::external_body]
pub(crate) fn draw_ratio(rng: &mut StdRng, numerator: u32, denominator: u32) -> (hit: bool)
    requires
        denominator > 0,
        numerator <= denominator,
    ensures
        numerator == denominator ==> hit,
        numerator == 0 ==> !hit,
{
    rng.gen_ratio(numerator, denominator)
}

/// Weights that are all at most `bound` sum to at most `bound` times their number.
pub proof fn lemma_total_weight_bounded(weights: Seq<u128>, bound: nat)
    requires
        forall|i: int| 0 <= i < weights.len() ==> #[trigger] weights[i] <= bound,
    ensures
        total_weight(weights) <= bound * weights.len(),
    decreases weights.len(),
{
    if weights.len() > 0 {
        let front = weights.drop_last();
        lemma_total_weight_bounded(front, bound);
        assert(bound * front.len() + bound == bound * weights.len()) by (nonlinear_arith)
            requires
                front.len() + 1 == weights.len(),
        ;
    }
}

} // verus!
