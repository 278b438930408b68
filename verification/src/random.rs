//! Random draws. Everything here that touches the `rand` crate is trusted.

use rand::distributions::Distribution;
use rand::distributions::WeightedError;
use rand::distributions::WeightedIndex;
use rand::Rng;
use rand::rngs::StdRng;
use rand::seq::SliceRandom;
use vstd::prelude::*;

verus! {

/// The generator of the `rand` crate that the engine draws from.
#[verifier::external_type_specification]
#[verifier::external_body]
pub struct ExStdRng(StdRng);

/// The failure that `rand` reports when a weighted distribution cannot be built.
#[verifier::external_type_specification]
#[verifier::external_body]
pub struct ExWeightedError(WeightedError);

/// A weighted distribution over indices: a `WeightedIndex` of the `rand` crate.
#[verifier::external_body]
pub struct IndexDistribution {
    inner: WeightedIndex<u64>,
}

/// The weights that a distribution was built from.
pub uninterp spec fn distribution_weights(d: IndexDistribution) -> Seq<u64>;

/// The sum of some weights.
pub open spec fn total_weight(weights: Seq<u64>) -> nat
    decreases weights.len(),
{
    if weights.len() == 0 {
        0
    } else {
        total_weight(weights.drop_last()) + weights.last() as nat
    }
}

/// `WeightedIndex::new` of the `rand` crate, on `u64` weights. The crate adds
/// the weights up, so their sum must fit; it then refuses weights that are
/// empty or all zero, and keeps any others.
#[verifier::external_body]
pub(crate) fn weighted_index(weights: &Vec<u64>) -> (r: Result<IndexDistribution, WeightedError>)
    requires
        total_weight(weights@) <= u64::MAX,
    ensures
        r is Ok <==> total_weight(weights@) > 0,
        r matches Ok(d) ==> distribution_weights(d) == weights@,
{
    match WeightedIndex::new(weights) {
        Ok(inner) => Ok(IndexDistribution { inner }),
        Err(e) => Err(e),
    }
}

/// `WeightedIndex::sample` of the `rand` crate: an index into the weights,
/// and never one of weight zero. (The chance of an index is its share of the
/// sum of the weights; that is not stated here.)
#[verifier::external_body]
pub(crate) fn sample_index(d: &IndexDistribution, rng: &mut StdRng) -> (i: usize)
    ensures
        i < distribution_weights(*d).len(),
        distribution_weights(*d)[i as int] > 0,
{
    d.inner.sample(rng)
}

/// `Rng::gen_ratio` of the `rand` crate: `true` with a chance of `numerator`
/// in `denominator`; never where the numerator is zero, always where it is
/// the denominator. The crate panics unless the ratio is a probability.
#[verifier::external_body]
pub(crate) fn bernoulli(rng: &mut StdRng, numerator: u32, denominator: u32) -> (hit: bool)
    requires
        numerator <= denominator,
        denominator > 0,
    ensures
        numerator == 0 ==> !hit,
        numerator == denominator ==> hit,
{
    rng.gen_ratio(numerator, denominator)
}

/// `SliceRandom::shuffle` of the `rand` crate: the same marks, in a random
/// order.
#[verifier::external_body]
pub(crate) fn shuffle(mask: &mut Vec<bool>, rng: &mut StdRng)
    ensures
        final(mask)@.to_multiset() == old(mask)@.to_multiset(),
{
    mask.shuffle(rng)
}

} // verus!
