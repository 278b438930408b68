//! Where the strokes of a new painting start. Most seeds are drawn by
//! importance, so that important regions get most strokes and a pixel
//! without importance gets none; the rest is drawn evenly over all pixels,
//! so that no region stays bare.

use crate::error::EngineError;
use crate::guidance::GuidanceFields;
use crate::random::distribution_weights;
use crate::random::IndexDistribution;
use crate::random::sample_index;
use crate::random::total_weight;
use crate::random::weighted_index;
use crate::selection::lemma_total_weight;
use rand::rngs::StdRng;
use vstd::prelude::*;

verus! {

/// Of a hundred seeds, so many are drawn by importance.
pub const BY_IMPORTANCE_PERCENT: u64 = 95;

/// Fields of more pixels than this cannot be sampled: their importances
/// might not add up in 64 bits.
pub const PIXELS_MAX: u64 = 0xFFFF_FFFF_FFFF_FFFF / 255;

/// How many of `stroke_num` seeds are drawn by importance: 95 in a hundred,
/// rounded down.
pub open spec fn by_importance_count(stroke_num: nat) -> nat {
    stroke_num * 95 / 100
}

/// How many of `stroke_num` seeds are drawn by importance, and how many
/// evenly.
pub fn seed_counts(stroke_num: u32) -> (counts: (u32, u32))
    ensures
        counts.0 == by_importance_count(stroke_num as nat),
        counts.0 + counts.1 == stroke_num,
{
    let by_importance: u64 = stroke_num as u64 * BY_IMPORTANCE_PERCENT / 100;
    (by_importance as u32, stroke_num - by_importance as u32)
}

/// Some pixel has importance.
pub open spec fn has_importance(importance: Seq<u8>) -> bool {
    exists|i: int| 0 <= i < importance.len() && #[trigger] importance[i] > 0
}

/// Draws seed pixels for the fields it was made for.
pub struct SeedSampler {
    by_importance: IndexDistribution,
    evenly: IndexDistribution,
}

impl SeedSampler {
    /// The importance of each pixel that seeds are drawn from.
    pub closed spec fn importance(&self) -> Seq<u8> {
        Seq::new(
            distribution_weights(self.by_importance).len(),
            |i: int| distribution_weights(self.by_importance)[i] as u8,
        )
    }

    /// The weight of each pixel in the even share of the seeds.
    pub closed spec fn even_weights(&self) -> Seq<u64> {
        distribution_weights(self.evenly)
    }

    /// Both ways of drawing range over the same pixels, each weight of the
    /// one is an importance, and each weight of the other is one.
    #[verifier::type_invariant]
    spec fn inv(&self) -> bool {
        &&& distribution_weights(self.evenly).len() == distribution_weights(
            self.by_importance,
        ).len()
        &&& forall|i: int|
            0 <= i < distribution_weights(self.evenly).len() ==> #[trigger] distribution_weights(
                self.evenly,
            )[i] == 1
        &&& forall|i: int|
            0 <= i < distribution_weights(self.by_importance).len() ==> #[trigger] distribution_weights(
                self.by_importance,
            )[i] <= 255
    }

    /// A sampler of the pixels of `fields`: in the share of the seeds that
    /// goes by importance a pixel weighs what its importance is, in the even
    /// share every pixel weighs one. There is no sampler where no pixel has
    /// any importance (`DegenerateSampling`), nor where the fields have more
    /// than `PIXELS_MAX` pixels (`InvalidConfiguration`).
    pub fn new(fields: &GuidanceFields) -> (r: Result<SeedSampler, EngineError>)
        ensures
            fields@.size() > PIXELS_MAX ==> r matches Err(EngineError::InvalidConfiguration),
            fields@.size() <= PIXELS_MAX && !has_importance(fields@.importance) ==> r matches Err(
                EngineError::DegenerateSampling,
            ),
            fields@.size() <= PIXELS_MAX && has_importance(fields@.importance) ==> r is Ok,
            r matches Ok(s) ==> s.importance() == fields@.importance && s.even_weights()
                == Seq::new(fields@.size() as nat, |i: int| 1u64),
    {
        let n = fields.len();
        if n as u64 > PIXELS_MAX {
            return Err(EngineError::InvalidConfiguration);
        }
        let mut weights: Vec<u64> = Vec::new();
        let mut ones: Vec<u64> = Vec::new();
        let mut i: usize = 0;
        while i < n
            invariant
                i <= n,
                n == fields@.size(),
                fields@.wf(),
                weights@.len() == i,
                ones@.len() == i,
                forall|k: int| 0 <= k < i ==> #[trigger] weights@[k] == fields@.importance[k],
                forall|k: int| 0 <= k < i ==> #[trigger] ones@[k] == 1,
            decreases n - i,
        {
            let w = match fields.importance(i) {
                Some(w) => w,
                None => {
                    return Err(EngineError::InvalidConfiguration);
                },
            };
            weights.push(w as u64);
            ones.push(1);
            i += 1;
        }
        proof {
            lemma_total_weight(weights@, 255);
            lemma_total_weight(ones@, 1);
            assert(weights@.len() * 255 <= u64::MAX) by (nonlinear_arith)
                requires
                    weights@.len() <= 0xFFFF_FFFF_FFFF_FFFFint / 255,
            ;
            if has_importance(fields@.importance) {
                let k = choose|k: int|
                    0 <= k < fields@.importance.len() && #[trigger] fields@.importance[k] > 0;
                assert(weights@[k] > 0);
                assert(ones@[k] == 1);
            } else {
                lemma_no_weight(weights@);
            }
        }
        let by_importance = match weighted_index(&weights) {
            Ok(d) => d,
            Err(_) => {
                return Err(EngineError::DegenerateSampling);
            },
        };
        let evenly = match weighted_index(&ones) {
            Ok(d) => d,
            Err(_) => {
                return Err(EngineError::DegenerateSampling);
            },
        };
        let sampler = SeedSampler { by_importance, evenly };
        assert(sampler.importance() =~= fields@.importance);
        assert(sampler.even_weights() =~= Seq::new(fields@.size() as nat, |i: int| 1u64));
        Ok(sampler)
    }

    /// Draws the seeds of a painting of `stroke_num` strokes: first those
    /// that are drawn by importance, then those that are drawn evenly. Every
    /// seed is a pixel of the fields, and one drawn by importance has some.
    pub fn sample(&self, stroke_num: u32, rng: &mut StdRng) -> (seeds: Vec<usize>)
        ensures
            seeds@.len() == stroke_num,
            self.even_weights() == Seq::new(self.importance().len(), |i: int| 1u64),
            forall|k: int| 0 <= k < stroke_num ==> #[trigger] seeds@[k] < self.importance().len(),
            forall|k: int|
                0 <= k < by_importance_count(stroke_num as nat) ==> self.importance()[#[trigger] seeds@[k] as int]
                    > 0,
    {
        proof {
            use_type_invariant(self);
            assert(self.even_weights() =~= Seq::new(self.importance().len(), |i: int| 1u64));
        }
        let (weighted, uniform) = seed_counts(stroke_num);
        let mut seeds: Vec<usize> = Vec::new();
        let mut k: u32 = 0;
        while k < weighted
            invariant
                k <= weighted,
                self.inv(),
                seeds@.len() == k,
                forall|j: int| 0 <= j < k ==> #[trigger] seeds@[j] < self.importance().len(),
                forall|j: int| 0 <= j < k ==> self.importance()[#[trigger] seeds@[j] as int] > 0,
            decreases weighted - k,
        {
            seeds.push(sample_index(&self.by_importance, rng));
            k += 1;
        }
        let mut k: u32 = 0;
        while k < uniform
            invariant
                k <= uniform,
                weighted + uniform == stroke_num,
                self.inv(),
                seeds@.len() == weighted + k,
                forall|j: int| 0 <= j < weighted + k ==> #[trigger] seeds@[j] < self.importance().len(),
                forall|j: int|
                    0 <= j < weighted ==> self.importance()[#[trigger] seeds@[j] as int] > 0,
            decreases uniform - k,
        {
            seeds.push(sample_index(&self.evenly, rng));
            k += 1;
        }
        seeds
    }
}

proof fn lemma_no_weight(weights: Seq<u64>)
    requires
        forall|i: int| 0 <= i < weights.len() ==> #[trigger] weights[i] == 0,
    ensures
        total_weight(weights) == 0,
    decreases weights.len(),
{
    if weights.len() > 0 {
        lemma_no_weight(weights.drop_last());
    }
}

} // verus!
