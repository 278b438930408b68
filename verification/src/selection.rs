//! Choosing parents by rank. The best painting has rank 0; rank `i` is
//! chosen with a weight of `1 / (i + bias)`, so a greater bias makes the
//! ranks more alike.

use crate::error::EngineError;
use crate::random::distribution_weights;
use crate::random::IndexDistribution;
use crate::random::sample_index;
use crate::random::total_weight;
use crate::random::weighted_index;
use rand::rngs::StdRng;
use vstd::arithmetic::div_mod::lemma_div_is_ordered_by_denominator;
use vstd::arithmetic::div_mod::lemma_div_non_zero;
use vstd::arithmetic::div_mod::lemma_div_nonincreasing;
use vstd::prelude::*;

verus! {

/// The weight of one, in the fixed point that the weights are counted in:
/// a weight is a whole number of units of 2^-32, rounded down.
pub const WEIGHT_ONE: u64 = 0x1_0000_0000;

/// The weight of a rank.
pub open spec fn rank_weight(rank: nat, bias: nat) -> nat {
    0x1_0000_0000nat / (rank + bias)
}

/// The weights of the ranks of a population of `size` paintings, the best
/// rank first.
pub open spec fn weights_of_ranks(size: nat, bias: nat) -> Seq<u64> {
    Seq::new(size, |i: int| rank_weight(i as nat, bias) as u64)
}

/// A better rank never weighs less than a worse one, so the best painting
/// weighs most. A rank weighs nothing only where rank and bias together go
/// beyond 2^32.
pub proof fn lemma_rank_weight_falls(better: nat, worse: nat, bias: nat)
    requires
        better <= worse,
        1 <= bias,
    ensures
        rank_weight(better, bias) >= rank_weight(worse, bias),
        rank_weight(0, bias) >= rank_weight(worse, bias),
        rank_weight(better, bias) <= WEIGHT_ONE,
        better + bias <= WEIGHT_ONE ==> rank_weight(better, bias) >= 1,
{
    lemma_div_is_ordered_by_denominator(0x1_0000_0000, (better + bias) as int, (worse + bias) as int);
    lemma_div_is_ordered_by_denominator(0x1_0000_0000, bias as int, (worse + bias) as int);
    lemma_div_nonincreasing(0x1_0000_0000, (better + bias) as int);
    if better + bias <= WEIGHT_ONE {
        lemma_div_non_zero(0x1_0000_0000, (better + bias) as int);
    }
}

/// The sum of weights lies between each single weight and their number
/// times a bound on all of them.
pub proof fn lemma_total_weight(weights: Seq<u64>, bound: nat)
    requires
        forall|i: int| 0 <= i < weights.len() ==> #[trigger] weights[i] <= bound,
    ensures
        total_weight(weights) <= weights.len() * bound,
        forall|i: int| 0 <= i < weights.len() ==> total_weight(weights) >= #[trigger] weights[i],
    decreases weights.len(),
{
    if weights.len() > 0 {
        let head = weights.drop_last();
        lemma_total_weight(head, bound);
        assert(weights.len() * bound == head.len() * bound + bound) by (nonlinear_arith)
            requires
                weights.len() == head.len() + 1,
        ;
        assert forall|i: int| 0 <= i < weights.len() implies total_weight(weights)
            >= #[trigger] weights[i] by {
            if i < head.len() {
                assert(head[i] == weights[i]);
            }
        }
    }
}

/// The weights of the ranks of a population.
pub fn rank_weights(population_size: u32, bias: u32) -> (weights: Vec<u64>)
    requires
        1 <= bias,
    ensures
        weights@.len() == population_size,
        forall|i: int|
            0 <= i < population_size ==> #[trigger] weights@[i] == rank_weight(i as nat, bias as nat),
        forall|i: int, j: int| 0 <= i <= j < population_size ==> weights@[i] >= weights@[j],
        total_weight(weights@) <= u64::MAX,
        population_size >= 1 ==> total_weight(weights@) >= 1,
{
    let mut weights: Vec<u64> = Vec::new();
    let mut rank: u32 = 0;
    while rank < population_size
        invariant
            rank <= population_size,
            1 <= bias,
            weights@.len() == rank,
            forall|i: int|
                0 <= i < rank ==> #[trigger] weights@[i] == rank_weight(i as nat, bias as nat),
        decreases population_size - rank,
    {
        proof {
            lemma_rank_weight_falls(rank as nat, rank as nat, bias as nat);
        }
        weights.push(WEIGHT_ONE / (rank as u64 + bias as u64));
        rank += 1;
    }
    proof {
        assert forall|i: int| 0 <= i < weights@.len() implies #[trigger] weights@[i]
            <= 0x1_0000_0000nat by {
            lemma_rank_weight_falls(i as nat, i as nat, bias as nat);
        }
        lemma_total_weight(weights@, 0x1_0000_0000nat);
        assert(weights@.len() * 0x1_0000_0000nat <= u64::MAX) by (nonlinear_arith)
            requires
                weights@.len() <= 0xFFFF_FFFF,
        ;
        assert forall|i: int, j: int| 0 <= i <= j < population_size implies weights@[i]
            >= weights@[j] by {
            lemma_rank_weight_falls(i as nat, j as nat, bias as nat);
        }
        if population_size >= 1 {
            lemma_rank_weight_falls(0, 0, bias as nat);
            assert(weights@[0] >= 1);
        }
    }
    weights
}

/// Chooses ranks of a population.
pub struct Selector {
    distribution: IndexDistribution,
}

impl Selector {
    /// The weights of the ranks that are chosen from.
    pub closed spec fn weights(&self) -> Seq<u64> {
        distribution_weights(self.distribution)
    }

    /// A selector for a population of `population_size` paintings. There is
    /// none for a population of nobody, nor for a bias of zero, under which
    /// the best rank would have no weight.
    pub fn new(population_size: u32, bias: u32) -> (r: Result<Selector, EngineError>)
        ensures
            r is Ok <==> population_size >= 1 && bias >= 1,
            r is Err ==> r matches Err(EngineError::InvalidConfiguration),
            r matches Ok(s) ==> s.weights() == weights_of_ranks(
                population_size as nat,
                bias as nat,
            ) && s.weights().len() == population_size && forall|i: int|
                0 <= i < population_size ==> #[trigger] s.weights()[i] == rank_weight(
                    i as nat,
                    bias as nat,
                ),
    {
        if population_size == 0 || bias == 0 {
            return Err(EngineError::InvalidConfiguration);
        }
        let weights = rank_weights(population_size, bias);
        assert(weights@ =~= weights_of_ranks(population_size as nat, bias as nat));
        match weighted_index(&weights) {
            Ok(distribution) => Ok(Selector { distribution }),
            Err(_) => Err(EngineError::InvalidConfiguration),
        }
    }

    /// Draws a rank. A rank without weight is never drawn.
    pub fn pick(&self, rng: &mut StdRng) -> (rank: usize)
        ensures
            rank < self.weights().len(),
            self.weights()[rank as int] > 0,
    {
        sample_index(&self.distribution, rng)
    }
}

} // verus!
