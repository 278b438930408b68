//! The evolution of a population of paintings, as a machine that is driven
//! from outside.
//!
//! The machine decides; its driver does what the machine cannot do itself:
//! it builds random paintings and it renders and scores paintings. In each
//! phase the machine waits for one thing. The driver builds as many
//! paintings as are `wanted` and hands them over, or it scores the paintings
//! that are `pending` and hands the scores over, and the machine moves on:
//!
//! ```text
//! Initializing -populate-> Evaluating -submit-> Selecting
//! Selecting -breed-> ScoringOffspring -submit-> Selecting, or Remutating
//! Remutating -remutate-> ScoringMutants -submit-> Selecting
//! ```
//!
//! Where `Selecting` would follow the last generation, `Terminating` follows
//! instead: all paintings are scored once more, and the machine is
//! `Finished`.

use crate::error::EngineError;
use crate::individual::Individual;
use crate::population::admitted;
use crate::population::lemma_merged;
use crate::population::lemma_place_in_range;
use crate::population::members;
use crate::population::merge;
use crate::population::merged;
use crate::population::paintings;
use crate::population::paired;
use crate::population::place;
use crate::population::ranked;
use crate::population::Scored;
use crate::population::ScoredView;
use crate::population::survivors;
use crate::recombine::crossed;
use crate::recombine::crossover;
use crate::recombine::crossover_mask;
use crate::recombine::marked;
use crate::recombine::mutate;
use crate::recombine::Probability;
use crate::recombine::shuffle_mask;
use crate::selection::rank_weight;
use crate::selection::weights_of_ranks;
use crate::selection::Selector;
use crate::stagnation::Stagnation;
use crate::stroke::StrokeView;
use rand::rngs::StdRng;
use vstd::prelude::*;

verus! {

/// What the machine waits for.
#[derive(Clone, Copy, Debug, PartialEq, Eq, Structural)]
pub enum Phase {
    /// For the random paintings of the first population.
    Initializing,
    /// For the scores of the first population.
    Evaluating,
    /// For the call to breed the next generation.
    Selecting,
    /// For the scores of the offspring.
    ScoringOffspring,
    /// For the random paintings that the best painting is mutated with.
    Remutating,
    /// For the scores of the mutants.
    ScoringMutants,
    /// For the scores of the last scoring of all paintings.
    Terminating,
    /// For nothing: the best painting is final.
    Finished,
    /// For nothing: the driver has reported a failure.
    Failed,
}

/// The parameters of a run.
#[derive(Clone, Copy, Debug)]
pub struct Config {
    /// How many strokes a painting has.
    pub stroke_num: u32,
    /// How many paintings a population has.
    pub population_size: u32,
    /// How many generations are bred.
    pub generation: usize,
    /// The bias of the choice of parents: rank `i` weighs `1 / (i + bias)`.
    pub crossover_bias: u32,
    /// The chance of each stroke to be replaced when the best painting is
    /// mutated.
    pub mutation: Probability,
    /// For how many generations the best painting may stay the same.
    pub stagnation_limit: u32,
    /// For how many generations it may stay the same after a mutation.
    pub stagnation_recovery: u32,
}

/// The bias of the choice of parents in a standard run.
pub const CROSSOVER_BIAS: u32 = 50;

/// The chance of a stroke to be replaced in a standard run, in percent.
pub const MUTATION_PERCENT: u32 = 35;

/// The countdown of stagnation that a standard run starts with.
pub const STAGNATION_LIMIT: u32 = 50;

impl Config {
    /// A run can be made with these parameters: a population has somebody
    /// in it, the best rank has a weight, and the countdown after a
    /// mutation is not longer than the first one.
    pub open spec fn valid(self) -> bool {
        &&& self.population_size >= 1
        &&& self.crossover_bias >= 1
        &&& self.stagnation_recovery <= self.stagnation_limit
    }

    /// The parameters of a standard run: parents are chosen with a bias of
    /// `CROSSOVER_BIAS`, a stroke is replaced with a chance of
    /// `MUTATION_PERCENT` in a hundred, the countdown of stagnation starts
    /// at `stagnation_limit`, and after a mutation at half of that.
    pub fn standard(
        stroke_num: u32,
        population_size: u32,
        generation: usize,
        stagnation_limit: u32,
    ) -> (c: Config)
        ensures
            c.stroke_num == stroke_num,
            c.population_size == population_size,
            c.generation == generation,
            c.crossover_bias == CROSSOVER_BIAS,
            c.mutation.numerator() == MUTATION_PERCENT,
            c.mutation.denominator() == 100,
            c.stagnation_limit == stagnation_limit,
            c.stagnation_recovery == stagnation_limit / 2,
            c.valid() <==> population_size >= 1,
    {
        Config {
            stroke_num,
            population_size,
            generation,
            crossover_bias: CROSSOVER_BIAS,
            mutation: Probability::percent(MUTATION_PERCENT),
            stagnation_limit,
            stagnation_recovery: stagnation_limit / 2,
        }
    }
}

/// What the machine holds.
pub struct EvolutionView {
    pub config: Config,
    pub phase: Phase,
    /// The population, the best first.
    pub population: Seq<ScoredView>,
    /// The paintings whose scores are waited for.
    pub pending: Seq<Seq<StrokeView>>,
    /// How many generations have been bred and merged.
    pub generation: nat,
    pub stagnation: Stagnation,
    /// The best painting when stagnation was last checked.
    pub last_top: Seq<StrokeView>,
    /// The weights that parents are chosen with, the weight of the best
    /// rank first.
    pub parent_weights: Seq<u64>,
}

/// Every painting has `stroke_num` strokes.
pub open spec fn all_of_size(paintings: Seq<Seq<StrokeView>>, stroke_num: nat) -> bool {
    forall|i: int| 0 <= i < paintings.len() ==> (#[trigger] paintings[i]).len() == stroke_num
}

/// The paintings of a population, without their scores.
pub open spec fn strokes_of(population: Seq<ScoredView>) -> Seq<Seq<StrokeView>> {
    Seq::new(population.len(), |i: int| population[i].strokes)
}

/// Two children were bred from the population: two parents were chosen,
/// each of a rank that has a weight under the bias, and the children are
/// what a crossover makes of them, under a mask that marks half of the
/// places (rounded down). The second child may be missing.
pub open spec fn bred_pair(
    population: Seq<ScoredView>,
    first: Seq<StrokeView>,
    second: Option<Seq<StrokeView>>,
    stroke_num: nat,
    bias: nat,
) -> bool {
    exists|a: int, b: int, mask: Seq<bool>|
        0 <= a < population.len() && 0 <= b < population.len() && rank_weight(a as nat, bias) > 0
            && rank_weight(b as nat, bias) > 0 && mask.len() == stroke_num && marked(mask)
            == stroke_num / 2 && first == #[trigger] crossed(
            population[a].strokes,
            population[b].strokes,
            mask,
        ) && (second matches Some(s) ==> s == crossed(
            population[b].strokes,
            population[a].strokes,
            mask,
        ))
}

/// The offspring was bred from the population, pair by pair; where their
/// number is odd, the last child has no sibling.
pub open spec fn bred(
    population: Seq<ScoredView>,
    offspring: Seq<Seq<StrokeView>>,
    stroke_num: nat,
    bias: nat,
) -> bool {
    forall|k: int|
        0 <= k < offspring.len() && k % 2 == 0 ==> bred_pair(
            population,
            #[trigger] offspring[k],
            if k + 1 < offspring.len() {
                Some(offspring[k + 1])
            } else {
                None
            },
            stroke_num,
            bias,
        )
}

/// The mutant is the best painting with some of its strokes replaced by those
/// that the fresh painting has in the same places.
pub open spec fn mutant_of(
    best: Seq<StrokeView>,
    fresh: Seq<StrokeView>,
    mutant: Seq<StrokeView>,
) -> bool {
    exists|hits: Seq<bool>| hits.len() == best.len() && mutant == #[trigger] crossed(best, fresh, hits)
}

/// Each mutant is the best painting with some of its strokes replaced by
/// those that a fresh painting has in the same places; with a chance of zero
/// no stroke is replaced, with a chance of one every stroke is.
pub open spec fn mutants_of(
    best: Seq<StrokeView>,
    fresh: Seq<Seq<StrokeView>>,
    mutants: Seq<Seq<StrokeView>>,
    chance: Probability,
) -> bool {
    &&& mutants.len() == fresh.len()
    &&& forall|k: int| 0 <= k < mutants.len() ==> mutant_of(best, fresh[k], #[trigger] mutants[k])
    &&& chance.is_never() ==> forall|k: int| 0 <= k < mutants.len() ==> #[trigger] mutants[k] == best
    &&& chance.is_always() ==> forall|k: int| 0 <= k < mutants.len() ==> #[trigger] mutants[k] == fresh[k]
}

impl EvolutionView {
    /// How many paintings a population has.
    pub open spec fn size(self) -> nat {
        self.config.population_size as nat
    }

    /// How many strokes a painting has.
    pub open spec fn stroke_num(self) -> nat {
        self.config.stroke_num as nat
    }

    /// The population is what a population must be: its paintings are of
    /// the size that the run asks for, and the best comes first. Parents
    /// are chosen by rank: rank `i` weighs `1 / (i + bias)`.
    pub open spec fn settled(self) -> bool {
        &&& self.config.valid()
        &&& self.parent_weights == weights_of_ranks(
            self.size(),
            self.config.crossover_bias as nat,
        )
        &&& all_of_size(strokes_of(self.population), self.stroke_num())
        &&& ranked(self.population)
        &&& self.generation <= self.config.generation
        &&& self.stagnation.recovery == self.config.stagnation_recovery
        &&& self.stagnation.countdown <= self.config.stagnation_limit
        &&& self.population.len() > 0 ==> self.last_top.len() == self.stroke_num()
    }

    /// What the machine holds fits together and fits its phase.
    pub open spec fn wf(self) -> bool {
        &&& self.settled()
        &&& all_of_size(self.pending, self.stroke_num())
        &&& match self.phase {
            Phase::Initializing => self.population.len() == 0 && self.pending.len() == 0
                && self.generation == 0,
            Phase::Evaluating => self.population.len() == 0 && self.pending.len() == self.size()
                && self.generation == 0,
            Phase::Selecting => self.population.len() == self.size() && self.pending.len() == 0
                && self.generation < self.config.generation,
            Phase::ScoringOffspring => self.population.len() == self.size() && self.pending.len()
                == self.size() && self.generation < self.config.generation,
            Phase::Remutating => self.population.len() == self.size() && self.pending.len() == 0,
            Phase::ScoringMutants => self.population.len() == self.size() && self.pending.len()
                == self.size() - 1,
            Phase::Terminating => self.population.len() == self.size() && self.pending
                == strokes_of(self.population),
            Phase::Finished => self.population.len() == self.size() && self.pending.len() == 0,
            Phase::Failed => true,
        }
    }

    /// How many random paintings the machine waits for.
    pub open spec fn wanted(self) -> nat {
        match self.phase {
            Phase::Initializing => self.size(),
            Phase::Remutating => (self.size() - 1) as nat,
            _ => 0,
        }
    }

    /// How many steps the run can still take at most: every step that the
    /// machine accepts uses up at least one. A generation takes four steps
    /// at most: breeding, the scores of the offspring, and, where the
    /// population is mutated afresh, the mutation and the scores of the
    /// mutants.
    pub open spec fn steps_left(self) -> nat {
        let left = (self.config.generation - self.generation) as nat;
        match self.phase {
            Phase::Finished => 0,
            Phase::Failed => 0,
            Phase::Terminating => 1,
            Phase::ScoringOffspring => 4 * left + 1,
            Phase::Selecting => 4 * left + 2,
            Phase::ScoringMutants => 4 * left + 3,
            Phase::Remutating => 4 * left + 4,
            Phase::Evaluating => 4 * left + 5,
            Phase::Initializing => 4 * left + 6,
        }
    }

    /// The score of the best painting so far.
    pub open spec fn best_score(self) -> u128 {
        self.population[0].score
    }

    /// The machine once a generation is complete: it goes on to breed the
    /// next one, or, after the last one, to the last scoring of all
    /// paintings.
    pub open spec fn onward(self) -> EvolutionView {
        if self.generation >= self.config.generation {
            EvolutionView {
                phase: Phase::Terminating,
                pending: strokes_of(self.population),
                ..self
            }
        } else {
            EvolutionView { phase: Phase::Selecting, pending: Seq::empty(), ..self }
        }
    }

    /// After the scores of the first population: the population is the
    /// pending paintings, the best first.
    pub open spec fn after_first_scores(self, scores: Seq<u128>) -> EvolutionView {
        let population = merged(Seq::empty(), paired(self.pending, scores));
        EvolutionView { population, last_top: population[0].strokes, ..self }.onward()
    }

    /// After the scores of the offspring: population and offspring are
    /// merged and the best survive, the generation is complete, and
    /// stagnation is checked. Where the check asks for it, the machine waits
    /// for paintings to mutate the best one with.
    pub open spec fn after_offspring_scores(self, scores: Seq<u128>) -> EvolutionView {
        let population = survivors(self.population, paired(self.pending, scores), self.size());
        let (stagnation, due) = self.stagnation.observed(population[0].strokes == self.last_top);
        let next = EvolutionView {
            population,
            generation: self.generation + 1,
            stagnation,
            last_top: population[0].strokes,
            pending: Seq::empty(),
            ..self
        };
        if due {
            EvolutionView { phase: Phase::Remutating, ..next }
        } else {
            next.onward()
        }
    }

    /// After the scores of the mutants: the population is the best painting
    /// and the mutants, the best first.
    pub open spec fn after_mutant_scores(self, scores: Seq<u128>) -> EvolutionView {
        let population = merged(seq![self.population[0]], paired(self.pending, scores));
        EvolutionView { population, ..self }.onward()
    }

    /// After the last scoring: the population with its new scores, the best
    /// first.
    pub open spec fn after_last_scores(self, scores: Seq<u128>) -> EvolutionView {
        EvolutionView {
            population: merged(Seq::empty(), paired(self.pending, scores)),
            phase: Phase::Finished,
            pending: Seq::empty(),
            ..self
        }
    }

    /// The machine waits for scores.
    pub open spec fn awaits_scores(self) -> bool {
        self.phase == Phase::Evaluating || self.phase == Phase::ScoringOffspring || self.phase
            == Phase::ScoringMutants || self.phase == Phase::Terminating
    }

    /// After the scores that the machine has waited for.
    pub open spec fn after_scores(self, scores: Seq<u128>) -> EvolutionView {
        match self.phase {
            Phase::Evaluating => self.after_first_scores(scores),
            Phase::ScoringOffspring => self.after_offspring_scores(scores),
            Phase::ScoringMutants => self.after_mutant_scores(scores),
            Phase::Terminating => self.after_last_scores(scores),
            _ => self,
        }
    }
}

/// A population and its newcomers all have paintings of one size; then so
/// have those who survive.
pub proof fn lemma_merged_sizes(
    population: Seq<ScoredView>,
    newcomers: Seq<ScoredView>,
    stroke_num: nat,
)
    requires
        all_of_size(strokes_of(population), stroke_num),
        all_of_size(strokes_of(newcomers), stroke_num),
    ensures
        all_of_size(strokes_of(merged(population, newcomers)), stroke_num),
    decreases newcomers.len(),
{
    if newcomers.len() > 0 {
        let last = newcomers.last();
        let rest = newcomers.drop_last();
        let k = place(population, last.score) as int;
        let more = admitted(population, last);
        lemma_place_in_range(population, last.score);
        population.insert_ensures(k, last);
        assert(strokes_of(newcomers)[newcomers.len() - 1].len() == stroke_num);
        assert forall|i: int| 0 <= i < more.len() implies (#[trigger] strokes_of(more)[i]).len()
            == stroke_num by {
            if i < k {
                assert(more[i] == population[i]);
                assert(strokes_of(population)[i].len() == stroke_num);
            } else if i > k {
                assert(more[i] == population[i - 1]);
                assert(strokes_of(population)[i - 1].len() == stroke_num);
            }
        }
        assert forall|i: int| 0 <= i < rest.len() implies (#[trigger] strokes_of(rest)[i]).len()
            == stroke_num by {
            assert(strokes_of(newcomers)[i].len() == stroke_num);
        }
        lemma_merged_sizes(more, rest, stroke_num);
    }
}

/// Scores keep the machine in order, and merging is elitist: where the
/// scores are those of offspring or of mutants, the best painting afterwards
/// scores no more than the best painting did before.
pub proof fn lemma_after_scores(v: EvolutionView, scores: Seq<u128>)
    requires
        v.wf(),
        v.awaits_scores(),
        scores.len() == v.pending.len(),
    ensures
        v.after_scores(scores).wf(),
        v.phase == Phase::ScoringOffspring || v.phase == Phase::ScoringMutants ==> v.after_scores(
            scores,
        ).best_score() <= v.best_score(),
{
    let newcomers = paired(v.pending, scores);
    assert(strokes_of(newcomers) =~= v.pending);
    assert(strokes_of(Seq::<ScoredView>::empty()) =~= Seq::empty());
    match v.phase {
        Phase::Evaluating => {
            assert(v.population =~= Seq::empty());
            lemma_merged(Seq::empty(), newcomers);
            lemma_merged_sizes(Seq::empty(), newcomers, v.stroke_num());
            let population = merged(Seq::empty(), newcomers);
            assert(strokes_of(population)[0].len() == v.stroke_num());
        },
        Phase::ScoringOffspring => {
            lemma_merged(v.population, newcomers);
            lemma_merged_sizes(v.population, newcomers, v.stroke_num());
            lemma_taken_sizes(merged(v.population, newcomers), v.size(), v.stroke_num());
            let population = survivors(v.population, newcomers, v.size());
            assert(strokes_of(population)[0].len() == v.stroke_num());
        },
        Phase::ScoringMutants => {
            let best = seq![v.population[0]];
            assert(strokes_of(v.population)[0].len() == v.stroke_num());
            lemma_merged(best, newcomers);
            lemma_merged_sizes(best, newcomers, v.stroke_num());
        },
        _ => {
            lemma_merged(Seq::empty(), newcomers);
            lemma_merged_sizes(Seq::empty(), newcomers, v.stroke_num());
        },
    }
}

/// A run takes as many generations as it was asked for, and then ends. The
/// scores of offspring complete one generation, no other scores complete
/// any. The machine goes on to the last scoring of its own accord only when
/// the last generation is complete. Every scoring uses up a step, and the
/// last scoring ends the run.
pub proof fn lemma_run_ends(v: EvolutionView, scores: Seq<u128>)
    requires
        v.wf(),
        v.awaits_scores(),
        scores.len() == v.pending.len(),
    ensures
        v.after_scores(scores).generation == v.generation + if v.phase == Phase::ScoringOffspring {
            1nat
        } else {
            0nat
        },
        v.phase != Phase::Terminating && v.after_scores(scores).phase == Phase::Terminating
            ==> v.after_scores(scores).generation == v.config.generation,
        v.phase != Phase::Terminating && v.after_scores(scores).phase == Phase::Selecting
            ==> v.after_scores(scores).generation < v.config.generation,
        v.phase == Phase::Terminating <==> v.after_scores(scores).phase == Phase::Finished,
        v.after_scores(scores).steps_left() < v.steps_left(),
        v.steps_left() <= 4 * v.config.generation + 6,
{
}

/// The first population is ranked by its first scores: the best painting
/// scores no more than any of them.
pub proof fn lemma_first_best(v: EvolutionView, scores: Seq<u128>)
    requires
        v.wf(),
        v.phase == Phase::Evaluating,
        scores.len() == v.pending.len(),
    ensures
        forall|i: int|
            0 <= i < scores.len() ==> v.after_scores(scores).best_score() <= #[trigger] scores[i],
{
    let newcomers = paired(v.pending, scores);
    lemma_merged(Seq::empty(), newcomers);
    assert forall|i: int| 0 <= i < scores.len() implies v.after_scores(scores).best_score()
        <= #[trigger] scores[i] by {
        assert(newcomers[i].score == scores[i]);
    }
}

/// A last scoring that finds for every painting the score that it had
/// leaves the best score as it was: the run hands back a painting that
/// scores what the best painting scored.
pub proof fn lemma_last_scores_repeated(v: EvolutionView, scores: Seq<u128>)
    requires
        v.wf(),
        v.phase == Phase::Terminating,
        scores.len() == v.pending.len(),
        forall|i: int| 0 <= i < scores.len() ==> #[trigger] scores[i] == v.population[i].score,
    ensures
        v.after_scores(scores).best_score() == v.best_score(),
{
    let newcomers = paired(v.pending, scores);
    assert(newcomers =~= v.population);
    lemma_merged(Seq::empty(), newcomers);
    let after = merged(Seq::empty(), newcomers);
    assert(after.len() == newcomers.len() && newcomers.len() == v.size());
    after.to_multiset_ensures();
    newcomers.to_multiset_ensures();
    Seq::<ScoredView>::empty().to_multiset_ensures();
    assert(Seq::<ScoredView>::empty().to_multiset().add(newcomers.to_multiset())
        =~= newcomers.to_multiset());
    assert(after[0] == after[0] && after.contains(after[0]));
    assert(after.to_multiset().count(after[0]) > 0);
    assert(newcomers.to_multiset().count(after[0]) > 0);
    assert(newcomers.contains(after[0]));
    let k = choose|k: int| 0 <= k < newcomers.len() && newcomers[k] == after[0];
    assert(v.population[0].score <= v.population[k].score);
    assert(after[0].score <= newcomers[0].score);
}

/// A generation that finds the countdown used up and the best painting
/// unchanged forces a mutation of the population, and the countdown starts
/// again from the recovery value. Any other generation forces none.
pub proof fn lemma_stagnation_forces_mutation(v: EvolutionView, scores: Seq<u128>)
    requires
        v.wf(),
        v.phase == Phase::ScoringOffspring,
        scores.len() == v.pending.len(),
    ensures
        v.after_scores(scores).phase == Phase::Remutating <==> v.stagnation.countdown == 0
            && survivors(v.population, paired(v.pending, scores), v.size())[0].strokes
            == v.last_top,
        v.after_scores(scores).phase == Phase::Remutating ==> v.after_scores(
            scores,
        ).stagnation.countdown == v.config.stagnation_recovery,
        v.after_scores(scores).stagnation == v.stagnation.observed(
            v.after_scores(scores).population[0].strokes == v.last_top,
        ).0,
{
}

/// The machine.
pub struct Evolution {
    config: Config,
    phase: Phase,
    population: Vec<Scored>,
    pending: Vec<Individual>,
    generation: usize,
    stagnation: Stagnation,
    last_top: Individual,
    selector: Selector,
}

impl View for Evolution {
    type V = EvolutionView;

    closed spec fn view(&self) -> EvolutionView {
        EvolutionView {
            config: self.config,
            phase: self.phase,
            population: members(self.population@),
            pending: paintings(self.pending@),
            generation: self.generation as nat,
            stagnation: self.stagnation,
            last_top: self.last_top@,
            parent_weights: self.selector.weights(),
        }
    }
}

impl Evolution {
    /// What the machine holds fits together and fits its phase.
    pub open spec fn wf(&self) -> bool {
        self@.wf()
    }

    /// A machine that waits for its first population. There is none for
    /// parameters that are not valid.
    pub fn new(config: Config) -> (r: Result<Evolution, EngineError>)
        ensures
            r is Ok <==> config.valid(),
            r is Err ==> r matches Err(EngineError::InvalidConfiguration),
            r matches Ok(e) ==> e.wf() && e@ == (EvolutionView {
                config,
                phase: Phase::Initializing,
                population: Seq::empty(),
                pending: Seq::empty(),
                generation: 0,
                stagnation: Stagnation {
                    countdown: config.stagnation_limit,
                    recovery: config.stagnation_recovery,
                },
                last_top: Seq::empty(),
                parent_weights: weights_of_ranks(
                    config.population_size as nat,
                    config.crossover_bias as nat,
                ),
            }) && e@.steps_left() == 4 * config.generation + 6,
    {
        if config.stagnation_recovery > config.stagnation_limit {
            return Err(EngineError::InvalidConfiguration);
        }
        let selector = match Selector::new(config.population_size, config.crossover_bias) {
            Ok(s) => s,
            Err(_) => {
                return Err(EngineError::InvalidConfiguration);
            },
        };
        let e = Evolution {
            config,
            phase: Phase::Initializing,
            population: Vec::new(),
            pending: Vec::new(),
            generation: 0,
            stagnation: Stagnation {
                countdown: config.stagnation_limit,
                recovery: config.stagnation_recovery,
            },
            last_top: Individual { strokes: Vec::new() },
            selector,
        };
        assert(e@.population =~= Seq::empty());
        assert(e@.pending =~= Seq::empty());
        assert(e@.last_top =~= Seq::empty());
        Ok(e)
    }

    /// What the machine waits for.
    pub fn phase(&self) -> (p: Phase)
        ensures
            p == self@.phase,
    {
        self.phase
    }

    /// The parameters of the run.
    pub fn config(&self) -> (c: Config)
        ensures
            c == self@.config,
    {
        self.config
    }

    /// How many generations have been bred and merged.
    pub fn generation(&self) -> (g: usize)
        ensures
            g == self@.generation,
    {
        self.generation
    }

    /// The countdown of stagnation.
    pub fn stagnation(&self) -> (s: Stagnation)
        ensures
            s == self@.stagnation,
    {
        self.stagnation
    }

    /// How many random paintings the machine waits for.
    pub fn wanted(&self) -> (n: usize)
        requires
            self.wf(),
        ensures
            n == self@.wanted(),
    {
        match self.phase {
            Phase::Initializing => self.config.population_size as usize,
            Phase::Remutating => (self.config.population_size - 1) as usize,
            _ => 0,
        }
    }

    /// The paintings whose scores the machine waits for.
    pub fn pending(&self) -> (p: &Vec<Individual>)
        ensures
            paintings(p@) == self@.pending,
    {
        &self.pending
    }

    /// The population, the best first.
    pub fn population(&self) -> (p: &Vec<Scored>)
        ensures
            members(p@) == self@.population,
    {
        &self.population
    }

    /// The best painting so far and its score; there is none before the
    /// first population has been scored.
    pub fn best(&self) -> (b: Option<&Scored>)
        ensures
            b is Some <==> self@.population.len() > 0,
            b matches Some(s) ==> s@ == self@.population[0],
    {
        if self.population.len() > 0 {
            Some(&self.population[0])
        } else {
            None
        }
    }

    /// Hands over the first population: as many random paintings as are
    /// wanted, each of as many strokes as the run asks for.
    ///
    /// Out of turn unless the machine is `Initializing`; else a mismatch
    /// unless number and sizes are right. After an error the machine is as
    /// it was.
    pub fn populate(&mut self, individuals: Vec<Individual>) -> (r: Result<(), EngineError>)
        requires
            old(self).wf(),
        ensures
            final(self).wf(),
            old(self)@.phase != Phase::Initializing ==> r == Err::<(), EngineError>(
                EngineError::OutOfTurn,
            ),
            old(self)@.phase == Phase::Initializing && !(individuals@.len() == old(self)@.size()
                && all_of_size(paintings(individuals@), old(self)@.stroke_num())) ==> r == Err::<
                (),
                EngineError,
            >(EngineError::InputMismatch),
            old(self)@.phase == Phase::Initializing && individuals@.len() == old(self)@.size()
                && all_of_size(paintings(individuals@), old(self)@.stroke_num()) ==> r is Ok,
            r is Err ==> final(self)@ == old(self)@,
            r is Ok ==> final(self)@.steps_left() < old(self)@.steps_left(),
            r is Ok ==> final(self)@ == (EvolutionView {
                phase: Phase::Evaluating,
                pending: paintings(individuals@),
                ..old(self)@
            }),
    {
        if self.phase != Phase::Initializing {
            return Err(EngineError::OutOfTurn);
        }
        if individuals.len() != self.config.population_size as usize || !of_size(
            &individuals,
            self.config.stroke_num as usize,
        ) {
            return Err(EngineError::InputMismatch);
        }
        self.pending = individuals;
        self.phase = Phase::Evaluating;
        Ok(())
    }

    /// Ends the run before its last generation: the machine goes on to the
    /// last scoring of all paintings. The driver can ask for this only
    /// between two generations, that is while the machine is `Selecting`;
    /// else the call is out of turn and changes nothing.
    pub fn stop(&mut self) -> (r: Result<(), EngineError>)
        requires
            old(self).wf(),
        ensures
            final(self).wf(),
            r is Ok <==> old(self)@.phase == Phase::Selecting,
            r is Err ==> r == Err::<(), EngineError>(EngineError::OutOfTurn) && final(self)@
                == old(self)@,
            r is Ok ==> final(self)@.steps_left() < old(self)@.steps_left(),
            r is Ok ==> final(self)@ == (EvolutionView {
                phase: Phase::Terminating,
                pending: strokes_of(old(self)@.population),
                ..old(self)@
            }),
    {
        if self.phase != Phase::Selecting {
            return Err(EngineError::OutOfTurn);
        }
        self.pending = copies(&self.population);
        self.phase = Phase::Terminating;
        Ok(())
    }

    /// Goes on once a generation is complete.
    fn go_onward(&mut self)
        requires
            old(self)@.settled(),
            old(self)@.population.len() == old(self)@.size(),
        ensures
            final(self).wf(),
            final(self)@ == old(self)@.onward(),
    {
        if self.generation >= self.config.generation {
            self.pending = copies(&self.population);
            self.phase = Phase::Terminating;
        } else {
            self.pending = Vec::new();
            self.phase = Phase::Selecting;
            assert(self@.pending =~= Seq::empty());
        }
    }

    /// Hands over the scores of the pending paintings, one for each, in
    /// their order.
    ///
    /// Out of turn unless the machine waits for scores; else a mismatch
    /// unless there is one score for each pending painting. After an error
    /// the machine is as it was.
    ///
    /// Merging never makes the best worse: after the scores of offspring or
    /// of mutants, the best painting scores no more than the best one did
    /// before; after the first scores it scores no more than any of them.
    /// Every step uses up one of the steps that the run has left.
    pub fn submit(&mut self, scores: Vec<u128>) -> (r: Result<(), EngineError>)
        requires
            old(self).wf(),
        ensures
            final(self).wf(),
            !old(self)@.awaits_scores() ==> r == Err::<(), EngineError>(EngineError::OutOfTurn),
            old(self)@.awaits_scores() && scores@.len() != old(self)@.pending.len() ==> r == Err::<
                (),
                EngineError,
            >(EngineError::InputMismatch),
            old(self)@.awaits_scores() && scores@.len() == old(self)@.pending.len() ==> r is Ok,
            r is Err ==> final(self)@ == old(self)@,
            r is Ok ==> final(self)@.steps_left() < old(self)@.steps_left(),
            r is Ok ==> final(self)@ == old(self)@.after_scores(scores@),
            r is Ok && (old(self)@.phase == Phase::ScoringOffspring || old(self)@.phase
                == Phase::ScoringMutants) ==> final(self)@.best_score() <= old(self)@.best_score(),
            r is Ok && old(self)@.phase == Phase::Evaluating ==> forall|i: int|
                0 <= i < scores@.len() ==> final(self)@.best_score() <= #[trigger] scores@[i],
    {
        let awaited = self.phase == Phase::Evaluating || self.phase == Phase::ScoringOffspring
            || self.phase == Phase::ScoringMutants || self.phase == Phase::Terminating;
        if !awaited {
            return Err(EngineError::OutOfTurn);
        }
        if scores.len() != self.pending.len() {
            return Err(EngineError::InputMismatch);
        }
        let ghost before = self@;
        let ghost newcomers_view = paired(before.pending, scores@);
        let size = self.config.population_size as usize;
        let mut newcomers: Vec<Individual> = Vec::new();
        std::mem::swap(&mut self.pending, &mut newcomers);
        assert(paintings(newcomers@) == before.pending);
        assert(self@.pending =~= Seq::empty());
        proof {
            assert(strokes_of(newcomers_view) =~= before.pending);
        }
        match self.phase {
            Phase::Evaluating => {
                proof {
                    assert(members(self.population@) =~= Seq::empty());
                    assert(strokes_of(Seq::<ScoredView>::empty()) =~= Seq::empty());
                    lemma_first_best(before, scores@);
                    lemma_merged(Seq::empty(), newcomers_view);
                    lemma_merged_sizes(Seq::empty(), newcomers_view, before.stroke_num());
                }
                if !merge(&mut self.population, newcomers, scores, size) {
                    return Err(EngineError::InputMismatch);
                }
                assert(members(self.population@) == merged(Seq::empty(), newcomers_view));
                self.last_top = self.population[0].individual.clone();
                assert(strokes_of(self@.population)[0].len() == before.stroke_num());
                self.go_onward();
            },
            Phase::ScoringOffspring => {
                proof {
                    lemma_merged(before.population, newcomers_view);
                    lemma_merged_sizes(before.population, newcomers_view, before.stroke_num());
                    lemma_taken_sizes(
                        merged(before.population, newcomers_view),
                        before.size(),
                        before.stroke_num(),
                    );
                }
                if !merge(&mut self.population, newcomers, scores, size) {
                    return Err(EngineError::InputMismatch);
                }
                self.generation = self.generation + 1;
                assert(strokes_of(self@.population)[0].len() == before.stroke_num());
                let unchanged = self.population[0].individual.distance(&self.last_top) == 0;
                let due = self.stagnation.observe(unchanged);
                self.last_top = self.population[0].individual.clone();
                if due {
                    self.phase = Phase::Remutating;
                } else {
                    self.go_onward();
                }
            },
            Phase::ScoringMutants => {
                self.population.truncate(1);
                proof {
                    assert(members(self.population@) =~= seq![before.population[0]]);
                    assert(strokes_of(before.population)[0].len() == before.stroke_num());
                    lemma_merged(seq![before.population[0]], newcomers_view);
                    lemma_merged_sizes(
                        seq![before.population[0]],
                        newcomers_view,
                        before.stroke_num(),
                    );
                }
                if !merge(&mut self.population, newcomers, scores, size) {
                    return Err(EngineError::InputMismatch);
                }
                self.go_onward();
            },
            _ => {
                self.population.truncate(0);
                proof {
                    assert(members(self.population@) =~= Seq::empty());
                    lemma_merged(Seq::empty(), newcomers_view);
                    lemma_merged_sizes(Seq::empty(), newcomers_view, before.stroke_num());
                }
                if !merge(&mut self.population, newcomers, scores, size) {
                    return Err(EngineError::InputMismatch);
                }
                self.phase = Phase::Finished;
            },
        }
        Ok(())
    }

    /// Breeds the next generation. Until there are as many children as the
    /// population has members, two parents are chosen by rank (the same
    /// painting may be chosen twice), copies of them exchange the strokes in
    /// half of the places, chosen at random, and the two copies are the
    /// children. The population itself is not touched. The children are
    /// then pending.
    ///
    /// Out of turn, and without effect, unless the machine is `Selecting`.
    pub fn breed(&mut self, rng: &mut StdRng) -> (r: Result<(), EngineError>)
        requires
            old(self).wf(),
        ensures
            final(self).wf(),
            r is Ok <==> old(self)@.phase == Phase::Selecting,
            r is Err ==> r == Err::<(), EngineError>(EngineError::OutOfTurn) && final(self)@
                == old(self)@,
            r is Ok ==> final(self)@.steps_left() < old(self)@.steps_left(),
            r is Ok ==> final(self)@ == (EvolutionView {
                phase: Phase::ScoringOffspring,
                pending: final(self)@.pending,
                ..old(self)@
            }) && final(self)@.pending.len() == old(self)@.size() && all_of_size(
                final(self)@.pending,
                old(self)@.stroke_num(),
            ) && bred(
                old(self)@.population,
                final(self)@.pending,
                old(self)@.stroke_num(),
                old(self)@.config.crossover_bias as nat,
            ),
    {
        if self.phase != Phase::Selecting {
            return Err(EngineError::OutOfTurn);
        }
        let size = self.config.population_size as usize;
        let ghost population = self@.population;
        let ghost stroke_num = self@.stroke_num();
        let ghost bias = self@.config.crossover_bias as nat;
        let mut children: Vec<Individual> = Vec::new();
        let mut mask = crossover_mask(self.config.stroke_num as usize);
        while children.len() < size
            invariant
                self.wf(),
                self@ == old(self)@,
                self@.phase == Phase::Selecting,
                population == self@.population,
                stroke_num == self@.stroke_num(),
                bias == self@.config.crossover_bias,
                size == self@.size(),
                mask@.len() == stroke_num,
                marked(mask@) == stroke_num / 2,
                children@.len() <= size,
                children@.len() < size ==> children@.len() % 2 == 0,
                all_of_size(paintings(children@), stroke_num),
                bred(population, paintings(children@), stroke_num, bias),
            decreases size - children@.len(),
        {
            let a = self.selector.pick(rng);
            let b = self.selector.pick(rng);
            let mut first = self.population[a].individual.clone();
            let mut second = self.population[b].individual.clone();
            assert(first@ == population[a as int].strokes && second@ == population[b as int].strokes);
            assert(strokes_of(population)[a as int].len() == stroke_num);
            assert(strokes_of(population)[b as int].len() == stroke_num);
            shuffle_mask(&mut mask, rng);
            match crossover(&mut first, &mut second, &mask) {
                Ok(()) => {},
                Err(e) => {
                    return Err(e);
                },
            }
            let ghost elder = paintings(children@);
            let ghost n = children@.len() as int;
            let ghost one = first@;
            let ghost two = second@;
            children.push(first);
            proof {
                assert(paintings(children@) =~= elder.push(one));
                assert(bred_pair(population, one, None, stroke_num, bias));
                assert forall|k: int|
                    0 <= k < paintings(children@).len() && k % 2 == 0 implies bred_pair(
                    population,
                    #[trigger] paintings(children@)[k],
                    if k + 1 < paintings(children@).len() {
                        Some(paintings(children@)[k + 1])
                    } else {
                        None
                    },
                    stroke_num,
                    bias,
                ) by {
                    if k < n {
                        assert(paintings(children@)[k] == elder[k]);
                        assert(paintings(children@)[k + 1] == elder[k + 1]);
                    }
                }
            }
            if children.len() < size {
                let ghost odd = paintings(children@);
                children.push(second);
                proof {
                    assert(paintings(children@) =~= odd.push(two));
                    assert(bred_pair(population, one, Some(two), stroke_num, bias));
                    assert forall|k: int|
                        0 <= k < paintings(children@).len() && k % 2 == 0 implies bred_pair(
                        population,
                        #[trigger] paintings(children@)[k],
                        if k + 1 < paintings(children@).len() {
                            Some(paintings(children@)[k + 1])
                        } else {
                            None
                        },
                        stroke_num,
                        bias,
                    ) by {
                        if k < n {
                            assert(paintings(children@)[k] == odd[k]);
                            assert(paintings(children@)[k + 1] == odd[k + 1]);
                        }
                    }
                }
            }
        }
        self.pending = children;
        self.phase = Phase::ScoringOffspring;
        Ok(())
    }

    /// Mutates the population afresh. The best painting stays; each other
    /// member is to be replaced by a mutant: a copy of the best painting in
    /// which every stroke has been replaced, with the chance that the run
    /// asks for and independently of the others, by the stroke that one of
    /// the `fresh` paintings has in the same place. The mutants are then
    /// pending.
    ///
    /// Out of turn unless the machine is `Remutating`; else a mismatch
    /// unless there are as many fresh paintings as are wanted, each of the
    /// right size. After an error the machine is as it was.
    pub fn remutate(&mut self, fresh: Vec<Individual>, rng: &mut StdRng) -> (r: Result<
        (),
        EngineError,
    >)
        requires
            old(self).wf(),
        ensures
            final(self).wf(),
            old(self)@.phase != Phase::Remutating ==> r == Err::<(), EngineError>(
                EngineError::OutOfTurn,
            ),
            old(self)@.phase == Phase::Remutating && !(fresh@.len() == old(self)@.size() - 1
                && all_of_size(paintings(fresh@), old(self)@.stroke_num())) ==> r == Err::<
                (),
                EngineError,
            >(EngineError::InputMismatch),
            old(self)@.phase == Phase::Remutating && fresh@.len() == old(self)@.size() - 1
                && all_of_size(paintings(fresh@), old(self)@.stroke_num()) ==> r is Ok,
            r is Err ==> final(self)@ == old(self)@,
            r is Ok ==> final(self)@.steps_left() < old(self)@.steps_left(),
            r is Ok ==> final(self)@ == (EvolutionView {
                phase: Phase::ScoringMutants,
                pending: final(self)@.pending,
                ..old(self)@
            }) && final(self)@.pending.len() == old(self)@.size() - 1 && all_of_size(
                final(self)@.pending,
                old(self)@.stroke_num(),
            ) && mutants_of(
                old(self)@.population[0].strokes,
                paintings(fresh@),
                final(self)@.pending,
                old(self)@.config.mutation,
            ),
    {
        if self.phase != Phase::Remutating {
            return Err(EngineError::OutOfTurn);
        }
        if fresh.len() != (self.config.population_size - 1) as usize || !of_size(
            &fresh,
            self.config.stroke_num as usize,
        ) {
            return Err(EngineError::InputMismatch);
        }
        let chance = self.config.mutation;
        let ghost best = self@.population[0].strokes;
        let ghost stroke_num = self@.stroke_num();
        assert(strokes_of(self@.population)[0].len() == stroke_num);
        let mut mutants: Vec<Individual> = Vec::new();
        let mut k: usize = 0;
        while k < fresh.len()
            invariant
                self.wf(),
                self@ == old(self)@,
                self@.phase == Phase::Remutating,
                self@.population.len() > 0,
                best == self@.population[0].strokes,
                best.len() == stroke_num,
                stroke_num == self@.stroke_num(),
                chance == self@.config.mutation,
                all_of_size(paintings(fresh@), stroke_num),
                k <= fresh@.len(),
                mutants@.len() == k,
                all_of_size(paintings(mutants@), stroke_num),
                forall|j: int|
                    0 <= j < k ==> mutant_of(
                        best,
                        paintings(fresh@)[j],
                        #[trigger] paintings(mutants@)[j],
                    ),
                chance.is_never() ==> forall|j: int|
                    0 <= j < k ==> #[trigger] paintings(mutants@)[j] == best,
                chance.is_always() ==> forall|j: int|
                    0 <= j < k ==> #[trigger] paintings(mutants@)[j] == paintings(fresh@)[j],
            decreases fresh@.len() - k,
        {
            let mut mutant = self.population[0].individual.clone();
            assert(paintings(fresh@)[k as int].len() == stroke_num);
            match mutate(&mut mutant, &fresh[k], chance, rng) {
                Ok(()) => {},
                Err(e) => {
                    return Err(e);
                },
            }
            let ghost elder = paintings(mutants@);
            let ghost made = mutant@;
            assert(mutant_of(best, paintings(fresh@)[k as int], made));
            mutants.push(mutant);
            assert(paintings(mutants@) =~= elder.push(made));
            k += 1;
        }
        self.pending = mutants;
        self.phase = Phase::ScoringMutants;
        Ok(())
    }

    /// The driver reports that rendering or saving has failed. The machine
    /// stops for good; the population stays as it is, so that the best
    /// painting so far can still be had.
    pub fn fail(&mut self) -> (e: EngineError)
        ensures
            e == EngineError::RendererFailure,
            final(self)@ == (EvolutionView { phase: Phase::Failed, ..old(self)@ }),
            final(self)@.steps_left() == 0,
            old(self).wf() ==> final(self).wf(),
    {
        self.phase = Phase::Failed;
        EngineError::RendererFailure
    }
}

/// Taking the first few of some paintings of one size leaves paintings of
/// that size.
proof fn lemma_taken_sizes(population: Seq<ScoredView>, size: nat, stroke_num: nat)
    requires
        all_of_size(strokes_of(population), stroke_num),
        size <= population.len(),
    ensures
        all_of_size(strokes_of(population.take(size as int)), stroke_num),
{
    assert forall|i: int| 0 <= i < size implies (#[trigger] strokes_of(
        population.take(size as int),
    )[i]).len() == stroke_num by {
        assert(strokes_of(population)[i].len() == stroke_num);
    }
}

/// Whether every painting has `stroke_num` strokes.
fn of_size(individuals: &Vec<Individual>, stroke_num: usize) -> (r: bool)
    ensures
        r == all_of_size(paintings(individuals@), stroke_num as nat),
{
    let mut i: usize = 0;
    while i < individuals.len()
        invariant
            i <= individuals.len(),
            forall|k: int| 0 <= k < i ==> (#[trigger] paintings(individuals@)[k]).len() == stroke_num,
        decreases individuals.len() - i,
    {
        if individuals[i].len() != stroke_num {
            assert(paintings(individuals@)[i as int].len() != stroke_num);
            return false;
        }
        i += 1;
    }
    true
}

/// A copy of each painting of a population, in their order.
fn copies(population: &Vec<Scored>) -> (r: Vec<Individual>)
    ensures
        paintings(r@) == strokes_of(members(population@)),
{
    let mut r: Vec<Individual> = Vec::new();
    let mut i: usize = 0;
    while i < population.len()
        invariant
            i <= population.len(),
            paintings(r@) == strokes_of(members(population@)).take(i as int),
        decreases population.len() - i,
    {
        let ghost before = r@;
        r.push(population[i].individual.clone());
        assert(paintings(r@) =~= paintings(before).push(population@[i as int].individual@));
        assert(paintings(r@) =~= strokes_of(members(population@)).take(i as int + 1));
        i += 1;
    }
    assert(strokes_of(members(population@)).take(population.len() as int) =~= strokes_of(
        members(population@),
    ));
    r
}

} // verus!
