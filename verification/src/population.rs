//! A population: paintings with their scores, the best first.
//!
//! A score is a loss, so the best painting is the one with the lowest score.
//! Where two paintings have the same score, the one that joined first stays
//! first.

use crate::individual::Individual;
use crate::stroke::StrokeView;
use vstd::prelude::*;
use vstd::seq_lib::to_multiset_insert;

verus! {

/// A painting and its score.
#[derive(Debug)]
pub struct Scored {
    pub individual: Individual,
    pub score: u128,
}

/// What a scored painting holds.
pub struct ScoredView {
    pub strokes: Seq<StrokeView>,
    pub score: u128,
}

impl View for Scored {
    type V = ScoredView;

    open spec fn view(&self) -> ScoredView {
        ScoredView { strokes: self.individual@, score: self.score }
    }
}

/// What each member of a population holds.
pub open spec fn members(population: Seq<Scored>) -> Seq<ScoredView> {
    Seq::new(population.len(), |i: int| population[i]@)
}

/// Each painting with the score of the same index.
pub open spec fn paired(paintings: Seq<Seq<StrokeView>>, scores: Seq<u128>) -> Seq<ScoredView> {
    Seq::new(paintings.len(), |i: int| ScoredView { strokes: paintings[i], score: scores[i] })
}

/// The best comes first: no member scores less than one before it.
pub open spec fn ranked(population: Seq<ScoredView>) -> bool {
    forall|i: int, j: int|
        0 <= i <= j < population.len() ==> population[i].score <= population[j].score
}

/// Where a newcomer with `score` goes: behind every member that scores no
/// more than it.
pub open spec fn place(population: Seq<ScoredView>, score: u128) -> nat
    decreases population.len(),
{
    if population.len() == 0 {
        0
    } else if population.last().score <= score {
        population.len()
    } else {
        place(population.drop_last(), score)
    }
}

/// The population with a newcomer in its place.
pub open spec fn admitted(population: Seq<ScoredView>, newcomer: ScoredView) -> Seq<ScoredView> {
    population.insert(place(population, newcomer.score) as int, newcomer)
}

/// The population with all newcomers in their places; the last newcomer is
/// admitted first.
pub open spec fn merged(population: Seq<ScoredView>, newcomers: Seq<ScoredView>) -> Seq<
    ScoredView,
>
    decreases newcomers.len(),
{
    if newcomers.len() == 0 {
        population
    } else {
        merged(admitted(population, newcomers.last()), newcomers.drop_last())
    }
}

/// The best `size` of a population and its newcomers.
pub open spec fn survivors(
    population: Seq<ScoredView>,
    newcomers: Seq<ScoredView>,
    size: nat,
) -> Seq<ScoredView> {
    let all = merged(population, newcomers);
    if size < all.len() {
        all.take(size as int)
    } else {
        all
    }
}

/// A place is a place in the population, or just behind it.
pub proof fn lemma_place_in_range(population: Seq<ScoredView>, score: u128)
    ensures
        place(population, score) <= population.len(),
    decreases population.len(),
{
    if population.len() > 0 {
        lemma_place_in_range(population.drop_last(), score);
    }
}

/// The place of a newcomer parts those who score no more from those who
/// score more.
pub proof fn lemma_place(population: Seq<ScoredView>, score: u128)
    requires
        ranked(population),
    ensures
        place(population, score) <= population.len(),
        forall|i: int| 0 <= i < place(population, score) ==> population[i].score <= score,
        forall|i: int|
            place(population, score) <= i < population.len() ==> population[i].score > score,
    decreases population.len(),
{
    if population.len() > 0 && population.last().score > score {
        let head = population.drop_last();
        assert forall|i: int, j: int| 0 <= i <= j < head.len() implies head[i].score
            <= head[j].score by {
            assert(head[i] == population[i] && head[j] == population[j]);
        }
        lemma_place(head, score);
        assert forall|i: int| 0 <= i < place(population, score) implies population[i].score
            <= score by {
            assert(head[i] == population[i]);
        }
        assert forall|i: int| place(population, score) <= i < population.len() implies population[i].score
            > score by {
            if i < head.len() {
                assert(head[i] == population[i]);
            }
        }
    }
}

/// Admitting a newcomer keeps the best first, loses and invents nobody, and
/// leaves a best that is the better of the old best and the newcomer.
pub proof fn lemma_admitted(population: Seq<ScoredView>, newcomer: ScoredView)
    requires
        ranked(population),
    ensures
        ranked(admitted(population, newcomer)),
        admitted(population, newcomer).len() == population.len() + 1,
        admitted(population, newcomer).to_multiset() == population.to_multiset().insert(newcomer),
        admitted(population, newcomer)[0].score <= newcomer.score,
        population.len() > 0 ==> admitted(population, newcomer)[0].score <= population[0].score,
        population.len() > 0 ==> admitted(population, newcomer)[0].score == population[0].score
            || admitted(population, newcomer)[0] == newcomer,
{
    lemma_place(population, newcomer.score);
    let k = place(population, newcomer.score) as int;
    population.insert_ensures(k, newcomer);
    to_multiset_insert(population, k, newcomer);
    let after = admitted(population, newcomer);
    assert forall|i: int, j: int| 0 <= i <= j < after.len() implies after[i].score
        <= after[j].score by {
        if j < k {
            assert(after[i] == population[i] && after[j] == population[j]);
        } else if j == k {
            if i < k {
                assert(after[i] == population[i]);
            }
        } else {
            assert(after[j] == population[j - 1]);
            if i < k {
                assert(after[i] == population[i]);
            } else if i > k {
                assert(after[i] == population[i - 1]);
            }
        }
    }
    if k > 0 {
        assert(after[0] == population[0]);
    }
}

/// Merging keeps the best first, loses and invents nobody, and never makes
/// the best worse: the new best scores no more than the old best and no more
/// than any newcomer.
pub proof fn lemma_merged(population: Seq<ScoredView>, newcomers: Seq<ScoredView>)
    requires
        ranked(population),
    ensures
        ranked(merged(population, newcomers)),
        merged(population, newcomers).len() == population.len() + newcomers.len(),
        merged(population, newcomers).to_multiset() == population.to_multiset().add(
            newcomers.to_multiset(),
        ),
        population.len() > 0 ==> merged(population, newcomers)[0].score <= population[0].score,
        forall|i: int|
            0 <= i < newcomers.len() ==> merged(population, newcomers)[0].score
                <= #[trigger] newcomers[i].score,
    decreases newcomers.len(),
{
    broadcast use vstd::seq_lib::group_to_multiset_ensures;

    if newcomers.len() == 0 {
        assert(newcomers.to_multiset() =~= vstd::multiset::Multiset::empty());
        assert(population.to_multiset().add(newcomers.to_multiset()) =~= population.to_multiset());
    } else {
        let last = newcomers.last();
        let rest = newcomers.drop_last();
        lemma_admitted(population, last);
        lemma_merged(admitted(population, last), rest);
        assert(rest.push(last) =~= newcomers);
        assert(newcomers.to_multiset() =~= rest.to_multiset().insert(last));
        assert(merged(population, newcomers).to_multiset() =~= population.to_multiset().add(
            newcomers.to_multiset(),
        ));
        assert forall|i: int| 0 <= i < newcomers.len() implies merged(population, newcomers)[0].score
            <= #[trigger] newcomers[i].score by {
            if i < rest.len() {
                assert(rest[i] == newcomers[i]);
            }
        }
    }
}

/// Who survives are the best: they come best first, the best of them scores
/// no more than the old best, and each of them scores no more than anyone
/// who was dropped.
pub proof fn lemma_survivors(population: Seq<ScoredView>, newcomers: Seq<ScoredView>, size: nat)
    requires
        ranked(population),
    ensures
        ranked(survivors(population, newcomers, size)),
        survivors(population, newcomers, size).len() == if size < population.len()
            + newcomers.len() {
            size
        } else {
            population.len() + newcomers.len()
        },
        survivors(population, newcomers, size).is_prefix_of(merged(population, newcomers)),
        size > 0 && population.len() > 0 ==> survivors(population, newcomers, size)[0].score
            <= population[0].score,
        forall|i: int, j: int|
            0 <= i < survivors(population, newcomers, size).len() <= j < merged(
                population,
                newcomers,
            ).len() ==> survivors(population, newcomers, size)[i].score <= merged(
                population,
                newcomers,
            )[j].score,
{
    lemma_merged(population, newcomers);
}

/// Whether the best comes first.
pub fn is_ranked(population: &Vec<Scored>) -> (r: bool)
    ensures
        r == ranked(members(population@)),
{
    let mut i: usize = 1;
    while i < population.len()
        invariant
            1 <= i,
            forall|a: int, b: int|
                0 <= a <= b < i && b < population@.len() ==> members(population@)[a].score
                    <= members(population@)[b].score,
        decreases population.len() - i,
    {
        if population[i - 1].score > population[i].score {
            assert(members(population@)[i - 1].score > members(population@)[i as int].score);
            return false;
        }
        assert forall|a: int, b: int| 0 <= a <= b < i + 1 && b < population@.len() implies members(
            population@,
        )[a].score <= members(population@)[b].score by {
            if b == i && a < i {
                assert(members(population@)[a].score <= members(population@)[i - 1].score);
            }
        }
        i += 1;
    }
    true
}

/// Puts a newcomer in its place in a population that has the best first.
fn seat(population: &mut Vec<Scored>, newcomer: Scored)
    requires
        ranked(members(old(population)@)),
    ensures
        members(final(population)@) == admitted(members(old(population)@), newcomer@),
        ranked(members(final(population)@)),
{
    let ghost before = members(population@);
    let mut k: usize = population.len();
    assert(before.take(k as int) =~= before);
    while k > 0 && population[k - 1].score > newcomer.score
        invariant
            k <= population.len(),
            before == members(population@),
            place(before, newcomer.score) == place(before.take(k as int), newcomer.score),
        decreases k,
    {
        assert(before.take(k as int).drop_last() =~= before.take(k as int - 1));
        assert(before.take(k as int).last() == population@[k - 1]@);
        k -= 1;
    }
    proof {
        assert(before.take(before.len() as int) =~= before);
        if k > 0 {
            assert(before.take(k as int).last() == population@[k - 1]@);
        }
        assert(place(before, newcomer.score) == k);
        lemma_admitted(before, newcomer@);
    }
    population.insert(k, newcomer);
    assert(members(population@) =~= before.insert(k as int, newcomer@));
}

/// Puts a newcomer in its place in a population that has the best first.
/// Nothing is done to a population that has not; the result says whether
/// the newcomer has entered.
pub fn enter(population: &mut Vec<Scored>, newcomer: Scored) -> (entered: bool)
    ensures
        entered == ranked(members(old(population)@)),
        !entered ==> final(population)@ == old(population)@,
        entered ==> members(final(population)@) == admitted(
            members(old(population)@),
            newcomer@,
        ) && ranked(members(final(population)@)),
{
    if !is_ranked(population) {
        return false;
    }
    seat(population, newcomer);
    true
}

/// What each of some paintings holds.
pub open spec fn paintings(individuals: Seq<Individual>) -> Seq<Seq<StrokeView>> {
    Seq::new(individuals.len(), |i: int| individuals[i]@)
}

/// Merges newcomers with their scores into a population that has the best
/// first, and keeps the best `size`. Nothing is done where the scores are
/// not as many as the newcomers, nor to a population that has not the best
/// first; the result says whether the merge was made.
pub fn merge(
    population: &mut Vec<Scored>,
    newcomers: Vec<Individual>,
    scores: Vec<u128>,
    size: usize,
) -> (done: bool)
    ensures
        done == (newcomers@.len() == scores@.len() && ranked(members(old(population)@))),
        !done ==> final(population)@ == old(population)@,
        done ==> members(final(population)@) == survivors(
            members(old(population)@),
            paired(paintings(newcomers@), scores@),
            size as nat,
        ) && ranked(members(final(population)@)),
{
    if newcomers.len() != scores.len() || !is_ranked(population) {
        return false;
    }
    let ghost start = members(population@);
    let ghost all = paired(paintings(newcomers@), scores@);
    let mut newcomers = newcomers;
    let mut scores = scores;
    assert(paired(paintings(newcomers@), scores@) =~= all.take(newcomers@.len() as int));
    assert(all.take(all.len() as int) =~= all);
    while newcomers.len() > 0
        invariant
            newcomers@.len() == scores@.len(),
            newcomers@.len() <= all.len(),
            ranked(members(population@)),
            paired(paintings(newcomers@), scores@) == all.take(newcomers@.len() as int),
            merged(start, all) == merged(members(population@), all.take(newcomers@.len() as int)),
        decreases newcomers@.len(),
    {
        let ghost left = all.take(newcomers@.len() as int);
        let ghost n = newcomers@.len();
        let ghost old_newcomers = newcomers@;
        let ghost old_scores = scores@;
        let individual = newcomers.pop();
        let score = scores.pop();
        match (individual, score) {
            (Some(individual), Some(score)) => {
                let newcomer = Scored { individual, score };
                assert(newcomer@ == left.last()) by {
                    assert(left[n - 1] == paired(paintings(old_newcomers), old_scores)[n - 1]);
                }
                seat(population, newcomer);
                assert(left.drop_last() =~= all.take(n - 1));
                assert(paired(paintings(newcomers@), scores@) =~= all.take(n - 1));
            },
            _ => {
                assert(false);
            },
        }
    }
    proof {
        assert(all.take(0) =~= Seq::empty());
        lemma_merged(start, all);
    }
    if size < population.len() {
        population.truncate(size);
        assert(members(population@) =~= merged(start, all).take(size as int));
    }
    true
}

} // verus!
