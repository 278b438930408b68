//! The two operators that make new paintings out of old ones. Both work
//! place by place: a stroke is kept, or the stroke that another painting has
//! in the same place takes over. Neither adds or removes a stroke.

use crate::error::EngineError;
use crate::individual::Individual;
use crate::random::bernoulli;
use crate::random::shuffle;
use crate::stroke::StrokeView;
use rand::rngs::StdRng;
use vstd::prelude::*;

verus! {

/// A probability: `numerator` in `denominator`.
#[derive(Clone, Copy, Debug)]
pub struct Probability {
    numerator: u32,
    denominator: u32,
}

impl Probability {
    pub closed spec fn numerator(self) -> nat {
        self.numerator as nat
    }

    pub closed spec fn denominator(self) -> nat {
        self.denominator as nat
    }

    /// The event never happens.
    pub open spec fn is_never(self) -> bool {
        self.numerator() == 0
    }

    /// The event always happens.
    pub open spec fn is_always(self) -> bool {
        self.numerator() == self.denominator()
    }

    #[verifier::type_invariant]
    spec fn inv(self) -> bool {
        0 < self.denominator && self.numerator <= self.denominator
    }

    /// The probability of `numerator` in `denominator`, where that is one:
    /// the denominator is above zero and the numerator is not above it.
    pub fn new(numerator: u32, denominator: u32) -> (r: Option<Probability>)
        ensures
            r is Some <==> 0 < denominator && numerator <= denominator,
            r matches Some(p) ==> p.numerator() == numerator && p.denominator() == denominator,
    {
        if 0 < denominator && numerator <= denominator {
            Some(Probability { numerator, denominator })
        } else {
            None
        }
    }

    /// The probability of so many in a hundred; more than a hundred count
    /// as a hundred.
    pub fn percent(percent: u32) -> (p: Probability)
        ensures
            p.denominator() == 100,
            p.numerator() == if percent <= 100 {
                percent
            } else {
                100
            },
    {
        if percent <= 100 {
            Probability { numerator: percent, denominator: 100 }
        } else {
            Probability { numerator: 100, denominator: 100 }
        }
    }

    /// Draws whether the event happens this time.
    pub fn draw(self, rng: &mut StdRng) -> (hit: bool)
        ensures
            self.is_never() ==> !hit,
            self.is_always() ==> hit,
    {
        proof {
            use_type_invariant(self);
        }
        bernoulli(rng, self.numerator, self.denominator)
    }
}

/// The painting that holds, in each place that `mask` marks, the stroke that
/// `other` has there, and in every other place the stroke of `own`.
pub open spec fn crossed(own: Seq<StrokeView>, other: Seq<StrokeView>, mask: Seq<bool>) -> Seq<
    StrokeView,
> {
    Seq::new(
        own.len(),
        |i: int|
            if mask[i] {
                other[i]
            } else {
                own[i]
            },
    )
}

/// How many places a mask marks.
pub open spec fn marked(mask: Seq<bool>) -> nat {
    mask.to_multiset().count(true)
}

/// Crossover changes no stroke count, and the same mask applied a second
/// time gives both paintings back.
pub proof fn lemma_crossover_twice(a: Seq<StrokeView>, b: Seq<StrokeView>, mask: Seq<bool>)
    requires
        a.len() == b.len(),
        a.len() == mask.len(),
    ensures
        crossed(a, b, mask).len() == a.len(),
        crossed(b, a, mask).len() == b.len(),
        crossed(crossed(a, b, mask), crossed(b, a, mask), mask) == a,
        crossed(crossed(b, a, mask), crossed(a, b, mask), mask) == b,
{
    assert(crossed(crossed(a, b, mask), crossed(b, a, mask), mask) =~= a);
    assert(crossed(crossed(b, a, mask), crossed(a, b, mask), mask) =~= b);
}

/// A mask that marks nothing keeps the painting, and a mask that marks
/// every place replaces it by the other.
pub proof fn lemma_crossed_extremes(own: Seq<StrokeView>, other: Seq<StrokeView>, mask: Seq<bool>)
    requires
        own.len() == other.len(),
        own.len() == mask.len(),
    ensures
        (forall|i: int| 0 <= i < mask.len() ==> !mask[i]) ==> crossed(own, other, mask) == own,
        (forall|i: int| 0 <= i < mask.len() ==> mask[i]) ==> crossed(own, other, mask) == other,
{
    if forall|i: int| 0 <= i < mask.len() ==> !mask[i] {
        assert(crossed(own, other, mask) =~= own);
    }
    if forall|i: int| 0 <= i < mask.len() ==> mask[i] {
        assert(crossed(own, other, mask) =~= other);
    }
}

/// The mask of a crossover before it is shuffled: of `stroke_num` places the
/// first half is marked, rounded down.
pub fn crossover_mask(stroke_num: usize) -> (mask: Vec<bool>)
    ensures
        mask@.len() == stroke_num,
        forall|i: int| 0 <= i < stroke_num ==> mask@[i] == (i < stroke_num / 2),
        marked(mask@) == stroke_num / 2,
{
    let half = stroke_num / 2;
    let mut mask: Vec<bool> = Vec::new();
    proof {
        mask@.to_multiset_ensures();
        assert(mask@.to_multiset().len() == 0);
    }
    let mut i: usize = 0;
    while i < stroke_num
        invariant
            i <= stroke_num,
            half == stroke_num / 2,
            mask@.len() == i,
            forall|k: int| 0 <= k < i ==> mask@[k] == (k < half),
            marked(mask@) == if i < half {
                i
            } else {
                half
            },
        decreases stroke_num - i,
    {
        let ghost before = mask@;
        mask.push(i < half);
        proof {
            before.to_multiset_ensures();
            assert(mask@ == before.push(i < half));
            assert(mask@.to_multiset() =~= before.to_multiset().insert(i < half));
        }
        i += 1;
    }
    mask
}

/// Shuffles a mask: afterwards it marks as many places as before.
pub fn shuffle_mask(mask: &mut Vec<bool>, rng: &mut StdRng)
    ensures
        final(mask)@.len() == old(mask)@.len(),
        marked(final(mask)@) == marked(old(mask)@),
{
    let ghost before = mask@;
    shuffle(mask, rng);
    proof {
        before.to_multiset_ensures();
        mask@.to_multiset_ensures();
    }
}

/// Crossover: in each place that `mask` marks, the two paintings exchange
/// their strokes. They are refused, and left as they are, where the two
/// paintings and the mask are not of one length.
pub fn crossover(a: &mut Individual, b: &mut Individual, mask: &Vec<bool>) -> (r: Result<
    (),
    EngineError,
>)
    ensures
        final(a)@.len() == old(a)@.len(),
        final(b)@.len() == old(b)@.len(),
        r is Ok <==> old(a)@.len() == old(b)@.len() && old(a)@.len() == mask@.len(),
        r is Err ==> r == Err::<(), EngineError>(EngineError::InputMismatch) && final(a)@ == old(
            a,
        )@ && final(b)@ == old(b)@,
        r is Ok ==> final(a)@ == crossed(old(a)@, old(b)@, mask@) && final(b)@ == crossed(
            old(b)@,
            old(a)@,
            mask@,
        ),
{
    let n = a.strokes.len();
    if b.strokes.len() != n || mask.len() != n {
        return Err(EngineError::InputMismatch);
    }
    let mut i: usize = 0;
    while i < n
        invariant
            i <= n,
            n == mask@.len(),
            a@.len() == n,
            b@.len() == n,
            old(a)@.len() == n,
            old(b)@.len() == n,
            forall|k: int| 0 <= k < i ==> a@[k] == crossed(old(a)@, old(b)@, mask@)[k],
            forall|k: int| 0 <= k < i ==> b@[k] == crossed(old(b)@, old(a)@, mask@)[k],
            forall|k: int| i <= k < n ==> a@[k] == old(a)@[k],
            forall|k: int| i <= k < n ==> b@[k] == old(b)@[k],
        decreases n - i,
    {
        assert(a@[i as int] == a.strokes@[i as int]@ && b@[i as int] == b.strokes@[i as int]@);
        let ghost a_before = a@;
        let ghost b_before = b@;
        if mask[i] {
            let from_a = a.strokes[i].clone();
            let from_b = b.strokes[i].clone();
            a.strokes[i] = from_b;
            b.strokes[i] = from_a;
            assert(a@ =~= a_before.update(i as int, b_before[i as int]));
            assert(b@ =~= b_before.update(i as int, a_before[i as int]));
        }
        i += 1;
    }
    assert(a@ =~= crossed(old(a)@, old(b)@, mask@));
    assert(b@ =~= crossed(old(b)@, old(a)@, mask@));
    Ok(())
}

/// In each place that `hits` marks, `target` gets a copy of the stroke that
/// `donor` has there. It is refused, and `target` left as it is, where the
/// two paintings and the mask are not of one length.
pub fn transplant(target: &mut Individual, donor: &Individual, hits: &Vec<bool>) -> (r: Result<
    (),
    EngineError,
>)
    ensures
        final(target)@.len() == old(target)@.len(),
        r is Ok <==> old(target)@.len() == donor@.len() && donor@.len() == hits@.len(),
        r is Err ==> r == Err::<(), EngineError>(EngineError::InputMismatch) && final(target)@
            == old(target)@,
        r is Ok ==> final(target)@ == crossed(old(target)@, donor@, hits@),
{
    let n = target.strokes.len();
    if donor.strokes.len() != n || hits.len() != n {
        return Err(EngineError::InputMismatch);
    }
    let mut i: usize = 0;
    while i < n
        invariant
            i <= n,
            n == hits@.len(),
            target@.len() == n,
            donor@.len() == n,
            old(target)@.len() == n,
            forall|k: int| 0 <= k < i ==> target@[k] == crossed(old(target)@, donor@, hits@)[k],
            forall|k: int| i <= k < n ==> target@[k] == old(target)@[k],
        decreases n - i,
    {
        assert(target@[i as int] == target.strokes@[i as int]@);
        assert(donor@[i as int] == donor.strokes@[i as int]@);
        let ghost before = target@;
        if hits[i] {
            target.strokes[i] = donor.strokes[i].clone();
            assert(target@ =~= before.update(i as int, donor@[i as int]));
        }
        i += 1;
    }
    assert(target@ =~= crossed(old(target)@, donor@, hits@));
    Ok(())
}

/// Draws, for each of `n` places, whether the place is hit.
pub fn draw_hits(n: usize, probability: Probability, rng: &mut StdRng) -> (hits: Vec<bool>)
    ensures
        hits@.len() == n,
        probability.is_never() ==> forall|i: int| 0 <= i < n ==> !hits@[i],
        probability.is_always() ==> forall|i: int| 0 <= i < n ==> hits@[i],
{
    let mut hits: Vec<bool> = Vec::new();
    let mut i: usize = 0;
    while i < n
        invariant
            i <= n,
            hits@.len() == i,
            probability.is_never() ==> forall|k: int| 0 <= k < i ==> !hits@[k],
            probability.is_always() ==> forall|k: int| 0 <= k < i ==> hits@[k],
        decreases n - i,
    {
        hits.push(probability.draw(rng));
        i += 1;
    }
    hits
}

/// Mutation: each stroke of `target` is replaced, with the given
/// probability and independently of the others, by a copy of the stroke that
/// `donor` has in the same place. With a probability of zero nothing
/// changes; with a probability of one `target` becomes what `donor` is.
///
/// It is refused, and `target` left as it is, where the two paintings are
/// not of one length.
pub fn mutate(
    target: &mut Individual,
    donor: &Individual,
    probability: Probability,
    rng: &mut StdRng,
) -> (r: Result<(), EngineError>)
    ensures
        final(target)@.len() == old(target)@.len(),
        r is Ok <==> old(target)@.len() == donor@.len(),
        r is Err ==> r == Err::<(), EngineError>(EngineError::InputMismatch) && final(target)@
            == old(target)@,
        r is Ok ==> exists|hits: Seq<bool>|
            hits.len() == donor@.len() && final(target)@ == #[trigger] crossed(
                old(target)@,
                donor@,
                hits,
            ),
        r is Ok && probability.is_never() ==> final(target)@ == old(target)@,
        r is Ok && probability.is_always() ==> final(target)@ == donor@,
{
    if target.strokes.len() != donor.strokes.len() {
        return Err(EngineError::InputMismatch);
    }
    let hits = draw_hits(target.strokes.len(), probability, rng);
    proof {
        lemma_crossed_extremes(target@, donor@, hits@);
    }
    transplant(target, donor, &hits)
}

} // verus!
