//! One candidate painting: strokes in the order in which they are painted.

use crate::stroke::Stroke;
use crate::stroke::StrokeView;
use vstd::prelude::*;
use vstd::seq_lib::lemma_multiset_commutative;

verus! {

/// A candidate painting. The renderer paints `strokes[0]` first, so a later
/// stroke lies on top of an earlier one.
#[derive(Debug)]
pub struct Individual {
    pub strokes: Vec<Stroke>,
}

/// What each of some strokes holds.
pub open spec fn views(strokes: Seq<Stroke>) -> Seq<StrokeView> {
    Seq::new(strokes.len(), |i: int| strokes[i]@)
}

impl View for Individual {
    type V = Seq<StrokeView>;

    open spec fn view(&self) -> Seq<StrokeView> {
        views(self.strokes@)
    }
}

/// The strokes of importance `level`, in the order in which `strokes` has them.
pub open spec fn of_importance(strokes: Seq<StrokeView>, level: int) -> Seq<StrokeView>
    decreases strokes.len(),
{
    if strokes.len() == 0 {
        Seq::empty()
    } else {
        let rest = of_importance(strokes.drop_last(), level);
        if strokes.last().importance == level {
            rest.push(strokes.last())
        } else {
            rest
        }
    }
}

/// The strokes of importance 0, then those of importance 1, and so on up to
/// `level`.
pub open spec fn up_to_importance(strokes: Seq<StrokeView>, level: int) -> Seq<StrokeView>
    decreases level + 1,
{
    if level < 0 {
        Seq::empty()
    } else {
        up_to_importance(strokes, level - 1) + of_importance(strokes, level)
    }
}

/// The strokes in painting order: the least important first, and strokes of
/// one importance in the order in which `strokes` has them.
pub open spec fn by_importance(strokes: Seq<StrokeView>) -> Seq<StrokeView> {
    up_to_importance(strokes, 255)
}

/// No stroke is less important than one before it.
pub open spec fn ascending(strokes: Seq<StrokeView>) -> bool {
    forall|i: int, j: int|
        0 <= i <= j < strokes.len() ==> strokes[i].importance <= strokes[j].importance
}

/// Every stroke is of importance `level`.
pub open spec fn each_at(strokes: Seq<StrokeView>, level: int) -> bool {
    forall|i: int| 0 <= i < strokes.len() ==> (#[trigger] strokes[i]).importance == level
}

/// No stroke is of more importance than `level`.
pub open spec fn each_up_to(strokes: Seq<StrokeView>, level: int) -> bool {
    forall|i: int| 0 <= i < strokes.len() ==> (#[trigger] strokes[i]).importance <= level
}

proof fn lemma_of_importance(strokes: Seq<StrokeView>, level: int)
    ensures
        each_at(of_importance(strokes, level), level),
    decreases strokes.len(),
{
    if strokes.len() > 0 {
        lemma_of_importance(strokes.drop_last(), level);
    }
}

proof fn lemma_up_to_importance(strokes: Seq<StrokeView>, level: int)
    ensures
        each_up_to(up_to_importance(strokes, level), level),
        ascending(up_to_importance(strokes, level)),
    decreases level + 1,
{
    if level >= 0 {
        lemma_up_to_importance(strokes, level - 1);
        lemma_of_importance(strokes, level);
        let low = up_to_importance(strokes, level - 1);
        let top = of_importance(strokes, level);
        let all = up_to_importance(strokes, level);
        assert forall|i: int| 0 <= i < all.len() implies (#[trigger] all[i]).importance <= level by {
            if i < low.len() {
                assert(all[i] == low[i]);
            } else {
                assert(all[i] == top[i - low.len()]);
            }
        }
        assert forall|i: int, j: int| 0 <= i <= j < all.len() implies all[i].importance
            <= all[j].importance by {
            if j < low.len() {
                assert(all[i] == low[i] && all[j] == low[j]);
            } else if i < low.len() {
                assert(all[i] == low[i] && all[j] == top[j - low.len()]);
            } else {
                assert(all[i] == top[i - low.len()] && all[j] == top[j - low.len()]);
            }
        }
    }
}

proof fn lemma_up_to_importance_push(strokes: Seq<StrokeView>, last: StrokeView, level: int)
    ensures
        up_to_importance(strokes.push(last), level).to_multiset() == if last.importance <= level {
            up_to_importance(strokes, level).to_multiset().insert(last)
        } else {
            up_to_importance(strokes, level).to_multiset()
        },
    decreases level + 1,
{
    broadcast use vstd::seq_lib::group_to_multiset_ensures;

    let more = strokes.push(last);
    if level >= 0 {
        lemma_up_to_importance_push(strokes, last, level - 1);
        assert(more.drop_last() =~= strokes);
        lemma_multiset_commutative(up_to_importance(more, level - 1), of_importance(more, level));
        lemma_multiset_commutative(
            up_to_importance(strokes, level - 1),
            of_importance(strokes, level),
        );
        assert(up_to_importance(more, level).to_multiset() =~= if last.importance <= level {
            up_to_importance(strokes, level).to_multiset().insert(last)
        } else {
            up_to_importance(strokes, level).to_multiset()
        });
    } else {
        assert(last.importance >= 0);
    }
}

/// Strokes in painting order are the strokes that were given, each as often
/// as it was given, and none is less important than one before it.
pub proof fn lemma_by_importance(strokes: Seq<StrokeView>)
    ensures
        by_importance(strokes).to_multiset() == strokes.to_multiset(),
        by_importance(strokes).len() == strokes.len(),
        ascending(by_importance(strokes)),
    decreases strokes.len(),
{
    broadcast use vstd::seq_lib::group_to_multiset_ensures;

    lemma_up_to_importance(strokes, 255);
    if strokes.len() == 0 {
        lemma_up_to_importance_empty(255);
        assert(strokes =~= Seq::empty());
    } else {
        lemma_by_importance(strokes.drop_last());
        lemma_up_to_importance_push(strokes.drop_last(), strokes.last(), 255);
        assert(strokes.drop_last().push(strokes.last()) =~= strokes);
    }
    assert(by_importance(strokes).to_multiset().len() == strokes.to_multiset().len());
}

proof fn lemma_up_to_importance_empty(level: int)
    ensures
        up_to_importance(Seq::empty(), level) == Seq::<StrokeView>::empty(),
    decreases level + 1,
{
    if level >= 0 {
        lemma_up_to_importance_empty(level - 1);
        assert(up_to_importance(Seq::empty(), level) =~= Seq::<StrokeView>::empty());
    }
}

/// How many of the first `n` places hold different strokes in `a` and in `b`.
pub open spec fn differing_below(a: Seq<StrokeView>, b: Seq<StrokeView>, n: nat) -> nat
    decreases n,
{
    if n == 0 {
        0
    } else {
        differing_below(a, b, (n - 1) as nat) + if a[n - 1] == b[n - 1] {
            0nat
        } else {
            1nat
        }
    }
}

/// How many places hold different strokes in `a` and in `b`, as far as both reach.
pub open spec fn differing(a: Seq<StrokeView>, b: Seq<StrokeView>) -> nat {
    differing_below(
        a,
        b,
        if a.len() < b.len() {
            a.len()
        } else {
            b.len()
        },
    )
}

impl Individual {
    /// The painting of the given strokes, in painting order.
    pub fn new(strokes: Vec<Stroke>) -> (r: Individual)
        ensures
            r@ == by_importance(views(strokes@)),
            r@.len() == strokes@.len(),
            ascending(r@),
            r@.to_multiset() == views(strokes@).to_multiset(),
    {
        let ghost given = views(strokes@);
        let mut sorted: Vec<Stroke> = Vec::new();
        let mut level: u16 = 0;
        assert(views(sorted@) =~= up_to_importance(given, -1));
        while level <= 255
            invariant
                level <= 256,
                given == views(strokes@),
                views(sorted@) == up_to_importance(given, level - 1),
            decreases 256 - level,
        {
            let mut i: usize = 0;
            assert(given.take(0) =~= Seq::empty());
            assert(views(sorted@) =~= up_to_importance(given, level - 1) + of_importance(
                given.take(0),
                level as int,
            ));
            while i < strokes.len()
                invariant
                    i <= strokes.len(),
                    level <= 255,
                    given == views(strokes@),
                    views(sorted@) == up_to_importance(given, level - 1) + of_importance(
                        given.take(i as int),
                        level as int,
                    ),
                decreases strokes.len() - i,
            {
                assert(given.take(i as int + 1).drop_last() =~= given.take(i as int));
                assert(given.take(i as int + 1).last() == strokes@[i as int]@);
                if strokes[i].importance() as u16 == level {
                    let ghost before = sorted@;
                    sorted.push(strokes[i].clone());
                    assert(views(sorted@) =~= views(before).push(strokes@[i as int]@));
                }
                assert(views(sorted@) =~= up_to_importance(given, level - 1) + of_importance(
                    given.take(i as int + 1),
                    level as int,
                ));
                i += 1;
            }
            assert(given.take(strokes.len() as int) =~= given);
            level += 1;
        }
        proof {
            lemma_by_importance(given);
        }
        Individual { strokes: sorted }
    }

    /// How many strokes the painting has.
    pub fn len(&self) -> (n: usize)
        ensures
            n == self@.len(),
    {
        self.strokes.len()
    }

    /// In how many places the two paintings hold different strokes, as far
    /// as both reach. Two paintings of one size are the same painting
    /// exactly where this is zero.
    pub fn distance(&self, other: &Individual) -> (d: usize)
        ensures
            d == differing(self@, other@),
            self@.len() == other@.len() ==> (d == 0 <==> self@ == other@),
    {
        let n = if self.strokes.len() < other.strokes.len() {
            self.strokes.len()
        } else {
            other.strokes.len()
        };
        let mut d: usize = 0;
        let mut i: usize = 0;
        while i < n
            invariant
                i <= n,
                n <= self@.len(),
                n <= other@.len(),
                d <= i,
                d == differing_below(self@, other@, i as nat),
                d == 0 <==> forall|k: int| 0 <= k < i ==> self@[k] == other@[k],
            decreases n - i,
        {
            if !self.strokes[i].same(&other.strokes[i]) {
                d += 1;
                assert(self@[i as int] != other@[i as int]);
            }
            i += 1;
        }
        assert(self@.len() == other@.len() && d == 0 ==> self@ =~= other@);
        d
    }
}

impl Clone for Individual {
    /// A painting of its own that holds what this one holds.
    fn clone(&self) -> (r: Individual)
        ensures
            r@ == self@,
    {
        let mut strokes: Vec<Stroke> = Vec::new();
        let mut i: usize = 0;
        while i < self.strokes.len()
            invariant
                i <= self.strokes.len(),
                views(strokes@) == self@.take(i as int),
            decreases self.strokes.len() - i,
        {
            let ghost before = strokes@;
            strokes.push(self.strokes[i].clone());
            assert(views(strokes@) =~= views(before).push(self.strokes@[i as int]@));
            assert(views(strokes@) =~= self@.take(i as int + 1));
            i += 1;
        }
        assert(self@.take(self.strokes.len() as int) =~= self@);
        Individual { strokes }
    }
}

} // verus!
