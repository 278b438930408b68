//! One brush stroke: paint of one colour and one thickness along a
//! skeleton, a chain of points through the centre of the seed pixel.
//!
//! A skeleton is made of two chains that both start at the seed and leave it
//! in opposite directions.

use crate::bounds::is_thickness;
use crate::bounds::thick_enough;
use crate::color::OPAQUE;
use crate::color::Rgb;
use crate::color::Rgba;
use crate::error::EngineError;
use crate::geometry::all_finite;
use crate::geometry::finite_points;
use crate::geometry::lemma_one_centre;
use crate::geometry::PixelPos;
use crate::geometry::Point;
use crate::guidance::FieldsView;
use crate::guidance::GuidanceFields;
use vstd::prelude::*;

verus! {

/// What a stroke holds.
pub struct StrokeView {
    pub pos: PixelPos,
    pub color: Rgba,
    pub skeleton: Seq<Point>,
    pub thickness: u32,
    pub importance: u8,
}

/// One brush stroke. It is never changed once it is made.
#[derive(Debug)]
pub struct Stroke {
    pos: PixelPos,
    color: Rgba,
    hopping_point: Vec<Point>,
    thickness: u32,
    importance: u8,
}

/// The skeleton that two chains make: the backward chain without the seed,
/// last point first, and then the forward chain from the seed on.
pub open spec fn skeleton_of(forward: Seq<Point>, backward: Seq<Point>) -> Seq<Point> {
    backward.skip(1).reverse() + forward
}

/// The two chains can make a skeleton: each holds the seed and at least one
/// hop, and the seed is the same in both.
pub open spec fn chains_wf(forward: Seq<Point>, backward: Seq<Point>) -> bool {
    &&& forward.len() >= 2
    &&& backward.len() >= 2
    &&& forward[0] == backward[0]
}

/// Every point of both chains is finite.
pub open spec fn chains_finite(forward: Seq<Point>, backward: Seq<Point>) -> bool {
    all_finite(forward) && all_finite(backward)
}

/// No hop of the chain lands on the point that the chain starts at.
pub open spec fn leaves_seed(chain: Seq<Point>) -> bool {
    forall|i: int| 1 <= i < chain.len() ==> #[trigger] chain[i] != chain[0]
}

/// The two chains make a skeleton that is seeded at pixel `index` of the
/// fields: they start at the centre of that pixel.
pub open spec fn seeded_at(
    fields: FieldsView,
    index: int,
    forward: Seq<Point>,
    backward: Seq<Point>,
) -> bool {
    &&& 0 <= index < fields.size()
    &&& chains_wf(forward, backward)
    &&& forward[0].is_centre_of(fields.position(index))
}

/// A skeleton runs through its seed: it has the seed, at least one point
/// before it and one after it, and the seed stands where the two chains meet.
/// Where no hop of either chain lands on the seed again, the seed stands
/// nowhere else.
pub proof fn lemma_skeleton_through_seed(forward: Seq<Point>, backward: Seq<Point>)
    requires
        chains_wf(forward, backward),
    ensures
        skeleton_of(forward, backward).len() == forward.len() + backward.len() - 1,
        skeleton_of(forward, backward).len() >= 3,
        skeleton_of(forward, backward)[backward.len() - 1] == forward[0],
        chains_finite(forward, backward) ==> all_finite(skeleton_of(forward, backward)),
        leaves_seed(forward) && leaves_seed(backward) ==> (forall|k: int|
            0 <= k < skeleton_of(forward, backward).len() ==> (#[trigger] skeleton_of(
                forward,
                backward,
            )[k] == forward[0] <==> k == backward.len() - 1)),
{
    let s = skeleton_of(forward, backward);
    let n = backward.len() - 1;
    assert forall|k: int| 0 <= k < s.len() implies #[trigger] s[k] == (if k < n {
        backward[n - k]
    } else {
        forward[k - n]
    }) by {
        if k < n {
            assert(backward.skip(1).reverse()[k] == backward.skip(1)[n - 1 - k]);
        }
    }
    if chains_finite(forward, backward) {
        assert forall|k: int| 0 <= k < s.len() implies (#[trigger] s[k]).is_finite() by {
            if k < n {
                assert(s[k] == backward[n - k]);
            } else {
                assert(s[k] == forward[k - n]);
            }
        }
    }
}

impl View for Stroke {
    type V = StrokeView;

    closed spec fn view(&self) -> StrokeView {
        StrokeView {
            pos: self.pos,
            color: self.color,
            skeleton: self.hopping_point@,
            thickness: self.thickness,
            importance: self.importance,
        }
    }
}

impl StrokeView {
    /// The skeleton has a point before and after its seed, all its points
    /// are finite, the paint is opaque, and the thickness is a finite number
    /// that is not less than the least thickness.
    pub open spec fn wf(self) -> bool {
        &&& self.skeleton.len() >= 3
        &&& all_finite(self.skeleton)
        &&& self.color.a == OPAQUE
        &&& is_thickness(self.thickness)
    }
}

/// Copies a chain of points.
fn copy_points(points: &Vec<Point>) -> (r: Vec<Point>)
    ensures
        r@ == points@,
{
    let mut r: Vec<Point> = Vec::new();
    let mut i: usize = 0;
    while i < points.len()
        invariant
            i <= points.len(),
            r@ == points@.take(i as int),
        decreases points.len() - i,
    {
        r.push(points[i]);
        assert(r@ =~= points@.take(i as int + 1));
        i += 1;
    }
    assert(points@.take(points.len() as int) =~= points@);
    r
}

/// Whether two chains hold the same points.
fn same_points(a: &Vec<Point>, b: &Vec<Point>) -> (r: bool)
    ensures
        r == (a@ == b@),
{
    if a.len() != b.len() {
        return false;
    }
    let mut i: usize = 0;
    while i < a.len()
        invariant
            a.len() == b.len(),
            i <= a.len(),
            a@.take(i as int) == b@.take(i as int),
        decreases a.len() - i,
    {
        if a[i] != b[i] {
            return false;
        }
        assert(a@.take(i as int + 1) =~= a@.take(i as int).push(a@[i as int]));
        assert(b@.take(i as int + 1) =~= b@.take(i as int).push(b@[i as int]));
        i += 1;
    }
    assert(a@.take(a.len() as int) =~= a@);
    assert(b@.take(b.len() as int) =~= b@);
    true
}

/// The skeleton that two chains make.
fn assemble(forward: &Vec<Point>, backward: &Vec<Point>) -> (skeleton: Vec<Point>)
    requires
        chains_wf(forward@, backward@),
    ensures
        skeleton@ == skeleton_of(forward@, backward@),
        skeleton@.len() >= 3,
        chains_finite(forward@, backward@) ==> all_finite(skeleton@),
{
    let mut skeleton: Vec<Point> = Vec::new();
    let mut i: usize = backward.len() - 1;
    while i > 0
        invariant
            i < backward.len(),
            skeleton@ == backward@.skip(1).reverse().take(backward.len() - 1 - i),
        decreases i,
    {
        skeleton.push(backward[i]);
        assert(skeleton@ =~= backward@.skip(1).reverse().take(backward.len() - i));
        i -= 1;
    }
    assert(skeleton@ =~= backward@.skip(1).reverse());
    let mut j: usize = 0;
    while j < forward.len()
        invariant
            j <= forward.len(),
            skeleton@ == backward@.skip(1).reverse() + forward@.take(j as int),
        decreases forward.len() - j,
    {
        skeleton.push(forward[j]);
        assert(skeleton@ =~= backward@.skip(1).reverse() + forward@.take(j as int + 1));
        j += 1;
    }
    assert(forward@.take(forward.len() as int) =~= forward@);
    proof {
        lemma_skeleton_through_seed(forward@, backward@);
    }
    skeleton
}

impl Stroke {
    #[verifier::type_invariant]
    spec fn inv(&self) -> bool {
        self@.wf()
    }

    /// The stroke of the given parts.
    pub(crate) fn from_parts(
        pos: PixelPos,
        color: Rgb,
        thickness: u32,
        importance: u8,
        forward: &Vec<Point>,
        backward: &Vec<Point>,
    ) -> (s: Stroke)
        requires
            chains_wf(forward@, backward@),
            chains_finite(forward@, backward@),
            is_thickness(thickness),
        ensures
            s@.wf(),
            s@ == (StrokeView {
                pos,
                color: Rgba { r: color.r, g: color.g, b: color.b, a: OPAQUE },
                skeleton: skeleton_of(forward@, backward@),
                thickness,
                importance,
            }),
    {
        Stroke {
            pos,
            color: color.opaque(),
            hopping_point: assemble(forward, backward),
            thickness,
            importance,
        }
    }

    /// The stroke seeded at pixel `index` of `fields`, `thickness` thick,
    /// with the skeleton that the chains `forward` and `backward` make. Its
    /// colour is the colour of the seed pixel, fully opaque, and its
    /// importance that of the seed pixel.
    ///
    /// It is refused with `InputMismatch` where the fields have no such
    /// pixel, the chains make no skeleton or they do not start at the centre
    /// of the seed pixel, and else with `NumericInstability` where a point of
    /// the chains is not finite or the thickness is no finite number of at
    /// least `THICKNESS_MIN`.
    pub fn new(
        index: usize,
        fields: &GuidanceFields,
        thickness: u32,
        forward: Vec<Point>,
        backward: Vec<Point>,
    ) -> (r: Result<Stroke, EngineError>)
        ensures
            !seeded_at(fields@, index as int, forward@, backward@) ==> r == Err::<
                Stroke,
                EngineError,
            >(EngineError::InputMismatch),
            seeded_at(fields@, index as int, forward@, backward@) && !(is_thickness(thickness)
                && chains_finite(forward@, backward@)) ==> r == Err::<Stroke, EngineError>(
                EngineError::NumericInstability,
            ),
            seeded_at(fields@, index as int, forward@, backward@) && is_thickness(thickness)
                && chains_finite(forward@, backward@) ==> r is Ok,
            r matches Ok(s) ==> s@.wf() && s@ == (StrokeView {
                pos: fields@.position(index as int),
                color: Rgba {
                    r: fields@.color[index as int].r,
                    g: fields@.color[index as int].g,
                    b: fields@.color[index as int].b,
                    a: OPAQUE,
                },
                skeleton: skeleton_of(forward@, backward@),
                thickness,
                importance: fields@.importance[index as int],
            }),
    {
        let pos = match fields.position(index) {
            Some(p) => p,
            None => {
                return Err(EngineError::InputMismatch);
            },
        };
        if forward.len() < 2 || backward.len() < 2 || forward[0] != backward[0] {
            return Err(EngineError::InputMismatch);
        }
        match pos.centre() {
            Some(centre) => {
                proof {
                    if forward@[0].is_centre_of(pos) {
                        lemma_one_centre(forward@[0], centre, pos);
                    }
                }
                if forward[0] != centre {
                    return Err(EngineError::InputMismatch);
                }
            },
            None => {
                return Err(EngineError::InputMismatch);
            },
        }
        if !thick_enough(thickness) || !finite_points(&forward) || !finite_points(&backward) {
            return Err(EngineError::NumericInstability);
        }
        let color = match fields.color(index) {
            Some(c) => c,
            None => {
                return Err(EngineError::InputMismatch);
            },
        };
        let importance = match fields.importance(index) {
            Some(w) => w,
            None => {
                return Err(EngineError::InputMismatch);
            },
        };
        Ok(Stroke::from_parts(pos, color, thickness, importance, &forward, &backward))
    }

    /// The seed pixel.
    pub fn pos(&self) -> (p: PixelPos)
        ensures
            p == self@.pos,
            self@.wf(),
    {
        proof {
            use_type_invariant(self);
        }
        self.pos
    }

    /// The paint.
    pub fn color(&self) -> (c: Rgba)
        ensures
            c == self@.color,
            self@.wf(),
    {
        proof {
            use_type_invariant(self);
        }
        self.color
    }

    /// The skeleton.
    pub fn hopping_point(&self) -> (points: &Vec<Point>)
        ensures
            points@ == self@.skeleton,
            self@.wf(),
    {
        proof {
            use_type_invariant(self);
        }
        &self.hopping_point
    }

    /// The thickness, as the bit pattern of a single precision number.
    pub fn thickness(&self) -> (t: u32)
        ensures
            t == self@.thickness,
            self@.wf(),
    {
        proof {
            use_type_invariant(self);
        }
        self.thickness
    }

    /// The importance of the seed pixel.
    pub fn importance(&self) -> (w: u8)
        ensures
            w == self@.importance,
            self@.wf(),
    {
        proof {
            use_type_invariant(self);
        }
        self.importance
    }

    /// Whether two strokes hold the same.
    pub fn same(&self, other: &Stroke) -> (r: bool)
        ensures
            r == (self@ == other@),
    {
        self.pos == other.pos && self.color == other.color && self.thickness == other.thickness
            && self.importance == other.importance && same_points(
            &self.hopping_point,
            &other.hopping_point,
        )
    }
}

impl Clone for Stroke {
    /// A stroke that holds what this one holds.
    fn clone(&self) -> (s: Stroke)
        ensures
            s@ == self@,
    {
        proof {
            use_type_invariant(self);
        }
        Stroke {
            pos: self.pos,
            color: self.color,
            hopping_point: copy_points(&self.hopping_point),
            thickness: self.thickness,
            importance: self.importance,
        }
    }
}

} // verus!
