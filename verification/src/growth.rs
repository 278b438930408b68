//! How the skeleton of a stroke grows, hop by hop.
//!
//! Two chains leave the seed in opposite directions and are extended in
//! turn. A chain ends for good when the colour under a hop differs too much
//! from the colour of the stroke. A hop that lands outside of the fields is
//! always taken: there is no colour to compare with. Growth is over when
//! both chains have ended, or when the two chains together are as long as
//! the skeleton was meant to be.

use crate::binary32::exceeds;
use crate::binary32::INFINITY;
use crate::binary32::is_finite;
use crate::binary32::is_magnitude;
use crate::binary32::less;
use crate::binary32::magnitude;
use crate::binary32::value;
use crate::bounds::is_target;
use crate::bounds::is_thickness;
use crate::bounds::lemma_thickness;
use crate::bounds::thick_enough;
use crate::color::OPAQUE;
use crate::color::Rgb;
use crate::color::Rgba;
use crate::error::EngineError;
use crate::geometry::PixelPos;
use crate::geometry::Point;
use crate::guidance::Direction;
use crate::guidance::FieldsView;
use crate::guidance::GuidanceFields;
use crate::perception::color_difference;
use crate::perception::difference_bits;
use crate::stroke::chains_finite;
use crate::stroke::chains_wf;
use crate::stroke::skeleton_of;
use crate::stroke::Stroke;
use crate::stroke::StrokeView;
use vstd::prelude::*;

verus! {

/// One of the two chains of a growing skeleton.
#[derive(Clone, Copy, Debug, PartialEq, Eq, Structural)]
pub enum Side {
    Forward,
    Backward,
}

/// A hop that is offered to a chain: where it lands, and how far the colour
/// there may differ from the colour of the stroke.
#[derive(Clone, Copy, Debug, PartialEq, Eq, Structural)]
pub struct Hop {
    pub point: Point,
    pub threshold: u32,
}

/// What a growing stroke holds.
pub struct GrowthView {
    pub pos: PixelPos,
    pub color: Rgb,
    pub thickness: u32,
    /// The length that the skeleton is meant to reach.
    pub target: u32,
    pub importance: u8,
    pub forward: Seq<Point>,
    pub backward: Seq<Point>,
    pub forward_ended: bool,
    pub backward_ended: bool,
}

/// A stroke whose skeleton is still growing.
pub struct StrokeGrowth {
    pos: PixelPos,
    color: Rgb,
    thickness: u32,
    target: u32,
    importance: u8,
    forward: Vec<Point>,
    backward: Vec<Point>,
    forward_ended: bool,
    backward_ended: bool,
}

impl GrowthView {
    /// The two chains make a skeleton of finite points, the thickness is a
    /// finite number that is not less than the least thickness, and the
    /// length to reach is a finite number that is not less than the
    /// thickness.
    pub open spec fn wf(self) -> bool {
        &&& chains_wf(self.forward, self.backward)
        &&& chains_finite(self.forward, self.backward)
        &&& is_thickness(self.thickness)
        &&& is_target(self.target, self.thickness)
    }

    /// The growth is that of a stroke seeded at pixel `index` of the fields:
    /// its chains start at the centre of that pixel, and it has the colour
    /// and the importance of that pixel.
    pub open spec fn seeded(self, fields: FieldsView, index: int) -> bool {
        &&& 0 <= index < fields.size()
        &&& self.pos == fields.position(index)
        &&& self.forward[0].is_centre_of(self.pos)
        &&& self.color == fields.color[index]
        &&& self.importance == fields.importance[index]
    }

    /// How far the colour under `hop` is from the colour of the stroke, or
    /// `None` where the hop lands outside of the fields.
    pub open spec fn difference_under(self, fields: FieldsView, hop: Point) -> Option<u32> {
        match fields.color_at(hop) {
            Some(under) => Some(difference_bits(self.color, under)),
            None => None,
        }
    }

    /// The points of one chain, the seed first.
    pub open spec fn chain(self, side: Side) -> Seq<Point> {
        match side {
            Side::Forward => self.forward,
            Side::Backward => self.backward,
        }
    }

    /// Whether one chain has ended.
    pub open spec fn ended(self, side: Side) -> bool {
        match side {
            Side::Forward => self.forward_ended,
            Side::Backward => self.backward_ended,
        }
    }

    /// The growth with `hop` at the end of one chain.
    pub open spec fn with_hop(self, side: Side, hop: Point) -> GrowthView {
        match side {
            Side::Forward => GrowthView { forward: self.forward.push(hop), ..self },
            Side::Backward => GrowthView { backward: self.backward.push(hop), ..self },
        }
    }

    /// The growth with one chain ended.
    pub open spec fn with_end(self, side: Side) -> GrowthView {
        match side {
            Side::Forward => GrowthView { forward_ended: true, ..self },
            Side::Backward => GrowthView { backward_ended: true, ..self },
        }
    }

    /// What offering `hop` to one chain leads to: the growth afterwards, and
    /// whether the chain has ended, or the error.
    ///
    /// `difference` is how far the colour under the hop is from the colour of
    /// the stroke, or `None` where the hop lands outside of the fields;
    /// `threshold` is how far it may be. A chain that has ended stays as it
    /// is. Else the hop must be a finite point. A hop outside of the fields
    /// is taken. Else both numbers must be finite and not negative; the
    /// chain ends where the difference is above the threshold, and takes the
    /// hop where it is not.
    pub open spec fn offer(
        self,
        side: Side,
        hop: Point,
        difference: Option<u32>,
        threshold: u32,
    ) -> (GrowthView, Result<bool, EngineError>) {
        if self.ended(side) {
            (self, Ok(true))
        } else if !hop.is_finite() {
            (self, Err(EngineError::NumericInstability))
        } else {
            match difference {
                None => (self.with_hop(side, hop), Ok(false)),
                Some(d) => if !is_magnitude(d) || !is_magnitude(threshold) {
                    (self, Err(EngineError::NumericInstability))
                } else if magnitude(d) > magnitude(threshold) {
                    (self.with_end(side), Ok(true))
                } else {
                    (self.with_hop(side, hop), Ok(false))
                },
            }
        }
    }

    /// What one step of growth leads to, in which a hop is offered to the
    /// forward chain and then one to the backward chain: the growth
    /// afterwards, and whether both chains have ended, or the first error.
    /// After an error of the forward chain nothing is offered to the
    /// backward chain.
    pub open spec fn offer_both(
        self,
        forward: Hop,
        forward_difference: Option<u32>,
        backward: Hop,
        backward_difference: Option<u32>,
    ) -> (GrowthView, Result<bool, EngineError>) {
        let first = self.offer(Side::Forward, forward.point, forward_difference, forward.threshold);
        match first.1 {
            Err(e) => (first.0, Err(e)),
            Ok(forward_ended) => {
                let second = first.0.offer(
                    Side::Backward,
                    backward.point,
                    backward_difference,
                    backward.threshold,
                );
                match second.1 {
                    Err(e) => (second.0, Err(e)),
                    Ok(backward_ended) => (second.0, Ok(forward_ended && backward_ended)),
                }
            },
        }
    }

    /// Growth is over: the two chains together, `grown` long, are as long
    /// as the skeleton was meant to be, or both chains have ended.
    pub open spec fn complete(self, grown: u32) -> bool {
        value(grown) >= value(self.target) || (self.forward_ended && self.backward_ended)
    }

    /// The stroke that the growth has made so far.
    pub open spec fn stroke(self) -> StrokeView {
        StrokeView {
            pos: self.pos,
            color: Rgba { r: self.color.r, g: self.color.g, b: self.color.b, a: OPAQUE },
            skeleton: skeleton_of(self.forward, self.backward),
            thickness: self.thickness,
            importance: self.importance,
        }
    }
}

/// Whatever is offered, the chains still make a skeleton, and no point that
/// a chain held is lost or moved.
pub proof fn lemma_offer_keeps_chains(
    g: GrowthView,
    side: Side,
    hop: Point,
    difference: Option<u32>,
    threshold: u32,
)
    requires
        g.wf(),
    ensures
        g.offer(side, hop, difference, threshold).0.wf(),
        g.forward.is_prefix_of(g.offer(side, hop, difference, threshold).0.forward),
        g.backward.is_prefix_of(g.offer(side, hop, difference, threshold).0.backward),
        g.forward_ended ==> g.offer(side, hop, difference, threshold).0.forward_ended,
        g.backward_ended ==> g.offer(side, hop, difference, threshold).0.backward_ended,
{
}

impl View for StrokeGrowth {
    type V = GrowthView;

    closed spec fn view(&self) -> GrowthView {
        GrowthView {
            pos: self.pos,
            color: self.color,
            thickness: self.thickness,
            target: self.target,
            importance: self.importance,
            forward: self.forward@,
            backward: self.backward@,
            forward_ended: self.forward_ended,
            backward_ended: self.backward_ended,
        }
    }
}

impl StrokeGrowth {
    /// Starts a stroke at pixel `index` of `fields`, `thickness` thick and
    /// meant to grow `target` long: both chains start at the centre of that
    /// pixel, and each has made its first hop.
    ///
    /// It is refused with `InputMismatch` where the fields have no such
    /// pixel or the pixel has no centre, and else with `NumericInstability`
    /// where a first hop is no finite point, the thickness is no finite
    /// number of at least `THICKNESS_MIN`, or the length to reach is no
    /// finite number of at least the thickness.
    pub fn begin(
        index: usize,
        fields: &GuidanceFields,
        thickness: u32,
        target: u32,
        first_forward: Point,
        first_backward: Point,
    ) -> (r: Result<StrokeGrowth, EngineError>)
        ensures
            !(index < fields@.size() && fields@.position(index as int).has_centre()) ==> r
                == Err::<StrokeGrowth, EngineError>(EngineError::InputMismatch),
            index < fields@.size() && fields@.position(index as int).has_centre() && !(
            is_thickness(thickness) && is_target(target, thickness) && first_forward.is_finite()
                && first_backward.is_finite()) ==> r == Err::<StrokeGrowth, EngineError>(
                EngineError::NumericInstability,
            ),
            index < fields@.size() && fields@.position(index as int).has_centre() && is_thickness(
                thickness,
            ) && is_target(target, thickness) && first_forward.is_finite()
                && first_backward.is_finite() ==> r is Ok,
            r matches Ok(g) ==> g@.wf() && g@.seeded(fields@, index as int) && g@ == (GrowthView {
                pos: fields@.position(index as int),
                color: fields@.color[index as int],
                thickness,
                target,
                importance: fields@.importance[index as int],
                forward: seq![g@.forward[0], first_forward],
                backward: seq![g@.forward[0], first_backward],
                forward_ended: false,
                backward_ended: false,
            }),
    {
        let pos = match fields.position(index) {
            Some(p) => p,
            None => {
                return Err(EngineError::InputMismatch);
            },
        };
        let seed = match pos.centre() {
            Some(p) => p,
            None => {
                return Err(EngineError::InputMismatch);
            },
        };
        if !thick_enough(thickness) || target < thickness || target >= INFINITY
            || !first_forward.finite() || !first_backward.finite() {
            return Err(EngineError::NumericInstability);
        }
        let color = match fields.color(index) {
            Some(c) => c,
            None => {
                return Err(EngineError::InputMismatch);
            },
        };
        let importance = match fields.importance(index) {
            Some(w) => w,
            None => {
                return Err(EngineError::InputMismatch);
            },
        };
        let mut forward: Vec<Point> = Vec::new();
        forward.push(seed);
        forward.push(first_forward);
        let mut backward: Vec<Point> = Vec::new();
        backward.push(seed);
        backward.push(first_backward);
        assert(forward@ =~= seq![seed, first_forward]);
        assert(backward@ =~= seq![seed, first_backward]);
        Ok(
            StrokeGrowth {
                pos,
                color,
                thickness,
                target,
                importance,
                forward,
                backward,
                forward_ended: false,
                backward_ended: false,
            },
        )
    }

    /// The last point of one chain, and the point before it.
    pub fn tip(&self, side: Side) -> (r: (Point, Point))
        requires
            self@.wf(),
        ensures
            r.0 == self@.chain(side).last(),
            r.1 == self@.chain(side)[self@.chain(side).len() - 2],
    {
        match side {
            Side::Forward => (
                self.forward[self.forward.len() - 1],
                self.forward[self.forward.len() - 2],
            ),
            Side::Backward => (
                self.backward[self.backward.len() - 1],
                self.backward[self.backward.len() - 2],
            ),
        }
    }

    /// The direction of flow under the last point of one chain. There is
    /// none where that point lies outside of the fields: the chain then keeps
    /// its own heading.
    pub fn heading(&self, fields: &GuidanceFields, side: Side) -> (d: Option<Direction>)
        requires
            self@.wf(),
        ensures
            d == fields@.direction_at(self@.chain(side).last()),
    {
        let (last, _) = self.tip(side);
        fields.direction_at(last)
    }

    /// The points of one chain, the seed first.
    pub fn chain(&self, side: Side) -> (points: &Vec<Point>)
        ensures
            points@ == self@.chain(side),
    {
        match side {
            Side::Forward => &self.forward,
            Side::Backward => &self.backward,
        }
    }

    /// Whether one chain has ended.
    pub fn ended(&self, side: Side) -> (r: bool)
        ensures
            r == self@.ended(side),
    {
        match side {
            Side::Forward => self.forward_ended,
            Side::Backward => self.backward_ended,
        }
    }

    /// Offers `hop` to one chain, given how far the colour under the hop is
    /// from the colour of the stroke (`None` for a hop outside of the fields)
    /// and how far it may be.
    pub fn decide(&mut self, side: Side, hop: Point, difference: Option<u32>, threshold: u32) -> (r:
        Result<bool, EngineError>)
        requires
            old(self)@.wf(),
        ensures
            (final(self)@, r) == old(self)@.offer(side, hop, difference, threshold),
            final(self)@.wf(),
    {
        if self.ended(side) {
            return Ok(true);
        }
        if !hop.finite() {
            return Err(EngineError::NumericInstability);
        }
        let take = match difference {
            None => true,
            Some(d) => match exceeds(d, threshold) {
                None => {
                    return Err(EngineError::NumericInstability);
                },
                Some(too_far) => !too_far,
            },
        };
        match side {
            Side::Forward => {
                if take {
                    self.forward.push(hop);
                } else {
                    self.forward_ended = true;
                }
            },
            Side::Backward => {
                if take {
                    self.backward.push(hop);
                } else {
                    self.backward_ended = true;
                }
            },
        }
        Ok(!take)
    }

    /// Offers `hop` to one chain: the colour under the hop is looked up in
    /// `fields` and compared with the colour of the stroke, and the chain
    /// ends where they differ by more than `threshold`.
    pub fn extend(&mut self, fields: &GuidanceFields, side: Side, hop: Point, threshold: u32) -> (r:
        Result<bool, EngineError>)
        requires
            old(self)@.wf(),
        ensures
            final(self)@.wf(),
            (final(self)@, r) == old(self)@.offer(
                side,
                hop,
                old(self)@.difference_under(fields@, hop),
                threshold,
            ),
    {
        if self.ended(side) {
            return Ok(true);
        }
        if !hop.finite() {
            return Err(EngineError::NumericInstability);
        }
        let difference = match fields.color_at(hop) {
            Some(under) => Some(color_difference(self.color, under)),
            None => None,
        };
        self.decide(side, hop, difference, threshold)
    }

    /// One step of growth: both chains are offered a hop, the forward chain
    /// first, each as `extend` offers it. The result says whether both
    /// chains have ended. After an error of the forward chain nothing is
    /// offered to the backward chain.
    pub fn advance(&mut self, fields: &GuidanceFields, forward: Hop, backward: Hop) -> (r: Result<
        bool,
        EngineError,
    >)
        requires
            old(self)@.wf(),
        ensures
            final(self)@.wf(),
            (final(self)@, r) == old(self)@.offer_both(
                forward,
                old(self)@.difference_under(fields@, forward.point),
                backward,
                old(self)@.difference_under(fields@, backward.point),
            ),
    {
        let forward_ended = match self.extend(
            fields,
            Side::Forward,
            forward.point,
            forward.threshold,
        ) {
            Ok(ended) => ended,
            Err(e) => {
                return Err(e);
            },
        };
        match self.extend(fields, Side::Backward, backward.point, backward.threshold) {
            Ok(backward_ended) => Ok(forward_ended && backward_ended),
            Err(e) => Err(e),
        }
    }

    /// Whether growth is over, where the two chains together are `grown`
    /// long. A length that is no finite number is unstable.
    pub fn is_complete(&self, grown: u32) -> (r: Result<bool, EngineError>)
        requires
            self@.wf(),
        ensures
            r is Ok <==> is_finite(grown),
            r is Err ==> r == Err::<bool, EngineError>(EngineError::NumericInstability),
            r matches Ok(over) ==> over == self@.complete(grown),
    {
        proof {
            lemma_thickness(self.thickness, self.target);
        }
        match less(grown, self.target) {
            Some(short) => Ok(!short || (self.forward_ended && self.backward_ended)),
            None => Err(EngineError::NumericInstability),
        }
    }

    /// The stroke that has grown.
    pub fn finish(self) -> (s: Stroke)
        requires
            self@.wf(),
        ensures
            s@ == self@.stroke(),
            s@.wf(),
    {
        Stroke::from_parts(
            self.pos,
            self.color,
            self.thickness,
            self.importance,
            &self.forward,
            &self.backward,
        )
    }
}

} // verus!
