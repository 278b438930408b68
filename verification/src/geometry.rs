//! Points of the plane of the picture.

use crate::binary32::finite;
use crate::binary32::from_whole;
use crate::binary32::is_finite;
use crate::binary32::is_magnitude;
use crate::binary32::lemma_magnitude_is_finite;
use crate::binary32::lemma_magnitude_order;
use crate::binary32::magnitude;
use crate::binary32::nearest;
use crate::binary32::nearest_whole;
use crate::binary32::WHOLE_END;
use crate::binary32::WHOLE_PATTERNS_END;
use vstd::arithmetic::power2::pow2;
use vstd::prelude::*;

verus! {

/// A point, each coordinate as the bit pattern of a single precision number.
/// Pixel `(x, y)` has its centre at the point `(x, y)`.
#[derive(Clone, Copy, Debug, PartialEq, Eq, Structural)]
pub struct Point {
    pub x: u32,
    pub y: u32,
}

/// A pixel, by its column `x` and its row `y`.
#[derive(Clone, Copy, Debug, PartialEq, Eq, Structural)]
pub struct PixelPos {
    pub x: u32,
    pub y: u32,
}

impl PixelPos {
    /// The pixel has a centre that a point can name: its column and its row
    /// are below 2^24.
    pub open spec fn has_centre(self) -> bool {
        self.x < WHOLE_PATTERNS_END && self.y < WHOLE_PATTERNS_END
    }

    /// The centre of the pixel, where it has one.
    pub fn centre(self) -> (r: Option<Point>)
        ensures
            r is Some <==> self.has_centre(),
            r matches Some(p) ==> p.is_centre_of(self) && p.is_finite() && p.column() == self.x
                && p.row() == self.y,
    {
        match from_whole(self.x) {
            Some(x) => match from_whole(self.y) {
                Some(y) => {
                    proof {
                        lemma_magnitude_is_finite(x);
                        lemma_magnitude_is_finite(y);
                    }
                    Some(Point { x, y })
                },
                None => None,
            },
            None => None,
        }
    }
}

/// Every point of a chain is finite.
pub open spec fn all_finite(points: Seq<Point>) -> bool {
    forall|i: int| 0 <= i < points.len() ==> (#[trigger] points[i]).is_finite()
}

/// Whether every point of a chain is finite.
pub fn finite_points(points: &Vec<Point>) -> (r: bool)
    ensures
        r == all_finite(points@),
{
    let mut i: usize = 0;
    while i < points.len()
        invariant
            i <= points.len(),
            forall|k: int| 0 <= k < i ==> (#[trigger] points@[k]).is_finite(),
        decreases points.len() - i,
    {
        if !points[i].finite() {
            return false;
        }
        i += 1;
    }
    true
}

/// A pixel has one centre only.
pub proof fn lemma_one_centre(p: Point, q: Point, pos: PixelPos)
    requires
        p.is_centre_of(pos),
        q.is_centre_of(pos),
    ensures
        p == q,
{
    lemma_magnitude_order(p.x, q.x);
    lemma_magnitude_order(p.y, q.y);
}

impl Point {
    /// The point is the centre of the pixel: its coordinates are the column
    /// and the row.
    pub open spec fn is_centre_of(self, pos: PixelPos) -> bool {
        &&& pos.has_centre()
        &&& is_magnitude(self.x)
        &&& is_magnitude(self.y)
        &&& magnitude(self.x) == pos.x * pow2(149)
        &&& magnitude(self.y) == pos.y * pow2(149)
    }

    /// Both coordinates are finite numbers.
    pub open spec fn is_finite(self) -> bool {
        is_finite(self.x) && is_finite(self.y)
    }

    /// The column of the pixel whose centre is nearest to a finite point.
    pub open spec fn column(self) -> int {
        nearest(self.x)
    }

    /// The row of the pixel whose centre is nearest to a finite point.
    pub open spec fn row(self) -> int {
        nearest(self.y)
    }

    /// Whether both coordinates are finite numbers.
    pub fn finite(self) -> (r: bool)
        ensures
            r == self.is_finite(),
    {
        finite(self.x) && finite(self.y)
    }

    /// The column and the row of the nearest pixel, where the point is
    /// finite and both lie between -2^40 and 2^40.
    pub fn pixel(self) -> (r: Option<(i64, i64)>)
        ensures
            r is Some <==> self.is_finite() && -WHOLE_END < self.column() < WHOLE_END && -WHOLE_END
                < self.row() < WHOLE_END,
            r matches Some(p) ==> p.0 == self.column() && p.1 == self.row(),
    {
        match nearest_whole(self.x) {
            Some(x) => match nearest_whole(self.y) {
                Some(y) => Some((x, y)),
                None => None,
            },
            None => None,
        }
    }
}

} // verus!
