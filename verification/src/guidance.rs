//! The guidance fields: for every pixel the colour to reach, the direction of
//! flow and the importance. They are made once and never changed.

use crate::color::Rgb;
use crate::error::EngineError;
use crate::geometry::PixelPos;
use crate::geometry::Point;
use vstd::arithmetic::div_mod::lemma_fundamental_div_mod;
use vstd::arithmetic::div_mod::lemma_fundamental_div_mod_converse;
use vstd::prelude::*;

verus! {

/// A direction of flow as a direction map encodes it: the byte `b` of a
/// channel stands for the coordinate `2b/255 - 1`.
#[derive(Clone, Copy, Debug, PartialEq, Eq, Structural)]
pub struct Direction {
    pub x: u8,
    pub y: u8,
}

/// Three fields of one size. Pixel `(x, y)` has the index `y * width + x` in each.
pub struct GuidanceFields {
    width: u32,
    height: u32,
    color: Vec<Rgb>,
    direction: Vec<Direction>,
    importance: Vec<u8>,
}

/// What guidance fields hold.
pub struct FieldsView {
    pub width: int,
    pub height: int,
    pub color: Seq<Rgb>,
    pub direction: Seq<Direction>,
    pub importance: Seq<u8>,
}

impl FieldsView {
    /// The number of pixels.
    pub open spec fn size(self) -> int {
        self.width * self.height
    }

    /// The three fields have the dimensions that the value records.
    pub open spec fn wf(self) -> bool {
        &&& 0 <= self.width <= u32::MAX
        &&& 0 <= self.height <= u32::MAX
        &&& self.size() <= usize::MAX
        &&& self.color.len() == self.size()
        &&& self.direction.len() == self.size()
        &&& self.importance.len() == self.size()
    }

    /// The index of the pixel in column `x` and row `y`, or `None` where the
    /// fields have no such pixel.
    pub open spec fn index_of(self, x: int, y: int) -> Option<int> {
        if 0 <= x < self.width && 0 <= y < self.height {
            Some(y * self.width + x)
        } else {
            None
        }
    }

    /// The column and the row of pixel `index`.
    pub open spec fn position(self, index: int) -> PixelPos {
        PixelPos { x: (index % self.width) as u32, y: (index / self.width) as u32 }
    }

    /// The index of the pixel nearest to `p`, or `None` where `p` lies
    /// outside of the fields or is no finite point.
    pub open spec fn index_at(self, p: Point) -> Option<int> {
        if p.is_finite() {
            self.index_of(p.column(), p.row())
        } else {
            None
        }
    }

    /// The colour to reach at `p`, where `p` lies inside the fields.
    pub open spec fn color_at(self, p: Point) -> Option<Rgb> {
        match self.index_at(p) {
            Some(i) => Some(self.color[i]),
            None => None,
        }
    }

    /// The direction of flow at `p`, where `p` lies inside the fields.
    pub open spec fn direction_at(self, p: Point) -> Option<Direction> {
        match self.index_at(p) {
            Some(i) => Some(self.direction[i]),
            None => None,
        }
    }
}

/// Every pixel inside the fields has an index below their size, and two
/// different pixels have different indices.
pub proof fn lemma_index_of(f: FieldsView, x: int, y: int)
    requires
        f.wf(),
        f.index_of(x, y) is Some,
    ensures
        0 <= f.index_of(x, y)->0 < f.size(),
        f.index_of(x, y)->0 % f.width == x,
        f.index_of(x, y)->0 / f.width == y,
{
    let w = f.width;
    let h = f.height;
    assert(y * w + x < h * w) by (nonlinear_arith)
        requires
            0 <= x < w,
            0 <= y < h,
    ;
    assert(h * w == w * h) by (nonlinear_arith);
    assert(0 <= y * w + x) by (nonlinear_arith)
        requires
            0 <= x < w,
            0 <= y < h,
    ;
    lemma_fundamental_div_mod_converse(y * w + x, w, y, x);
}

impl View for GuidanceFields {
    type V = FieldsView;

    closed spec fn view(&self) -> FieldsView {
        FieldsView {
            width: self.width as int,
            height: self.height as int,
            color: self.color@,
            direction: self.direction@,
            importance: self.importance@,
        }
    }
}

impl GuidanceFields {
    #[verifier::type_invariant]
    spec fn inv(&self) -> bool {
        self@.wf()
    }

    /// The fields of a picture `width` wide and `height` high. They are
    /// refused where one of them has another number of pixels.
    pub fn new(
        width: u32,
        height: u32,
        color: Vec<Rgb>,
        direction: Vec<Direction>,
        importance: Vec<u8>,
    ) -> (r: Result<GuidanceFields, EngineError>)
        ensures
            r is Ok <==> color@.len() == width * height && direction@.len() == width * height
                && importance@.len() == width * height,
            r is Err ==> r == Err::<GuidanceFields, EngineError>(EngineError::InputMismatch),
            r matches Ok(f) ==> f@.wf() && f@ == (FieldsView {
                width: width as int,
                height: height as int,
                color: color@,
                direction: direction@,
                importance: importance@,
            }),
    {
        assert(width as u64 * height as u64 <= u64::MAX) by (nonlinear_arith)
            requires
                width <= u32::MAX,
                height <= u32::MAX,
        ;
        let pixels: u64 = width as u64 * height as u64;
        if color.len() as u64 == pixels && direction.len() as u64 == pixels && importance.len() as u64
            == pixels {
            Ok(GuidanceFields { width, height, color, direction, importance })
        } else {
            Err(EngineError::InputMismatch)
        }
    }

    /// The number of columns.
    pub fn width(&self) -> (w: u32)
        ensures
            w == self@.width,
            self@.wf(),
    {
        proof {
            use_type_invariant(self);
        }
        self.width
    }

    /// The number of rows.
    pub fn height(&self) -> (h: u32)
        ensures
            h == self@.height,
            self@.wf(),
    {
        proof {
            use_type_invariant(self);
        }
        self.height
    }

    /// The number of pixels.
    pub fn len(&self) -> (n: usize)
        ensures
            n == self@.size(),
            self@.wf(),
    {
        proof {
            use_type_invariant(self);
        }
        self.color.len()
    }

    /// The colour to reach at pixel `index`.
    pub fn color(&self, index: usize) -> (c: Option<Rgb>)
        ensures
            self@.wf(),
            c == if index < self@.size() {
                Some(self@.color[index as int])
            } else {
                None
            },
    {
        proof {
            use_type_invariant(self);
        }
        if index < self.color.len() {
            Some(self.color[index])
        } else {
            None
        }
    }

    /// The direction of flow at pixel `index`.
    pub fn direction(&self, index: usize) -> (d: Option<Direction>)
        ensures
            self@.wf(),
            d == if index < self@.size() {
                Some(self@.direction[index as int])
            } else {
                None
            },
    {
        proof {
            use_type_invariant(self);
        }
        if index < self.direction.len() {
            Some(self.direction[index])
        } else {
            None
        }
    }

    /// The importance of pixel `index`.
    pub fn importance(&self, index: usize) -> (w: Option<u8>)
        ensures
            self@.wf(),
            w == if index < self@.size() {
                Some(self@.importance[index as int])
            } else {
                None
            },
    {
        proof {
            use_type_invariant(self);
        }
        if index < self.importance.len() {
            Some(self.importance[index])
        } else {
            None
        }
    }

    /// The column and the row of pixel `index`.
    pub fn position(&self, index: usize) -> (p: Option<PixelPos>)
        ensures
            self@.wf(),
            index >= self@.size() ==> p is None,
            index < self@.size() ==> p == Some(self@.position(index as int)) && self@.index_of(
                self@.position(index as int).x as int,
                self@.position(index as int).y as int,
            ) == Some(index as int),
    {
        proof {
            use_type_invariant(self);
        }
        if index < self.color.len() {
            let ghost w = self.width as int;
            let ghost h = self.height as int;
            assert(w > 0) by (nonlinear_arith)
                requires
                    index < w * h,
                    w >= 0,
            ;
            let x = index % (self.width as usize);
            let y = index / (self.width as usize);
            proof {
                lemma_fundamental_div_mod(index as int, w);
                assert(y < h) by (nonlinear_arith)
                    requires
                        index == w * y + x,
                        0 <= x < w,
                        index < w * h,
                ;
                assert(y * w + x == index) by (nonlinear_arith)
                    requires
                        index == w * y + x,
                ;
            }
            Some(PixelPos { x: x as u32, y: y as u32 })
        } else {
            None
        }
    }

    /// The index of the pixel in column `x` and row `y`, or `None` where the
    /// fields have no such pixel.
    pub fn index_of(&self, x: i64, y: i64) -> (i: Option<usize>)
        ensures
            self@.wf(),
            match self@.index_of(x as int, y as int) {
                Some(k) => i == Some(k as usize) && k < self@.size(),
                None => i is None,
            },
    {
        proof {
            use_type_invariant(self);
        }
        if 0 <= x && x < self.width as i64 && 0 <= y && y < self.height as i64 {
            proof {
                lemma_index_of(self@, x as int, y as int);
            }
            Some(y as usize * self.width as usize + x as usize)
        } else {
            None
        }
    }

    /// The index of the pixel nearest to `p`, or `None` where `p` lies
    /// outside of the fields or is no finite point.
    pub fn index_at(&self, p: Point) -> (i: Option<usize>)
        ensures
            self@.wf(),
            match self@.index_at(p) {
                Some(k) => i == Some(k as usize) && k < self@.size(),
                None => i is None,
            },
    {
        proof {
            use_type_invariant(self);
        }
        match p.pixel() {
            Some((x, y)) => self.index_of(x, y),
            None => None,
        }
    }

    /// The colour to reach at `p`, where `p` lies inside the fields.
    pub fn color_at(&self, p: Point) -> (c: Option<Rgb>)
        ensures
            c == self@.color_at(p),
    {
        match self.index_at(p) {
            Some(i) => {
                proof {
                    use_type_invariant(self);
                }
                Some(self.color[i])
            },
            None => None,
        }
    }

    /// The direction of flow at `p`, where `p` lies inside the fields.
    pub fn direction_at(&self, p: Point) -> (d: Option<Direction>)
        ensures
            d == self@.direction_at(p),
    {
        match self.index_at(p) {
            Some(i) => {
                proof {
                    use_type_invariant(self);
                }
                Some(self.direction[i])
            },
            None => None,
        }
    }
}

} // verus!
