//! From a map of edges to the slope that a direction map is made of.
//!
//! Every pixel gets the squared distance to the nearest edge pixel; the
//! slope of that distance across a pixel, turned by a right angle, is the
//! direction of flow there: along the edges, not across them.

use crate::error::EngineError;
use crate::geometry::PixelPos;
use vstd::arithmetic::div_mod::lemma_fundamental_div_mod;
use vstd::prelude::*;

verus! {

/// From this brightness on, a pixel of an edge map is an edge.
pub const EDGE_LEVEL: u8 = 128;

/// The squared distance between two pixels.
pub open spec fn squared_distance(a: PixelPos, b: PixelPos) -> nat {
    ((a.x - b.x) * (a.x - b.x) + (a.y - b.y) * (a.y - b.y)) as nat
}

/// The pixel of index `index` in a picture `width` wide.
pub open spec fn pixel_at(index: int, width: int) -> PixelPos {
    PixelPos { x: (index % width) as u32, y: (index / width) as u32 }
}

/// The edge pixels among the first `n` pixels of an edge map, in the order
/// of their indices.
pub open spec fn edges_below(luma: Seq<u8>, width: int, n: nat) -> Seq<PixelPos>
    decreases n,
{
    if n == 0 {
        Seq::empty()
    } else if luma[n - 1] >= EDGE_LEVEL {
        edges_below(luma, width, (n - 1) as nat).push(pixel_at(n - 1, width))
    } else {
        edges_below(luma, width, (n - 1) as nat)
    }
}

/// `d` is the squared distance from `p` to the nearest of `edges`.
pub open spec fn is_nearest(d: nat, p: PixelPos, edges: Seq<PixelPos>) -> bool {
    &&& forall|k: int| 0 <= k < edges.len() ==> d <= squared_distance(p, #[trigger] edges[k])
    &&& exists|k: int| 0 <= k < edges.len() && d == squared_distance(p, #[trigger] edges[k])
}

/// The slope of a distance map at pixel `index`, turned by a right angle:
/// first the fall from the row above to the row below, then the rise from
/// the column on the left to the column on the right. At a border the pixel
/// itself stands in for the neighbour that is missing.
pub open spec fn slope_of(distances: Seq<u128>, width: int, height: int, index: int) -> (int, int) {
    let here = distances[index];
    let left = if index % width == 0 {
        here
    } else {
        distances[index - 1]
    };
    let right = if index % width == width - 1 {
        here
    } else {
        distances[index + 1]
    };
    let above = if index / width == 0 {
        here
    } else {
        distances[index - width]
    };
    let below = if index / width == height - 1 {
        here
    } else {
        distances[index + width]
    };
    (-(below - above), right - left)
}

/// The edge pixels of an edge map `width` wide and `height` high, in the
/// order of their indices. The map is refused where it is not of that size.
pub fn edge_points(luma: &Vec<u8>, width: u32, height: u32) -> (r: Result<
    Vec<PixelPos>,
    EngineError,
>)
    ensures
        r is Ok <==> luma@.len() == width * height,
        r is Err ==> r == Err::<Vec<PixelPos>, EngineError>(EngineError::InputMismatch),
        r matches Ok(edges) ==> edges@ == edges_below(luma@, width as int, luma@.len()),
{
    assert(width as u64 * height as u64 <= u64::MAX) by (nonlinear_arith)
        requires
            width <= u32::MAX,
            height <= u32::MAX,
    ;
    if luma.len() as u64 != width as u64 * height as u64 {
        return Err(EngineError::InputMismatch);
    }
    let mut edges: Vec<PixelPos> = Vec::new();
    let mut i: usize = 0;
    while i < luma.len()
        invariant
            i <= luma@.len(),
            luma@.len() == width * height,
            edges@ == edges_below(luma@, width as int, i as nat),
        decreases luma@.len() - i,
    {
        if luma[i] >= EDGE_LEVEL {
            assert(width > 0) by (nonlinear_arith)
                requires
                    i < width * height,
            ;
            let x = i % (width as usize);
            let y = i / (width as usize);
            proof {
                lemma_fundamental_div_mod(i as int, width as int);
                assert(y < height) by (nonlinear_arith)
                    requires
                        i == width * y + x,
                        0 <= x,
                        i < width * height,
                        width > 0,
                ;
            }
            edges.push(PixelPos { x: x as u32, y: y as u32 });
        }
        i += 1;
    }
    Ok(edges)
}

/// The squared distance between two pixels.
pub fn distance_squared(a: PixelPos, b: PixelPos) -> (d: u128)
    ensures
        d == squared_distance(a, b),
        d <= DISTANCE_MAX,
{
    let dx: u128 = if a.x >= b.x {
        (a.x - b.x) as u128
    } else {
        (b.x - a.x) as u128
    };
    let dy: u128 = if a.y >= b.y {
        (a.y - b.y) as u128
    } else {
        (b.y - a.y) as u128
    };
    assert(dx * dx <= 0xFFFF_FFFF * 0xFFFF_FFFF && dy * dy <= 0xFFFF_FFFF * 0xFFFF_FFFF)
        by (nonlinear_arith)
        requires
            dx <= 0xFFFF_FFFF,
            dy <= 0xFFFF_FFFF,
    ;
    assert(dx * dx == (a.x - b.x) * (a.x - b.x) && dy * dy == (a.y - b.y) * (a.y - b.y))
        by (nonlinear_arith)
        requires
            dx == a.x - b.x || dx == b.x - a.x,
            dy == a.y - b.y || dy == b.y - a.y,
    ;
    dx * dx + dy * dy
}

/// The squared distance from `p` to the nearest of `edges`; there is none
/// where there are no edges.
pub fn nearest_edge(p: PixelPos, edges: &Vec<PixelPos>) -> (r: Option<u128>)
    ensures
        r is Some <==> edges@.len() > 0,
        r matches Some(d) ==> is_nearest(d as nat, p, edges@) && d <= DISTANCE_MAX,
{
    if edges.len() == 0 {
        return None;
    }
    let mut best: u128 = distance_squared(p, edges[0]);
    let ghost mut witness: int = 0;
    let mut k: usize = 1;
    while k < edges.len()
        invariant
            1 <= k <= edges@.len(),
            0 <= witness < k,
            best == squared_distance(p, edges@[witness]),
            forall|j: int| 0 <= j < k ==> best <= squared_distance(p, #[trigger] edges@[j]),
        decreases edges@.len() - k,
    {
        let d = distance_squared(p, edges[k]);
        if d < best {
            best = d;
            proof {
                witness = k as int;
            }
        }
        k += 1;
    }
    Some(best)
}

/// No squared distance between two pixels is greater than this.
pub const DISTANCE_MAX: u128 = 2 * 0xFFFF_FFFF * 0xFFFF_FFFF;

/// For every pixel of a picture the squared distance to the nearest edge.
pub struct DistanceMap {
    width: u32,
    height: u32,
    distances: Vec<u128>,
}

/// What a distance map holds.
pub struct DistanceMapView {
    pub width: int,
    pub height: int,
    pub distances: Seq<u128>,
}

impl View for DistanceMap {
    type V = DistanceMapView;

    closed spec fn view(&self) -> DistanceMapView {
        DistanceMapView {
            width: self.width as int,
            height: self.height as int,
            distances: self.distances@,
        }
    }
}

impl DistanceMapView {
    /// The map is that of a picture of its size with the given edges.
    pub open spec fn maps(self, edges: Seq<PixelPos>) -> bool {
        &&& self.distances.len() == self.width * self.height
        &&& forall|i: int|
            0 <= i < self.distances.len() ==> is_nearest(
                (#[trigger] self.distances[i]) as nat,
                pixel_at(i, self.width),
                edges,
            )
    }
}

impl DistanceMap {
    #[verifier::type_invariant]
    spec fn inv(&self) -> bool {
        &&& self.distances@.len() == self.width as int * self.height as int
        &&& forall|i: int|
            0 <= i < self.distances@.len() ==> #[trigger] self.distances@[i] <= DISTANCE_MAX
    }

    /// The distance map of a picture `width` wide and `height` high with
    /// the given edge pixels; there is none where there are no edges.
    pub fn new(width: u32, height: u32, edges: &Vec<PixelPos>) -> (r: Option<DistanceMap>)
        ensures
            r is Some <==> edges@.len() > 0 && width * height <= usize::MAX,
            r matches Some(map) ==> map@.width == width && map@.height == height && map@.maps(
                edges@,
            ),
    {
        assert(width as u64 * height as u64 <= u64::MAX) by (nonlinear_arith)
            requires
                width <= u32::MAX,
                height <= u32::MAX,
        ;
        let pixels: u64 = width as u64 * height as u64;
        if edges.len() == 0 || pixels > usize::MAX as u64 {
            return None;
        }
        let n: usize = pixels as usize;
        let mut distances: Vec<u128> = Vec::new();
        let mut i: usize = 0;
        while i < n
            invariant
                i <= n,
                n == width * height,
                edges@.len() > 0,
                distances@.len() == i,
                forall|j: int| 0 <= j < i ==> #[trigger] distances@[j] <= DISTANCE_MAX,
                forall|j: int|
                    0 <= j < i ==> is_nearest(
                        (#[trigger] distances@[j]) as nat,
                        pixel_at(j, width as int),
                        edges@,
                    ),
            decreases n - i,
        {
            assert(width > 0) by (nonlinear_arith)
                requires
                    i < width * height,
            ;
            let x = i % (width as usize);
            let y = i / (width as usize);
            proof {
                lemma_fundamental_div_mod(i as int, width as int);
                assert(y < height) by (nonlinear_arith)
                    requires
                        i == width * y + x,
                        0 <= x,
                        i < width * height,
                        width > 0,
                ;
            }
            match nearest_edge(PixelPos { x: x as u32, y: y as u32 }, edges) {
                Some(d) => {
                    distances.push(d);
                },
                None => {
                    return None;
                },
            }
            i += 1;
        }
        Some(DistanceMap { width, height, distances })
    }

    /// The squared distance from pixel `index` to the nearest edge.
    pub fn distance(&self, index: usize) -> (r: Option<u128>)
        ensures
            r == if index < self@.distances.len() {
                Some(self@.distances[index as int])
            } else {
                None
            },
    {
        if index < self.distances.len() {
            Some(self.distances[index])
        } else {
            None
        }
    }

    /// The slope of the map at pixel `index`, turned by a right angle; there
    /// is none where the picture has no such pixel. Both parts are zero
    /// where the map is level, and then there is no direction to take from
    /// it.
    pub fn slope(&self, index: usize) -> (r: Option<(i128, i128)>)
        ensures
            r is Some <==> index < self@.distances.len(),
            r matches Some(s) ==> (s.0 as int, s.1 as int) == slope_of(
                self@.distances,
                self@.width,
                self@.height,
                index as int,
            ),
    {
        proof {
            use_type_invariant(self);
        }
        if index >= self.distances.len() {
            return None;
        }
        let width = self.width;
        let height = self.height;
        assert(width > 0) by (nonlinear_arith)
            requires
                index < width * height,
        ;
        let w = width as usize;
        let h = height as usize;
        let x = index % w;
        let y = index / w;
        proof {
            lemma_fundamental_div_mod(index as int, width as int);
            assert(y < height) by (nonlinear_arith)
                requires
                    index == width * y + x,
                    0 <= x,
                    index < width * height,
                    width > 0,
            ;
            assert(y < height - 1 ==> index + width < width * height) by (nonlinear_arith)
                requires
                    index == width * y + x,
                    0 <= x < width,
            ;
            assert(y > 0 ==> index >= width) by (nonlinear_arith)
                requires
                    index == width * y + x,
                    0 <= x,
                    width > 0,
            ;
            assert(x < width - 1 ==> index + 1 < width * height) by (nonlinear_arith)
                requires
                    index == width * y + x,
                    0 <= x,
                    y < height,
            ;
            assert(self.distances@[index as int] <= DISTANCE_MAX);
            assert(x > 0 ==> self.distances@[index - 1] <= DISTANCE_MAX);
            assert(x < width - 1 ==> self.distances@[index + 1] <= DISTANCE_MAX);
            assert(y > 0 ==> self.distances@[index - width] <= DISTANCE_MAX);
            assert(y < height - 1 ==> self.distances@[index + width] <= DISTANCE_MAX);
        }
        let here = self.distances[index] as i128;
        let left = if x == 0 {
            here
        } else {
            self.distances[index - 1] as i128
        };
        let right = if x == w - 1 {
            here
        } else {
            self.distances[index + 1] as i128
        };
        let above = if y == 0 {
            here
        } else {
            self.distances[index - w] as i128
        };
        let below = if y == h - 1 {
            here
        } else {
            self.distances[index + w] as i128
        };
        Some((above - below, right - left))
    }
}

} // verus!
