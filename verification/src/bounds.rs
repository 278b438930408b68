//! The bounds that the random numbers of a growing stroke are held to.
//!
//! The numbers are drawn by the caller, from normal distributions, and
//! arrive as bit patterns of single precision numbers; so do the bounds. A
//! number that is not finite is no draw: it is reported, never bounded.

use crate::binary32::clamp;
use crate::binary32::clamped;
use crate::binary32::INFINITY;
use crate::binary32::is_finite;
use crate::binary32::is_negative;
use crate::binary32::is_positive;
use crate::binary32::lemma_magnitude_order;
use crate::binary32::magnitude;
use crate::binary32::value;
use crate::error::EngineError;
use vstd::prelude::*;

verus! {

/// The greatest finite number.
pub const GREATEST: u32 = 0x7F7F_FFFF;

/// The least thickness of a stroke: 0.3.
pub const THICKNESS_MIN: u32 = 0x3E99_999A;

/// The least length of a hop, in thicknesses: 0.5.
pub const HOP_LENGTH_MIN: u32 = 0x3F00_0000;

/// The least colour difference that can end a chain: 2.
pub const COLOR_DISTANCE_MIN: u32 = 0x4000_0000;

/// The greatest turn of a hop against the one before: 45 degrees, in radians.
pub const HOP_ANGLE_MAX: u32 = 0x3F49_0FDB;

/// The same turn to the other side.
pub const HOP_ANGLE_MIN: u32 = 0xBF49_0FDB;

/// The greatest turn of a first hop against the flow: 22.5 degrees, in radians.
pub const FIRST_ANGLE_MAX: u32 = 0x3EC9_0FDB;

/// The same turn to the other side.
pub const FIRST_ANGLE_MIN: u32 = 0xBEC9_0FDB;

/// The pattern is a thickness that a stroke can have: a finite number that
/// is not less than `THICKNESS_MIN`. Among numbers that are not negative the
/// greater number has the greater pattern.
pub open spec fn is_thickness(bits: u32) -> bool {
    THICKNESS_MIN <= bits < INFINITY
}

/// The pattern is a length that a skeleton of the given thickness can be
/// meant to reach: a finite number that is not less than the thickness.
pub open spec fn is_target(bits: u32, thickness: u32) -> bool {
    thickness <= bits < INFINITY
}

/// A thickness is a finite number above zero and not less than the least
/// thickness; a length to reach is one that is not less than the thickness.
pub proof fn lemma_thickness(thickness: u32, target: u32)
    requires
        is_thickness(thickness),
    ensures
        is_positive(thickness),
        is_finite(thickness),
        value(thickness) >= value(THICKNESS_MIN) > 0,
        is_target(target, thickness) ==> is_positive(target) && is_finite(target) && value(target)
            >= value(thickness),
{
    lemma_magnitude_order(THICKNESS_MIN, thickness);
    lemma_magnitude_order(0, THICKNESS_MIN);
    assert(magnitude(0) == 0);
    if is_target(target, thickness) {
        lemma_magnitude_order(thickness, target);
    }
}

/// Whether the pattern is a thickness that a stroke can have.
pub fn thick_enough(bits: u32) -> (r: bool)
    ensures
        r == is_thickness(bits),
{
    THICKNESS_MIN <= bits && bits < INFINITY
}

/// A finite number that is not less than a number that is not negative has
/// no lesser pattern than that number.
proof fn lemma_not_below(bits: u32, floor: u32)
    requires
        is_finite(bits),
        floor < INFINITY,
        value(bits) >= value(floor),
        value(floor) > 0,
    ensures
        floor <= bits < INFINITY,
{
    lemma_positive(bits);
    lemma_magnitude_order(floor, bits);
}

/// The number `raw` held between `low` and `high`, where it is finite.
fn bounded(raw: u32, low: u32, high: u32) -> (r: Result<u32, EngineError>)
    requires
        is_finite(low),
        is_finite(high),
        value(low) <= value(high),
    ensures
        r is Ok <==> is_finite(raw),
        r is Err ==> r == Err::<u32, EngineError>(EngineError::NumericInstability),
        r matches Ok(b) ==> b == clamped(raw, low, high) && is_finite(b) && value(low) <= value(b)
            <= value(high),
{
    match clamp(raw, low, high) {
        Some(b) => Ok(b),
        None => Err(EngineError::NumericInstability),
    }
}

/// The thickness of a stroke: the number drawn, but not less than
/// `THICKNESS_MIN`.
pub fn thickness(raw: u32) -> (r: Result<u32, EngineError>)
    ensures
        r is Ok <==> is_finite(raw),
        r is Err ==> r == Err::<u32, EngineError>(EngineError::NumericInstability),
        r matches Ok(t) ==> t == clamped(raw, THICKNESS_MIN, GREATEST) && is_thickness(t),
{
    proof {
        lemma_bounds();
    }
    let r = bounded(raw, THICKNESS_MIN, GREATEST);
    proof {
        if r is Ok {
            lemma_not_below(r->Ok_0, THICKNESS_MIN);
        }
    }
    r
}

/// The length that a skeleton is meant to reach: the number drawn, but not
/// less than the thickness of the stroke.
pub fn target_length(raw: u32, thickness: u32) -> (r: Result<u32, EngineError>)
    ensures
        r is Ok <==> is_finite(raw) && is_positive(thickness),
        r is Err ==> r == Err::<u32, EngineError>(EngineError::NumericInstability),
        r matches Ok(l) ==> l == clamped(raw, thickness, GREATEST) && is_positive(l) && is_target(
            l,
            thickness,
        ),
{
    if thickness == 0 || thickness >= INFINITY {
        return Err(EngineError::NumericInstability);
    }
    proof {
        lemma_bounds();
        lemma_magnitude_order(thickness, GREATEST);
        lemma_magnitude_order(0, thickness);
        lemma_magnitude_order(0, GREATEST);
    }
    let r = bounded(raw, thickness, GREATEST);
    proof {
        if r is Ok {
            lemma_positive(r->Ok_0);
            lemma_not_below(r->Ok_0, thickness);
        }
    }
    r
}

/// The length of a hop, in thicknesses: the number drawn, but not less than
/// `HOP_LENGTH_MIN`.
pub fn hop_length(raw: u32) -> (r: Result<u32, EngineError>)
    ensures
        r is Ok <==> is_finite(raw),
        r is Err ==> r == Err::<u32, EngineError>(EngineError::NumericInstability),
        r matches Ok(l) ==> l == clamped(raw, HOP_LENGTH_MIN, GREATEST) && is_positive(l),
{
    proof {
        lemma_bounds();
    }
    bounded(raw, HOP_LENGTH_MIN, GREATEST)
}

/// The colour difference beyond which a chain ends: the number drawn, but
/// not less than `COLOR_DISTANCE_MIN`.
pub fn color_threshold(raw: u32) -> (r: Result<u32, EngineError>)
    ensures
        r is Ok <==> is_finite(raw),
        r is Err ==> r == Err::<u32, EngineError>(EngineError::NumericInstability),
        r matches Ok(t) ==> t == clamped(raw, COLOR_DISTANCE_MIN, GREATEST) && is_positive(t),
{
    proof {
        lemma_bounds();
    }
    bounded(raw, COLOR_DISTANCE_MIN, GREATEST)
}

/// The turn of a hop against the hop before it: the number drawn, held
/// between `HOP_ANGLE_MIN` and `HOP_ANGLE_MAX`.
pub fn turn(raw: u32) -> (r: Result<u32, EngineError>)
    ensures
        r is Ok <==> is_finite(raw),
        r is Err ==> r == Err::<u32, EngineError>(EngineError::NumericInstability),
        r matches Ok(t) ==> t == clamped(raw, HOP_ANGLE_MIN, HOP_ANGLE_MAX) && is_finite(t),
{
    proof {
        lemma_bounds();
    }
    bounded(raw, HOP_ANGLE_MIN, HOP_ANGLE_MAX)
}

/// The turn of the first hop of a chain against the direction of flow: the
/// number drawn, held between `FIRST_ANGLE_MIN` and `FIRST_ANGLE_MAX`.
pub fn first_turn(raw: u32) -> (r: Result<u32, EngineError>)
    ensures
        r is Ok <==> is_finite(raw),
        r is Err ==> r == Err::<u32, EngineError>(EngineError::NumericInstability),
        r matches Ok(t) ==> t == clamped(raw, FIRST_ANGLE_MIN, FIRST_ANGLE_MAX) && is_finite(t),
{
    proof {
        lemma_bounds();
    }
    bounded(raw, FIRST_ANGLE_MIN, FIRST_ANGLE_MAX)
}

/// A finite number that is not below a positive one is positive.
proof fn lemma_positive(bits: u32)
    requires
        is_finite(bits),
        value(bits) > 0,
    ensures
        is_positive(bits),
{
    assert(!is_negative(bits));
    assert(magnitude(0) == 0);
}

/// The bounds are finite, each lower one is not above its upper one, and
/// the lower bounds of sizes are above zero.
proof fn lemma_bounds()
    ensures
        is_finite(GREATEST),
        is_finite(THICKNESS_MIN),
        is_finite(HOP_LENGTH_MIN),
        is_finite(COLOR_DISTANCE_MIN),
        is_finite(HOP_ANGLE_MIN),
        is_finite(HOP_ANGLE_MAX),
        is_finite(FIRST_ANGLE_MIN),
        is_finite(FIRST_ANGLE_MAX),
        0 < value(THICKNESS_MIN) <= value(GREATEST),
        0 < value(HOP_LENGTH_MIN) <= value(GREATEST),
        0 < value(COLOR_DISTANCE_MIN) <= value(GREATEST),
        value(HOP_ANGLE_MIN) <= value(HOP_ANGLE_MAX),
        value(FIRST_ANGLE_MIN) <= value(FIRST_ANGLE_MAX),
        forall|bits: u32|
            is_finite(bits) && value(bits) >= value(THICKNESS_MIN) ==> is_positive(bits),
        forall|bits: u32|
            is_finite(bits) && value(bits) >= value(HOP_LENGTH_MIN) ==> is_positive(bits),
        forall|bits: u32|
            is_finite(bits) && value(bits) >= value(COLOR_DISTANCE_MIN) ==> is_positive(bits),
{
    lemma_magnitude_order(0, THICKNESS_MIN);
    lemma_magnitude_order(0, HOP_LENGTH_MIN);
    lemma_magnitude_order(0, COLOR_DISTANCE_MIN);
    lemma_magnitude_order(THICKNESS_MIN, GREATEST);
    lemma_magnitude_order(HOP_LENGTH_MIN, GREATEST);
    lemma_magnitude_order(COLOR_DISTANCE_MIN, GREATEST);
    lemma_magnitude_order(0, HOP_ANGLE_MAX);
    lemma_magnitude_order(0, FIRST_ANGLE_MAX);
    assert(magnitude(0) == 0);
    assert(magnitude(HOP_ANGLE_MIN) >= 0);
    assert(magnitude(FIRST_ANGLE_MIN) >= 0);
    assert forall|bits: u32| is_finite(bits) && value(bits) > 0 implies is_positive(bits) by {
        lemma_positive(bits);
    }
}

} // verus!
