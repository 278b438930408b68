//! How far a rendered painting is from the picture it should show. The
//! score is a loss: the lower, the better.
//!
//! For every pixel the loss is the perceptual difference between the
//! rendered colour and the colour to reach, plus a penalty for canvas that
//! the paint does not cover, both weighted by the importance of the pixel.
//! With the alpha `a` and the importance `w` as bytes and the difference `d`
//! in units of 2^-16, the loss of a pixel is
//!
//! ```text
//! w/255 * (d/65536 + 500 * (1 - a/255)^2)
//! ```
//!
//! and a score counts it in units of 1/(255 * 65536 * 65025), in which it is
//! a whole number.

use crate::binary32::fixed_point;
use crate::binary32::on_scale;
use crate::binary32::quantise;
use crate::color::Rgb;
use crate::color::Rgba;
use crate::error::EngineError;
use crate::guidance::FieldsView;
use crate::guidance::GuidanceFields;
use crate::perception::color_difference;
use crate::perception::difference_bits;
use vstd::prelude::*;

verus! {

/// How much heavier uncovered canvas weighs than a colour difference of one.
pub const ALPHA_PENALTY: u128 = 500;

/// A colour difference of one, in the unit of `fixed_point`.
pub const DIFFERENCE_ONE: u128 = 65536;

/// The square of the greatest value of a channel.
pub const CHANNEL_SQUARE: u128 = 65025;

/// How many units of score make a loss of one.
pub const SCORE_ONE: u128 = 255 * 65536 * 65025;

/// No pixel can lose more than this.
pub const PIXEL_LOSS_MAX: u128 = 255 * (0xFFFF_FFFF * 65025 + 500 * 65025 * 65536);

/// The loss of one pixel, from the colour difference in units of 2^-16, the
/// rendered alpha and the importance.
pub open spec fn pixel_loss(difference: nat, alpha: u8, importance: u8) -> nat {
    (importance as nat) * (difference * 65025 + 500 * ((255 - alpha) * (255 - alpha)) as nat
        * 65536)
}

/// The loss of the first `n` pixels of a painting. `differences` holds for
/// each pixel the bit pattern of the colour difference.
pub open spec fn loss_below(
    differences: Seq<u32>,
    rendered: Seq<Rgba>,
    importance: Seq<u8>,
    n: nat,
) -> nat
    decreases n,
{
    if n == 0 {
        0
    } else {
        loss_below(differences, rendered, importance, (n - 1) as nat) + pixel_loss(
            fixed_point(differences[n - 1]),
            rendered[n - 1].a,
            importance[n - 1],
        )
    }
}

/// Every colour difference is zero or a positive number below 65536.
pub open spec fn all_on_scale(differences: Seq<u32>) -> bool {
    forall|i: int| 0 <= i < differences.len() ==> on_scale(#[trigger] differences[i])
}

/// The score of a rendered painting, given the colour difference of every
/// pixel, or why there is none.
pub open spec fn outcome(differences: Seq<u32>, rendered: Seq<Rgba>, fields: FieldsView) -> Result<
    nat,
    EngineError,
> {
    if rendered.len() != fields.size() || differences.len() != fields.size() {
        Err(EngineError::InputMismatch)
    } else if !all_on_scale(differences) {
        Err(EngineError::NumericInstability)
    } else {
        Ok(loss_below(differences, rendered, fields.importance, rendered.len()))
    }
}

/// The result `r` is the outcome `o`.
pub open spec fn is_outcome(r: Result<u128, EngineError>, o: Result<nat, EngineError>) -> bool {
    match o {
        Ok(loss) => r == Ok::<u128, EngineError>(loss as u128) && loss <= u128::MAX,
        Err(e) => r == Err::<u128, EngineError>(e),
    }
}

/// The loss of one pixel.
fn loss_of_pixel(difference: u32, alpha: u8, importance: u8) -> (loss: u128)
    ensures
        loss == pixel_loss(difference as nat, alpha, importance),
        loss <= PIXEL_LOSS_MAX,
{
    let uncovered: u128 = (255 - alpha) as u128;
    assert(uncovered * uncovered <= 65025) by (nonlinear_arith)
        requires
            uncovered <= 255,
    ;
    let gap: u128 = ALPHA_PENALTY * (uncovered * uncovered) * DIFFERENCE_ONE;
    let colour: u128 = difference as u128 * CHANNEL_SQUARE;
    assert((importance as u128) * (colour + gap) <= 255 * (0xFFFF_FFFF * 65025 + 500 * 65025 * 65536))
        by (nonlinear_arith)
        requires
            importance <= 255,
            colour + gap <= 0xFFFF_FFFF * 65025 + 500 * 65025 * 65536,
    ;
    (importance as u128) * (colour + gap)
}

/// The score of the painting that was rendered as `rendered`, where
/// `differences` holds for every pixel the bit pattern of the perceptual
/// difference between the rendered colour and the colour to reach.
///
/// It is `InputMismatch` where the buffers are not of the size of the
/// fields, and else `NumericInstability` where a difference is not on the
/// scale of colour differences.
pub fn score_of_differences(
    rendered: &Vec<Rgba>,
    fields: &GuidanceFields,
    differences: &Vec<u32>,
) -> (r: Result<u128, EngineError>)
    ensures
        is_outcome(r, outcome(differences@, rendered@, fields@)),
{
    let n = fields.len();
    if rendered.len() != n || differences.len() != n {
        return Err(EngineError::InputMismatch);
    }
    let mut total: u128 = 0;
    let mut i: usize = 0;
    while i < n
        invariant
            i <= n,
            n == fields@.size(),
            fields@.wf(),
            rendered@.len() == n,
            differences@.len() == n,
            total == loss_below(differences@, rendered@, fields@.importance, i as nat),
            total <= i * PIXEL_LOSS_MAX,
            forall|k: int| 0 <= k < i ==> on_scale(#[trigger] differences@[k]),
        decreases n - i,
    {
        let difference = match quantise(differences[i]) {
            Some(d) => d,
            None => {
                return Err(EngineError::NumericInstability);
            },
        };
        let importance = match fields.importance(i) {
            Some(w) => w,
            None => {
                return Err(EngineError::InputMismatch);
            },
        };
        let loss = loss_of_pixel(difference, rendered[i].a, importance);
        assert((i + 1) * PIXEL_LOSS_MAX <= u128::MAX) by (nonlinear_arith)
            requires
                i + 1 <= 0xFFFF_FFFF_FFFF_FFFF,
                PIXEL_LOSS_MAX == 255 * (0xFFFF_FFFF * 65025 + 500 * 65025 * 65536),
        ;
        assert((i + 1) * PIXEL_LOSS_MAX == i * PIXEL_LOSS_MAX + PIXEL_LOSS_MAX) by (nonlinear_arith);
        total = total + loss;
        i += 1;
    }
    Ok(total)
}

/// The colour difference of every pixel of a rendering: between the
/// rendered colour, without its opacity, and the colour to reach.
pub open spec fn measured(rendered: Seq<Rgba>, target: Seq<Rgb>) -> Seq<u32> {
    Seq::new(
        rendered.len(),
        |i: int|
            difference_bits(
                (Rgb { r: rendered[i].r, g: rendered[i].g, b: rendered[i].b }),
                target[i],
            ),
    )
}

/// The score of the painting that was rendered as `rendered`: for each
/// pixel the difference between the rendered colour and the colour to reach
/// is measured, and the losses are summed up as `outcome` says.
///
/// It is `InputMismatch` where the rendering is not of the size of the
/// fields, and else `NumericInstability` where a measured difference is not
/// on the scale of colour differences.
pub fn score(rendered: &Vec<Rgba>, fields: &GuidanceFields) -> (r: Result<u128, EngineError>)
    ensures
        is_outcome(r, outcome(measured(rendered@, fields@.color), rendered@, fields@)),
{
    let n = fields.len();
    if rendered.len() != n {
        return Err(EngineError::InputMismatch);
    }
    let mut differences: Vec<u32> = Vec::new();
    let mut i: usize = 0;
    while i < n
        invariant
            i <= n,
            n == fields@.size(),
            fields@.wf(),
            rendered@.len() == n,
            differences@ == measured(rendered@, fields@.color).take(i as int),
        decreases n - i,
    {
        let target = match fields.color(i) {
            Some(c) => c,
            None => {
                return Err(EngineError::InputMismatch);
            },
        };
        differences.push(color_difference(rendered[i].rgb(), target));
        assert(differences@ =~= measured(rendered@, fields@.color).take(i as int + 1));
        i += 1;
    }
    assert(differences@ =~= measured(rendered@, fields@.color));
    score_of_differences(rendered, fields, &differences)
}

} // verus!
