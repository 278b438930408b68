//! How different two colours look.

use crate::color::Rgb;
use delta_e::DE2000;
use vstd::prelude::*;

verus! {

/// The CIEDE2000 difference between two colours, as the `delta_e` crate
/// computes it from their bytes: the bit pattern of a single precision
/// number. The crate reads nothing but the two colours, so the same two
/// colours always differ by the same number.
pub uninterp spec fn difference_bits(a: Rgb, b: Rgb) -> u32;

/// `DE2000::from_rgb` of the `delta_e` crate, handed on as the bit pattern
/// of the number that the crate returns. The number has a name,
/// `difference_bits`; nothing else is claimed about it, not even that it is
/// a number: what is done with it is decided by verified code, for every
/// pattern.
#[verifier::external_body]
pub(crate) fn color_difference(a: Rgb, b: Rgb) -> (bits: u32)
    ensures
        bits == difference_bits(a, b),
{
    DE2000::from_rgb(&[a.r, a.g, a.b], &[b.r, b.g, b.b]).to_bits()
}

} // verus!
