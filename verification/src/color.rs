//! Colours, as the bytes of an image hold them.

use vstd::prelude::*;

verus! {

/// A colour without transparency: red, green and blue, each from 0 to 255.
#[derive(Clone, Copy, Debug, PartialEq, Eq, Structural)]
pub struct Rgb {
    pub r: u8,
    pub g: u8,
    pub b: u8,
}

/// A colour with its opacity: 0 lets everything through, 255 nothing.
#[derive(Clone, Copy, Debug, PartialEq, Eq, Structural)]
pub struct Rgba {
    pub r: u8,
    pub g: u8,
    pub b: u8,
    pub a: u8,
}

/// The opacity of paint that hides what is below it.
pub const OPAQUE: u8 = 255;

impl Rgb {
    /// This colour as fully opaque paint.
    pub fn opaque(self) -> (c: Rgba)
        ensures
            c == (Rgba { r: self.r, g: self.g, b: self.b, a: OPAQUE }),
    {
        Rgba { r: self.r, g: self.g, b: self.b, a: OPAQUE }
    }
}

impl Rgba {
    /// This colour without its opacity.
    pub fn rgb(self) -> (c: Rgb)
        ensures
            c == (Rgb { r: self.r, g: self.g, b: self.b }),
    {
        Rgb { r: self.r, g: self.g, b: self.b }
    }
}

} // verus!
