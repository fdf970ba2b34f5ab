//! Colours as four 8-bit channels.

use vstd::prelude::*;

verus! {

/// One RGBA8 pixel value.
#[derive(Clone, Copy, Debug, PartialEq, Eq, Structural)]
pub struct Rgba8 {
    pub r: u8,
    pub g: u8,
    pub b: u8,
    pub a: u8,
}

impl Rgba8 {
    /// Opaque white, the canvas background.
    pub open spec fn spec_white() -> Rgba8 {
        Rgba8 { r: 255, g: 255, b: 255, a: 255 }
    }

    /// Opaque white, the canvas background.
    #[verifier::when_used_as_spec(spec_white)]
    pub fn white() -> (c: Rgba8)
        ensures
            c == Rgba8::spec_white(),
    {
        Rgba8 { r: 255, g: 255, b: 255, a: 255 }
    }
}

} // verus!
