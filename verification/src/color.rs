//! The colour quad stored for each pixel.
use vstd::prelude::*;

verus! {

/// One pixel: red, green, blue and alpha, eight bits each.
#[derive(Clone, Copy, Debug, PartialEq, Eq, Structural)]
pub struct Rgba {
    pub r: u8,
    pub g: u8,
    pub b: u8,
    pub a: u8,
}

/// Opaque white, the colour both rasterisers draw with.
pub open spec fn foreground() -> Rgba {
    Rgba { r: 255, g: 255, b: 255, a: 255 }
}

/// Fully transparent black, the colour a fresh raster is filled with unless
/// the caller names another.
pub open spec fn background() -> Rgba {
    Rgba { r: 0, g: 0, b: 0, a: 0 }
}

impl Rgba {
    /// Builds a quad from its four channels.
    pub fn new(r: u8, g: u8, b: u8, a: u8) -> (c: Rgba)
        ensures
            c == (Rgba { r, g, b, a }),
    {
        Rgba { r, g, b, a }
    }

    /// The drawing colour.
    pub fn white() -> (c: Rgba)
        ensures
            c == foreground(),
    {
        Rgba { r: 255, g: 255, b: 255, a: 255 }
    }

    /// The default fill colour.
    pub fn transparent_black() -> (c: Rgba)
        ensures
            c == background(),
    {
        Rgba { r: 0, g: 0, b: 0, a: 0 }
    }

    /// The channel at position `i` in storage order: red, green, blue, alpha.
    pub open spec fn channel(self, i: int) -> u8 {
        if i == 0 {
            self.r
        } else if i == 1 {
            self.g
        } else if i == 2 {
            self.b
        } else {
            self.a
        }
    }

    /// This quad with each colour channel looked up in `curve` and alpha kept.
    pub open spec fn toned(self, curve: Seq<u8>) -> Rgba {
        Rgba {
            r: curve[self.r as int],
            g: curve[self.g as int],
            b: curve[self.b as int],
            a: self.a,
        }
    }
}

/// Whether `curve` maps every channel value to itself.
pub open spec fn is_identity_curve(curve: Seq<u8>) -> bool {
    curve.len() == 256 && forall|i: int| 0 <= i < 256 ==> #[trigger] curve[i] == i
}

/// Looking a quad up in a curve never changes its alpha, and looking it up in
/// the identity curve changes nothing.
pub proof fn lemma_toned(c: Rgba, curve: Seq<u8>)
    ensures
        c.toned(curve).a == c.a,
        is_identity_curve(curve) ==> c.toned(curve) == c,
{
}

} // verus!
