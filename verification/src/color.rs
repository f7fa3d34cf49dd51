//! Pixel colours and the two sentinel colours the packer relies on.

use vstd::prelude::*;

verus! {

/// One RGBA pixel, eight bits per channel.
#[derive(Clone, Copy, Debug, PartialEq, Eq, Structural)]
pub struct Color {
    pub r: u8,
    pub g: u8,
    pub b: u8,
    pub a: u8,
}

/// The colour of unoccupied canvas: opaque black.
pub open spec fn background_color() -> Color {
    Color { r: 0, g: 0, b: 0, a: 255 }
}

/// The colour of the padding edge around a placed image: opaque white.
pub open spec fn border_color() -> Color {
    Color { r: 255, g: 255, b: 255, a: 255 }
}

impl Color {
    /// A pixel counts as unoccupied when its three colour channels are zero;
    /// the alpha channel is not consulted.
    pub open spec fn spec_is_background(self) -> bool {
        self.r == 0 && self.g == 0 && self.b == 0
    }

    /// A pixel marks a padding edge when its three colour channels are at
    /// their maximum; the alpha channel is not consulted.
    pub open spec fn spec_is_border(self) -> bool {
        self.r == 255 && self.g == 255 && self.b == 255
    }

    /// The colour with the given channels.
    pub fn new(r: u8, g: u8, b: u8, a: u8) -> (c: Color)
        ensures
            c == (Color { r, g, b, a }),
    {
        Color { r, g, b, a }
    }

    /// The colour that new canvas area is filled with.
    pub fn background() -> (c: Color)
        ensures
            c == background_color(),
            c.is_background(),
    {
        Color { r: 0, g: 0, b: 0, a: 255 }
    }

    /// The colour of the padding around an image.
    pub fn border() -> (c: Color)
        ensures
            c == border_color(),
            c.is_border(),
    {
        Color { r: 255, g: 255, b: 255, a: 255 }
    }

    /// Whether this pixel counts as unoccupied.
    #[verifier::when_used_as_spec(spec_is_background)]
    pub fn is_background(self) -> (b: bool)
        ensures
            b == self.spec_is_background(),
    {
        self.r == 0 && self.g == 0 && self.b == 0
    }

    /// Whether this pixel marks a padding edge.
    #[verifier::when_used_as_spec(spec_is_border)]
    pub fn is_border(self) -> (b: bool)
        ensures
            b == self.spec_is_border(),
    {
        self.r == 255 && self.g == 255 && self.b == 255
    }
}

} // verus!
