//! The mathematical model of a pixel buffer: a width, a height and one colour
//! for every coordinate inside them. All contracts of the crate are stated
//! over this model.

use crate::color::{background_color, Color};
use vstd::prelude::*;

verus! {

/// A `width` by `height` raster. `pixels` is defined exactly on the
/// coordinates `(x, y)` with `0 <= x < width` and `0 <= y < height`.
#[verifier::ext_equal]
pub struct Grid {
    pub width: int,
    pub height: int,
    pub pixels: Map<(int, int), Color>,
}

impl Grid {
    /// The raster whose pixel at `(x, y)` is `f(x, y)`.
    pub open spec fn from_fn(width: int, height: int, f: spec_fn(int, int) -> Color) -> Grid {
        Grid {
            width,
            height,
            pixels: Map::new(
                |p: (int, int)| 0 <= p.0 < width && 0 <= p.1 < height,
                |p: (int, int)| f(p.0, p.1),
            ),
        }
    }

    /// Non-negative dimensions, and pixels defined exactly inside them.
    pub open spec fn wf(self) -> bool {
        &&& 0 <= self.width
        &&& 0 <= self.height
        &&& forall|x: int, y: int| #[trigger] self.pixels.dom().contains((x, y)) <==> self.contains(x, y)
    }

    /// Whether `(x, y)` is a coordinate of this raster.
    pub open spec fn contains(self, x: int, y: int) -> bool {
        0 <= x < self.width && 0 <= y < self.height
    }

    /// The pixel at `(x, y)`.
    pub open spec fn at(self, x: int, y: int) -> Color {
        self.pixels[(x, y)]
    }

    /// The number of pixels.
    pub open spec fn area(self) -> int {
        self.width * self.height
    }

    /// Two rasters of the same size whose pixels agree everywhere.
    pub open spec fn same_content(self, other: Grid) -> bool {
        &&& self.width == other.width
        &&& self.height == other.height
        &&& forall|x: int, y: int| self.contains(x, y) ==> #[trigger] self.at(x, y) == other.at(x, y)
    }

    /// A raster of one colour.
    pub open spec fn filled(width: int, height: int, color: Color) -> Grid {
        Grid::from_fn(width, height, |x: int, y: int| color)
    }

    /// This raster with the pixel at `(x, y)` replaced.
    pub open spec fn with_pixel(self, x: int, y: int, color: Color) -> Grid {
        Grid::from_fn(
            self.width,
            self.height,
            |i: int, j: int| if i == x && j == y { color } else { self.at(i, j) },
        )
    }

    /// This raster enlarged to `width` by `height`: the old content stays at
    /// the top-left origin and every new pixel is background.
    pub open spec fn grown(self, width: int, height: int) -> Grid {
        Grid::from_fn(
            width,
            height,
            |x: int, y: int| if self.contains(x, y) { self.at(x, y) } else { background_color() },
        )
    }

    /// Whether `(x, y)` lies in the `width` by `height` box whose top-left
    /// corner is `(left, top)`.
    pub open spec fn in_box(left: int, top: int, width: int, height: int, x: int, y: int) -> bool {
        left <= x < left + width && top <= y < top + height
    }

    /// Whether the `width` by `height` box at `(x, y)` lies inside this raster.
    pub open spec fn covers(self, x: int, y: int, width: int, height: int) -> bool {
        0 <= x && 0 <= y && x + width <= self.width && y + height <= self.height
    }

    /// This raster with `other` copied in, its top-left corner at `(left, top)`.
    pub open spec fn pasted(self, other: Grid, left: int, top: int) -> Grid {
        Grid::from_fn(
            self.width,
            self.height,
            |x: int, y: int|
                if Grid::in_box(left, top, other.width, other.height, x, y) {
                    other.at(x - left, y - top)
                } else {
                    self.at(x, y)
                },
        )
    }

    /// Every pixel of this raster that the box covers is background. The box
    /// is clipped to the raster: what lies outside is not looked at.
    pub open spec fn region_empty(self, x: int, y: int, width: int, height: int) -> bool {
        forall|i: int, j: int|
            self.contains(i, j) && Grid::in_box(x, y, width, height, i, j) ==> (#[trigger] self.at(
                i,
                j,
            )).is_background()
    }

    /// One of the four direct neighbours of `(x, y)` inside the raster is a
    /// border pixel.
    pub open spec fn touches_border(self, x: int, y: int) -> bool {
        ||| (self.contains(x - 1, y) && self.at(x - 1, y).is_border())
        ||| (self.contains(x + 1, y) && self.at(x + 1, y).is_border())
        ||| (self.contains(x, y - 1) && self.at(x, y - 1).is_border())
        ||| (self.contains(x, y + 1) && self.at(x, y + 1).is_border())
    }

    /// An anchor is a background pixel next to a border pixel.
    pub open spec fn is_anchor(self, x: int, y: int) -> bool {
        self.contains(x, y) && self.at(x, y).is_background() && self.touches_border(x, y)
    }

    /// Well-formed rasters with the same content are the same raster.
    pub proof fn lemma_same_content_equal(self, other: Grid)
        requires
            self.wf(),
            other.wf(),
            self.same_content(other),
        ensures
            self == other,
    {
        assert forall|p: (int, int)| self.pixels.dom().contains(p) <==> other.pixels.dom().contains(
            p,
        ) by {
            assert(p == (p.0, p.1));
        }
        assert forall|p: (int, int)| self.pixels.dom().contains(p) implies self.pixels[p]
            == other.pixels[p] by {
            assert(self.at(p.0, p.1) == other.at(p.0, p.1));
        }
    }

    /// No pixel of this raster has the background colour.
    pub open spec fn solid(self) -> bool {
        forall|x: int, y: int| self.contains(x, y) ==> !(#[trigger] self.at(x, y)).is_background()
    }
}

} // verus!
