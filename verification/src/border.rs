//! The white padding that marks the edge of an image once it is placed.

use crate::canvas::{allocatable, Canvas};
use crate::color::{border_color, Color};
use crate::grid::Grid;
use vstd::prelude::*;

verus! {

/// `img` with a white frame of `border` pixels on every side: a white raster
/// that is `2 * border` wider and higher, with `img` blended onto its centre.
pub open spec fn bordered(img: Grid, border: int) -> Grid {
    Grid::filled(img.width + 2 * border, img.height + 2 * border, border_color()).overlaid(
        img,
        border,
        border,
    )
}

/// Adds a white border of `border_size` pixels around `img`. `None` when the
/// framed image could not be allocated.
pub fn add_white_border(img: &Canvas, border_size: u32) -> (framed: Option<Canvas>)
    ensures
        framed.is_some() == allocatable(img@.width + 2 * border_size, img@.height + 2 * border_size),
        framed matches Some(c) ==> {
            &&& c@ == bordered(img@, border_size as int)
            &&& c@.width == img@.width + 2 * border_size
            &&& c@.height == img@.height + 2 * border_size
            &&& forall|x: int, y: int|
                c@.contains(x, y) && !Grid::in_box(
                    border_size as int,
                    border_size as int,
                    img@.width,
                    img@.height,
                    x,
                    y,
                ) ==> #[trigger] c@.at(x, y) == border_color()
            &&& forall|x: int, y: int|
                img@.contains(x, y) && img@.at(x, y).a == 255 ==> #[trigger] c@.at(
                    x + border_size,
                    y + border_size,
                ) == img@.at(x, y)
        },
{
    let width: u64 = img.width() as u64 + 2 * (border_size as u64);
    let height: u64 = img.height() as u64 + 2 * (border_size as u64);
    if !Canvas::can_allocate(width, height) {
        return None;
    }
    let mut framed = Canvas::filled(width as u32, height as u32, Color::border());
    framed.overlay(img, border_size, border_size);
    Some(framed)
}

} // verus!
