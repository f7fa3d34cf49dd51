//! Tests on single positions of a canvas: is a box free, is a pixel an anchor.

use crate::canvas::Canvas;
use crate::grid::Grid;
use vstd::prelude::*;

verus! {

/// Whether every pixel of `collage` inside the `width` by `height` box at
/// `(x, y)` is background. The part of the box that lies outside the canvas is
/// ignored, so a box wholly outside it is empty.
pub fn is_empty_space(collage: &Canvas, x: u32, y: u32, width: u32, height: u32) -> (empty: bool)
    ensures
        empty == collage@.region_empty(x as int, y as int, width as int, height as int),
{
    let canvas_width: u32 = collage.width();
    let canvas_height: u32 = collage.height();
    let x_end: u32 = if width > canvas_width || x > canvas_width - width {
        canvas_width
    } else {
        x + width
    };
    let y_end: u32 = if height > canvas_height || y > canvas_height - height {
        canvas_height
    } else {
        y + height
    };
    let ghost g = collage@;
    let mut j: u32 = y;
    while j < y_end
        invariant
            g == collage@,
            canvas_width == g.width,
            canvas_height == g.height,
            x_end <= canvas_width,
            y_end <= canvas_height,
            x_end as int == if x + width > g.width { g.width } else { x + width },
            y_end as int == if y + height > g.height { g.height } else { y + height },
            y <= j,
            forall|i: int, k: int|
                g.contains(i, k) && Grid::in_box(x as int, y as int, width as int, height as int, i, k)
                    && k < j ==> (#[trigger] g.at(i, k)).is_background(),
        decreases y_end - j,
    {
        let mut i: u32 = x;
        while i < x_end
            invariant
                g == collage@,
                canvas_width == g.width,
                canvas_height == g.height,
                x_end <= canvas_width,
                y_end <= canvas_height,
                x_end as int == if x + width > g.width { g.width } else { x + width },
                y_end as int == if y + height > g.height { g.height } else { y + height },
                y <= j < y_end,
                x <= i,
                forall|a: int, k: int|
                    g.contains(a, k) && Grid::in_box(
                        x as int,
                        y as int,
                        width as int,
                        height as int,
                        a,
                        k,
                    ) && (k < j || (k == j && a < i)) ==> (#[trigger] g.at(a, k)).is_background(),
            decreases x_end - i,
        {
            if !collage.pixel_at(i, j).is_background() {
                return false;
            }
            i += 1;
        }
        j += 1;
    }
    true
}

/// Whether `(x, y)` is an anchor of `canvas`: a background pixel with a border
/// pixel directly left, right, above or below it.
pub fn is_anchor(canvas: &Canvas, x: u32, y: u32) -> (anchor: bool)
    ensures
        anchor == canvas@.is_anchor(x as int, y as int),
{
    let width: u32 = canvas.width();
    let height: u32 = canvas.height();
    if x >= width || y >= height {
        return false;
    }
    if !canvas.pixel_at(x, y).is_background() {
        return false;
    }
    if x > 0 && canvas.pixel_at(x - 1, y).is_border() {
        return true;
    }
    if x < width - 1 && canvas.pixel_at(x + 1, y).is_border() {
        return true;
    }
    if y > 0 && canvas.pixel_at(x, y - 1).is_border() {
        return true;
    }
    if y < height - 1 && canvas.pixel_at(x, y + 1).is_border() {
        return true;
    }
    false
}

} // verus!
