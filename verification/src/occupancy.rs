//! Counting the occupied pixels of a raster, and how growth and placement
//! change the count.

use crate::grid::Grid;
use vstd::prelude::*;

verus! {

/// How many of the first `n` pixels of row `y` are not background.
pub open spec fn occupied_in_row(g: Grid, y: int, n: int) -> int
    decreases n,
{
    if n <= 0 {
        0
    } else {
        occupied_in_row(g, y, n - 1) + if g.at(n - 1, y).is_background() {
            0int
        } else {
            1int
        }
    }
}

/// How many pixels of the first `m` rows are not background.
pub open spec fn occupied_in_rows(g: Grid, m: int) -> int
    decreases m,
{
    if m <= 0 {
        0
    } else {
        occupied_in_rows(g, m - 1) + occupied_in_row(g, m - 1, g.width)
    }
}

/// How many pixels of the raster are not background.
pub open spec fn occupied(g: Grid) -> int {
    occupied_in_rows(g, g.height)
}

/// `v` limited to the range from zero to `most`.
pub open spec fn clamped(v: int, most: int) -> int {
    if v < 0 {
        0
    } else if v > most {
        most
    } else {
        v
    }
}

proof fn lemma_row_bounds(g: Grid, y: int, n: int)
    requires
        0 <= n,
    ensures
        0 <= occupied_in_row(g, y, n) <= n,
    decreases n,
{
    if n > 0 {
        lemma_row_bounds(g, y, n - 1);
    }
}

proof fn lemma_rows_bounds(g: Grid, m: int)
    requires
        0 <= m,
        0 <= g.width,
    ensures
        0 <= occupied_in_rows(g, m) <= g.width * m,
    decreases m,
{
    if m > 0 {
        lemma_rows_bounds(g, m - 1);
        lemma_row_bounds(g, m - 1, g.width);
        assert(g.width * m == g.width * (m - 1) + g.width) by (nonlinear_arith);
    } else {
        assert(g.width * m == 0) by (nonlinear_arith)
            requires
                m == 0,
        ;
    }
}

/// A raster has no more occupied pixels than pixels.
pub proof fn lemma_occupied_at_most_area(g: Grid)
    requires
        0 <= g.width,
        0 <= g.height,
    ensures
        0 <= occupied(g) <= g.area(),
{
    lemma_rows_bounds(g, g.height);
}

proof fn lemma_row_agree(a: Grid, b: Grid, ya: int, yb: int, n: int)
    requires
        forall|x: int| 0 <= x < n ==> #[trigger] a.at(x, ya) == b.at(x, yb),
    ensures
        occupied_in_row(a, ya, n) == occupied_in_row(b, yb, n),
    decreases n,
{
    if n > 0 {
        lemma_row_agree(a, b, ya, yb, n - 1);
    }
}

proof fn lemma_row_background(g: Grid, y: int, from: int, n: int)
    requires
        0 <= from <= n,
        forall|x: int| from <= x < n ==> (#[trigger] g.at(x, y)).is_background(),
    ensures
        occupied_in_row(g, y, n) == occupied_in_row(g, y, from),
    decreases n,
{
    if n > from {
        lemma_row_background(g, y, from, n - 1);
    }
}

proof fn lemma_rows_grown(g: Grid, width: int, height: int, m: int)
    requires
        0 <= g.width <= width,
        0 <= g.height <= height,
        0 <= m <= height,
    ensures
        occupied_in_rows(g.grown(width, height), m) == occupied_in_rows(
            g,
            if m < g.height {
                m
            } else {
                g.height
            },
        ),
    decreases m,
{
    let big = g.grown(width, height);
    if m > 0 {
        lemma_rows_grown(g, width, height, m - 1);
        let y = m - 1;
        if y < g.height {
            lemma_row_background(big, y, g.width, width);
            lemma_row_agree(big, g, y, y, g.width);
        } else {
            lemma_row_background(big, y, 0, width);
        }
    }
}

/// Growing a canvas adds background only.
pub proof fn lemma_occupied_grown(g: Grid, width: int, height: int)
    requires
        0 <= g.width <= width,
        0 <= g.height <= height,
    ensures
        occupied(g.grown(width, height)) == occupied(g),
{
    lemma_rows_grown(g, width, height, height);
}

proof fn lemma_row_pasted(base: Grid, rect: Grid, left: int, top: int, y: int, n: int)
    requires
        0 <= rect.width,
        0 <= rect.height,
        rect.solid(),
        base.covers(left, top, rect.width, rect.height),
        base.region_empty(left, top, rect.width, rect.height),
        top <= y < top + rect.height,
        0 <= n <= base.width,
    ensures
        occupied_in_row(base.pasted(rect, left, top), y, n) == occupied_in_row(base, y, n) + clamped(
            n - left,
            rect.width,
        ),
    decreases n,
{
    if n > 0 {
        lemma_row_pasted(base, rect, left, top, y, n - 1);
    }
}

proof fn lemma_rows_pasted(base: Grid, rect: Grid, left: int, top: int, m: int)
    requires
        0 <= rect.width,
        0 <= rect.height,
        rect.solid(),
        base.covers(left, top, rect.width, rect.height),
        base.region_empty(left, top, rect.width, rect.height),
        0 <= m <= base.height,
    ensures
        occupied_in_rows(base.pasted(rect, left, top), m) == occupied_in_rows(base, m) + rect.width
            * clamped(m - top, rect.height),
    decreases m,
{
    let pasted = base.pasted(rect, left, top);
    if m > 0 {
        lemma_rows_pasted(base, rect, left, top, m - 1);
        let y = m - 1;
        let before = clamped(m - 1 - top, rect.height);
        let after = clamped(m - top, rect.height);
        if top <= y < top + rect.height {
            lemma_row_pasted(base, rect, left, top, y, base.width);
            assert(rect.width * after == rect.width * before + rect.width) by (nonlinear_arith)
                requires
                    after == before + 1,
            ;
        } else {
            lemma_row_agree(pasted, base, y, y, base.width);
        }
    } else {
        assert(rect.width * clamped(m - top, rect.height) == 0) by (nonlinear_arith)
            requires
                clamped(m - top, rect.height) == 0,
        ;
    }
}

/// Copying an image without background-coloured pixels into an empty box
/// occupies exactly the pixels of the box.
pub proof fn lemma_occupied_pasted(base: Grid, rect: Grid, left: int, top: int)
    requires
        0 <= rect.width,
        0 <= rect.height,
        rect.solid(),
        base.covers(left, top, rect.width, rect.height),
        base.region_empty(left, top, rect.width, rect.height),
    ensures
        occupied(base.pasted(rect, left, top)) == occupied(base) + rect.area(),
{
    lemma_rows_pasted(base, rect, left, top, base.height);
}

proof fn lemma_row_solid(rect: Grid, y: int, n: int)
    requires
        rect.solid(),
        0 <= y < rect.height,
        0 <= n <= rect.width,
    ensures
        occupied_in_row(rect, y, n) == n,
    decreases n,
{
    if n > 0 {
        lemma_row_solid(rect, y, n - 1);
    }
}

proof fn lemma_rows_solid(rect: Grid, m: int)
    requires
        rect.solid(),
        0 <= rect.width,
        0 <= m <= rect.height,
    ensures
        occupied_in_rows(rect, m) == rect.width * m,
    decreases m,
{
    if m > 0 {
        lemma_rows_solid(rect, m - 1);
        lemma_row_solid(rect, m - 1, rect.width);
        assert(rect.width * m == rect.width * (m - 1) + rect.width) by (nonlinear_arith);
    } else {
        assert(rect.width * m == 0) by (nonlinear_arith)
            requires
                m == 0,
        ;
    }
}

/// An image without background-coloured pixels is occupied throughout.
pub proof fn lemma_occupied_solid(rect: Grid)
    requires
        rect.solid(),
        0 <= rect.width,
        0 <= rect.height,
    ensures
        occupied(rect) == rect.area(),
{
    lemma_rows_solid(rect, rect.height);
}

} // verus!
