//! Where a rectangle goes on a canvas, and how the canvas grows when it fits
//! nowhere.

use crate::canvas::{allocatable, Canvas};
use crate::color::Color;
use crate::error::CollageError;
use crate::grid::Grid;
use crate::space::{is_anchor, is_empty_space};
use vstd::prelude::*;

verus! {

/// A position at which a `w` by `h` rectangle may be put: an anchor whose
/// box, as far as it lies on the canvas, is empty.
pub open spec fn is_candidate(g: Grid, w: int, h: int, x: int, y: int) -> bool {
    g.is_anchor(x, y) && g.region_empty(x, y, w, h)
}

/// A candidate whose box lies wholly on the canvas.
pub open spec fn fits_at(g: Grid, w: int, h: int, x: int, y: int) -> bool {
    is_candidate(g, w, h, x, y) && g.covers(x, y, w, h)
}

/// `(x1, y1)` comes before `(x2, y2)` when rows are read from the top and
/// each row from the left.
pub open spec fn scan_before(x1: int, y1: int, x2: int, y2: int) -> bool {
    y1 < y2 || (y1 == y2 && x1 < x2)
}

/// The first position, in reading order, at which the rectangle fits.
pub open spec fn is_first_fit(g: Grid, w: int, h: int, x: int, y: int) -> bool {
    &&& fits_at(g, w, h, x, y)
    &&& forall|i: int, j: int| #[trigger] fits_at(g, w, h, i, j) ==> !scan_before(i, j, x, y)
}

/// The rectangle fits somewhere on the canvas as it is.
pub open spec fn has_fit(g: Grid, w: int, h: int) -> bool {
    exists|x: int, y: int| fits_at(g, w, h, x, y)
}

/// The first fit, where there is one.
pub open spec fn first_fit(g: Grid, w: int, h: int) -> (int, int) {
    choose|p: (int, int)| is_first_fit(g, w, h, p.0, p.1)
}

/// The least extent that holds both the current extent and a rectangle of
/// the given size at the given offset, with one pixel to spare behind it.
pub open spec fn grown_extent(current: int, offset: int, size: int) -> int {
    if offset + size + 1 < current {
        current
    } else {
        offset + size + 1
    }
}

/// The area that the canvas gains when it grows to take the rectangle at
/// `(x, y)`.
pub open spec fn growth_cost(g: Grid, w: int, h: int, x: int, y: int) -> int {
    grown_extent(g.width, x, w) * grown_extent(g.height, y, h) - g.width * g.height
}

/// Growing for `(bx, by)` is at least as good as growing for `(x, y)`: it
/// costs less, or the same and `(x, y)` does not come first.
pub open spec fn growth_preferred(g: Grid, w: int, h: int, bx: int, by: int, x: int, y: int) -> bool {
    growth_cost(g, w, h, bx, by) < growth_cost(g, w, h, x, y) || (growth_cost(g, w, h, bx, by)
        == growth_cost(g, w, h, x, y) && !scan_before(x, y, bx, by))
}

/// The candidate with the least growth cost; among equals, the first in
/// reading order.
pub open spec fn is_best_growth(g: Grid, w: int, h: int, x: int, y: int) -> bool {
    &&& is_candidate(g, w, h, x, y)
    &&& forall|i: int, j: int| #[trigger]
        is_candidate(g, w, h, i, j) ==> growth_preferred(g, w, h, x, y, i, j)
}

/// Some anchor has an empty box, on the canvas or reaching over its edge.
pub open spec fn has_candidate(g: Grid, w: int, h: int) -> bool {
    exists|x: int, y: int| is_candidate(g, w, h, x, y)
}

/// The best growth candidate, where there is a candidate.
pub open spec fn best_growth(g: Grid, w: int, h: int) -> (int, int) {
    choose|p: (int, int)| is_best_growth(g, w, h, p.0, p.1)
}

/// What one scan of the canvas decides for a `w` by `h` rectangle.
pub enum Decision {
    /// Copy the rectangle in at this position.
    Place { x: int, y: int },
    /// Enlarge the canvas to this size and scan again.
    Grow { width: int, height: int },
}

/// The outcome of one scan. The rectangle goes to the first position where
/// it fits. If it fits nowhere, the canvas grows for the candidate that costs
/// the least area. If there is no candidate at all, the canvas is extended by
/// the rectangle's extent in one direction: in height when the canvas is
/// wider than high, in width otherwise.
pub open spec fn decide(g: Grid, w: int, h: int) -> Decision {
    if has_fit(g, w, h) {
        Decision::Place { x: first_fit(g, w, h).0, y: first_fit(g, w, h).1 }
    } else if has_candidate(g, w, h) {
        Decision::Grow {
            width: grown_extent(g.width, best_growth(g, w, h).0, w),
            height: grown_extent(g.height, best_growth(g, w, h).1, h),
        }
    } else if g.width > g.height {
        Decision::Grow { width: g.width, height: g.height + h }
    } else {
        Decision::Grow { width: g.width + w, height: g.height }
    }
}

/// At most one position is the first fit.
pub proof fn lemma_first_fit_unique(g: Grid, w: int, h: int, x: int, y: int)
    requires
        is_first_fit(g, w, h, x, y),
    ensures
        has_fit(g, w, h),
        first_fit(g, w, h) == (x, y),
{
    let p = (x, y);
    assert(is_first_fit(g, w, h, p.0, p.1));
}

/// At most one position is the best growth candidate.
pub proof fn lemma_best_growth_unique(g: Grid, w: int, h: int, x: int, y: int)
    requires
        is_best_growth(g, w, h, x, y),
    ensures
        has_candidate(g, w, h),
        best_growth(g, w, h) == (x, y),
{
    let p = (x, y);
    assert(is_best_growth(g, w, h, p.0, p.1));
}

/// The outcome of one scan, in machine integers. A grown canvas may no
/// longer fit in 32 bits, so its size is held in 64.
#[derive(Clone, Copy, Debug, PartialEq, Eq)]
pub enum Step {
    /// Copy the rectangle in at this position.
    Place { x: u32, y: u32 },
    /// Enlarge the canvas to this size and scan again.
    Grow { width: u64, height: u64 },
}

impl View for Step {
    type V = Decision;

    open spec fn view(&self) -> Decision {
        match *self {
            Step::Place { x, y } => Decision::Place { x: x as int, y: y as int },
            Step::Grow { width, height } => Decision::Grow {
                width: width as int,
                height: height as int,
            },
        }
    }
}

fn grown_extent_of(current: u32, offset: u32, size: u32) -> (extent: u64)
    ensures
        extent == grown_extent(current as int, offset as int, size as int),
        current <= extent <= 0x2_0000_0000,
{
    let wanted: u64 = offset as u64 + size as u64 + 1;
    if wanted < current as u64 {
        current as u64
    } else {
        wanted
    }
}

fn growth_cost_of(canvas: &Canvas, w: u32, h: u32, x: u32, y: u32) -> (cost: u128)
    ensures
        cost == growth_cost(canvas@, w as int, h as int, x as int, y as int),
{
    let cw: u32 = canvas.width();
    let ch: u32 = canvas.height();
    let gw: u64 = grown_extent_of(cw, x, w);
    let gh: u64 = grown_extent_of(ch, y, h);
    assert(gw * gh <= 0x2_0000_0000 * 0x2_0000_0000 && cw * ch <= gw * gh) by (nonlinear_arith)
        requires
            cw <= gw <= 0x2_0000_0000,
            ch <= gh <= 0x2_0000_0000,
    ;
    assert(cw * ch <= 0xffff_ffff * 0xffff_ffff) by (nonlinear_arith)
        requires
            cw <= 0xffff_ffff,
            ch <= 0xffff_ffff,
    ;
    (gw as u128) * (gh as u128) - (cw as u128) * (ch as u128)
}

/// Scans `canvas` once for a place for a `width` by `height` rectangle.
pub fn next_step(canvas: &Canvas, width: u32, height: u32) -> (step: Step)
    ensures
        step@ == decide(canvas@, width as int, height as int),
{
    let cw: u32 = canvas.width();
    let ch: u32 = canvas.height();
    let ghost g = canvas@;
    let ghost w = width as int;
    let ghost h = height as int;
    let mut found: bool = false;
    let mut best_x: u32 = 0;
    let mut best_y: u32 = 0;
    let mut best_cost: u128 = 0;
    let mut y: u32 = 0;
    while y < ch
        invariant
            g == canvas@,
            w == width as int,
            h == height as int,
            cw == g.width,
            ch == g.height,
            y <= ch,
            forall|i: int, j: int| j < y ==> !#[trigger] fits_at(g, w, h, i, j),
            found ==> is_candidate(g, w, h, best_x as int, best_y as int) && best_y < y
                && best_cost == growth_cost(g, w, h, best_x as int, best_y as int),
            found ==> forall|i: int, j: int|
                j < y && #[trigger] is_candidate(g, w, h, i, j) ==> growth_preferred(
                    g,
                    w,
                    h,
                    best_x as int,
                    best_y as int,
                    i,
                    j,
                ),
            !found ==> forall|i: int, j: int| j < y ==> !#[trigger] is_candidate(g, w, h, i, j),
        decreases ch - y,
    {
        let mut x: u32 = 0;
        while x < cw
            invariant
                g == canvas@,
                w == width as int,
                h == height as int,
                cw == g.width,
                ch == g.height,
                y < ch,
                x <= cw,
                forall|i: int, j: int|
                    scan_before(i, j, x as int, y as int) ==> !#[trigger] fits_at(g, w, h, i, j),
                found ==> is_candidate(g, w, h, best_x as int, best_y as int) && scan_before(
                    best_x as int,
                    best_y as int,
                    x as int,
                    y as int,
                ) && best_cost == growth_cost(g, w, h, best_x as int, best_y as int),
                found ==> forall|i: int, j: int|
                    scan_before(i, j, x as int, y as int) && #[trigger] is_candidate(g, w, h, i, j)
                        ==> growth_preferred(g, w, h, best_x as int, best_y as int, i, j),
                !found ==> forall|i: int, j: int|
                    scan_before(i, j, x as int, y as int) ==> !#[trigger] is_candidate(g, w, h, i, j),
            decreases cw - x,
        {
            if is_anchor(canvas, x, y) && is_empty_space(canvas, x, y, width, height) {
                if width <= cw && x <= cw - width && height <= ch && y <= ch - height {
                    proof {
                        lemma_first_fit_unique(g, w, h, x as int, y as int);
                    }
                    return Step::Place { x, y };
                }
                let cost: u128 = growth_cost_of(canvas, width, height, x, y);
                if !found || cost < best_cost {
                    found = true;
                    best_x = x;
                    best_y = y;
                    best_cost = cost;
                }
            }
            x += 1;
        }
        y += 1;
    }
    if found {
        proof {
            lemma_best_growth_unique(g, w, h, best_x as int, best_y as int);
        }
        Step::Grow {
            width: grown_extent_of(cw, best_x, width),
            height: grown_extent_of(ch, best_y, height),
        }
    } else if cw > ch {
        Step::Grow { width: cw as u64, height: ch as u64 + height as u64 }
    } else {
        Step::Grow { width: cw as u64 + width as u64, height: ch as u64 }
    }
}

/// Where a rectangle ended up, and the canvas that holds it.
pub struct Placement {
    pub canvas: Grid,
    pub x: int,
    pub y: int,
}

/// Placing `rect` on `g` with at most `fuel` growth steps: scan; place if the
/// scan says so; otherwise grow as it says and scan again. `None` when the
/// steps run out or the grown canvas could not be allocated.
pub open spec fn placement(g: Grid, rect: Grid, fuel: nat) -> Option<Placement>
    decreases fuel,
{
    match decide(g, rect.width, rect.height) {
        Decision::Place { x, y } => Some(Placement { canvas: g.pasted(rect, x, y), x, y }),
        Decision::Grow { width, height } => if fuel == 0 || !allocatable(width, height) {
            None
        } else {
            placement(g.grown(width, height), rect, (fuel - 1) as nat)
        },
    }
}

/// A larger canvas with the content of `canvas` at its top-left origin and
/// background everywhere else.
pub fn grow_canvas(canvas: Canvas, new_width: u32, new_height: u32) -> (grown: Canvas)
    requires
        canvas@.width <= new_width,
        canvas@.height <= new_height,
        allocatable(new_width as int, new_height as int),
    ensures
        grown@ == canvas@.grown(new_width as int, new_height as int),
        grown@.width == new_width,
        grown@.height == new_height,
        forall|x: int, y: int| canvas@.contains(x, y) ==> #[trigger] grown@.at(x, y) == canvas@.at(x, y),
        forall|x: int, y: int|
            grown@.contains(x, y) && !canvas@.contains(x, y) ==> #[trigger] grown@.at(x, y)
                == crate::color::background_color(),
{
    let mut grown = Canvas::filled(new_width, new_height, Color::background());
    grown.paste(&canvas, 0, 0);
    proof {
        grown@.lemma_same_content_equal(canvas@.grown(new_width as int, new_height as int));
    }
    grown
}

/// Puts `new_image` on `collage`, growing the canvas as often as needed but
/// at most `max_growth_steps` times.
pub fn place_image(collage: Canvas, new_image: &Canvas, max_growth_steps: u32) -> (result: Result<
    Canvas,
    CollageError,
>)
    ensures
        match result {
            Ok(canvas) => placement(collage@, new_image@, max_growth_steps as nat) matches Some(p)
                && p.canvas == canvas@,
            Err(e) => e == CollageError::PlacementFailure && placement(
                collage@,
                new_image@,
                max_growth_steps as nat,
            ) is None,
        },
        result matches Ok(canvas) ==> {
            let p = placement(collage@, new_image@, max_growth_steps as nat)->0;
            &&& collage@.width <= canvas@.width
            &&& collage@.height <= canvas@.height
            &&& canvas@.covers(p.x, p.y, new_image@.width, new_image@.height)
            &&& forall|x: int, y: int|
                new_image@.contains(x, y) ==> canvas@.at(p.x + x, p.y + y) == #[trigger] new_image@.at(
                    x,
                    y,
                )
            &&& forall|x: int, y: int|
                collage@.contains(x, y) && !(#[trigger] collage@.at(x, y)).is_background()
                    ==> canvas@.at(x, y) == collage@.at(x, y)
        },
{
    let width: u32 = new_image.width();
    let height: u32 = new_image.height();
    let mut canvas = collage;
    let mut steps: u32 = 0;
    loop
        invariant
            width == new_image@.width,
            height == new_image@.height,
            steps <= max_growth_steps,
            placement(collage@, new_image@, max_growth_steps as nat) == placement(
                canvas@,
                new_image@,
                (max_growth_steps - steps) as nat,
            ),
        decreases max_growth_steps - steps,
    {
        match next_step(&canvas, width, height) {
            Step::Place { x, y } => {
                proof {
                    lemma_first_fit_fits(canvas@, width as int, height as int);
                }
                canvas.paste(new_image, x, y);
                proof {
                    lemma_placement(collage@, new_image@, max_growth_steps as nat);
                    lemma_placement_keeps(collage@, new_image@, max_growth_steps as nat);
                }
                return Ok(canvas);
            },
            Step::Grow { width: new_width, height: new_height } => {
                if steps >= max_growth_steps || !Canvas::can_allocate(new_width, new_height) {
                    return Err(CollageError::PlacementFailure);
                }
                proof {
                    lemma_growth_extends(canvas@, width as int, height as int);
                }
                canvas = grow_canvas(canvas, new_width as u32, new_height as u32);
                steps += 1;
            },
        }
    }
}

/// The first fit, where there is one, is a position at which the rectangle
/// fits.
pub proof fn lemma_first_fit_fits(g: Grid, w: int, h: int)
    requires
        has_fit(g, w, h),
    ensures
        is_first_fit(g, w, h, first_fit(g, w, h).0, first_fit(g, w, h).1),
{
    let (x0, y0) = choose|x: int, y: int| fits_at(g, w, h, x, y);
    lemma_first_fit_exists(g, w, h, x0, y0, x0 + y0 * g.width);
    let (x1, y1) = choose|x: int, y: int| is_first_fit(g, w, h, x, y);
    let p = (x1, y1);
    assert(is_first_fit(g, w, h, p.0, p.1));
}

/// Among the positions at which the rectangle fits, one comes first.
proof fn lemma_first_fit_exists(g: Grid, w: int, h: int, x: int, y: int, rank: int)
    requires
        fits_at(g, w, h, x, y),
        rank == x + y * g.width,
    ensures
        exists|i: int, j: int| is_first_fit(g, w, h, i, j),
    decreases rank,
{
    assert(0 <= y * g.width) by (nonlinear_arith)
        requires
            0 <= y,
            0 <= g.width,
    ;
    if !is_first_fit(g, w, h, x, y) {
        let (i, j) = choose|i: int, j: int| fits_at(g, w, h, i, j) && scan_before(i, j, x, y);
        assert(i + j * g.width < x + y * g.width) by (nonlinear_arith)
            requires
                0 <= i < g.width,
                0 <= x < g.width,
                0 <= j,
                j < y || (j == y && i < x),
        ;
        assert(0 <= j * g.width) by (nonlinear_arith)
            requires
                0 <= j,
                0 <= g.width,
        ;
        lemma_first_fit_exists(g, w, h, i, j, i + j * g.width);
    }
}

/// When the rectangle fits nowhere, the size that the scan asks for is at
/// least the current size.
pub proof fn lemma_growth_extends(g: Grid, w: int, h: int)
    requires
        0 <= w,
        0 <= h,
    ensures
        decide(g, w, h) matches Decision::Grow { width, height } ==> g.width <= width && g.height
            <= height,
{
}

/// Growing twice is growing once to the larger size.
pub proof fn lemma_grown_twice(g: Grid, w1: int, h1: int, w2: int, h2: int)
    requires
        0 <= g.width <= w1 <= w2,
        0 <= g.height <= h1 <= h2,
    ensures
        g.grown(w1, h1).grown(w2, h2) == g.grown(w2, h2),
{
    let a = g.grown(w1, h1).grown(w2, h2);
    let b = g.grown(w2, h2);
    assert forall|x: int, y: int| a.contains(x, y) implies #[trigger] a.at(x, y) == b.at(x, y) by {
        if g.grown(w1, h1).contains(x, y) {
            assert(g.grown(w1, h1).at(x, y) == if g.contains(x, y) {
                g.at(x, y)
            } else {
                crate::color::background_color()
            });
        }
    }
    a.lemma_same_content_equal(b);
}

/// What a successful placement leaves: the old canvas, grown to the final
/// size, with the rectangle copied into a box that lay on that canvas and
/// was empty.
pub proof fn lemma_placement(g: Grid, rect: Grid, fuel: nat)
    requires
        g.wf(),
        0 <= rect.width,
        0 <= rect.height,
        placement(g, rect, fuel) is Some,
    ensures
        ({
            let p = placement(g, rect, fuel)->0;
            let base = g.grown(p.canvas.width, p.canvas.height);
            &&& g.width <= p.canvas.width
            &&& g.height <= p.canvas.height
            &&& p.canvas.wf()
            &&& p.canvas.covers(p.x, p.y, rect.width, rect.height)
            &&& base.region_empty(p.x, p.y, rect.width, rect.height)
            &&& p.canvas == base.pasted(rect, p.x, p.y)
        }),
    decreases fuel,
{
    let w = rect.width;
    let h = rect.height;
    match decide(g, w, h) {
        Decision::Place { x, y } => {
            lemma_first_fit_fits(g, w, h);
            let base = g.grown(g.width, g.height);
            g.lemma_same_content_equal(base);
        },
        Decision::Grow { width, height } => {
            lemma_growth_extends(g, w, h);
            let g1 = g.grown(width, height);
            lemma_placement(g1, rect, (fuel - 1) as nat);
            let p = placement(g1, rect, (fuel - 1) as nat)->0;
            lemma_grown_twice(g, width, height, p.canvas.width, p.canvas.height);
        },
    }
}

/// A successful placement writes the rectangle into its box and leaves every
/// occupied pixel of the old canvas as it was.
pub proof fn lemma_placement_keeps(g: Grid, rect: Grid, fuel: nat)
    requires
        g.wf(),
        0 <= rect.width,
        0 <= rect.height,
        placement(g, rect, fuel) is Some,
    ensures
        ({
            let p = placement(g, rect, fuel)->0;
            &&& forall|x: int, y: int|
                rect.contains(x, y) ==> p.canvas.at(p.x + x, p.y + y) == #[trigger] rect.at(x, y)
            &&& forall|x: int, y: int|
                g.contains(x, y) && !(#[trigger] g.at(x, y)).is_background() ==> p.canvas.at(x, y)
                    == g.at(x, y)
        }),
{
    lemma_placement(g, rect, fuel);
}

/// Growing for a candidate makes room for the rectangle: on the grown canvas
/// the candidate is a position at which the rectangle fits, so the next scan
/// places it.
pub proof fn lemma_growth_makes_room(g: Grid, w: int, h: int, x: int, y: int)
    requires
        0 <= g.width,
        0 <= g.height,
        0 <= w,
        0 <= h,
        is_candidate(g, w, h, x, y),
    ensures
        fits_at(
            g.grown(grown_extent(g.width, x, w), grown_extent(g.height, y, h)),
            w,
            h,
            x,
            y,
        ),
        has_fit(g.grown(grown_extent(g.width, x, w), grown_extent(g.height, y, h)), w, h),
{
    let big = g.grown(grown_extent(g.width, x, w), grown_extent(g.height, y, h));
    assert(big.contains(x, y));
    assert(big.touches_border(x, y)) by {
        assert(g.touches_border(x, y));
        if g.contains(x - 1, y) && g.at(x - 1, y).is_border() {
            assert(big.contains(x - 1, y));
        } else if g.contains(x + 1, y) && g.at(x + 1, y).is_border() {
            assert(big.contains(x + 1, y));
        } else if g.contains(x, y - 1) && g.at(x, y - 1).is_border() {
            assert(big.contains(x, y - 1));
        } else {
            assert(big.contains(x, y + 1));
        }
    }
    assert forall|i: int, j: int|
        big.contains(i, j) && Grid::in_box(x, y, w, h, i, j) implies (#[trigger] big.at(
        i,
        j,
    )).is_background() by {
        if g.contains(i, j) {
            assert(g.at(i, j).is_background());
        }
    }
}

} // verus!
