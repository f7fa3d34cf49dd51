//! The pixel buffer the packer works on. The storage is an RGBA buffer of the
//! `image` crate; everything this module states about that crate's functions
//! is taken on trust and marked as such.

use crate::color::Color;
use crate::grid::Grid;
use image::GenericImage;
use vstd::prelude::*;

verus! {

/// The error type of the `image` crate. Nothing is known of its values: a
/// failed call is told from a successful one by the `Result` around it.
#[verifier::external_type_specification]
#[verifier::external_body]
pub struct ExImageError(image::ImageError);

/// An owned RGBA pixel buffer.
///
/// Trusted: the buffer is an `image::RgbaImage`, which the verifier cannot
/// look into. Its size and content are known only through `canvas_width`,
/// `canvas_height` and `canvas_pixels`.
#[verifier::external_body]
pub struct Canvas {
    buffer: image::RgbaImage,
}

/// The width of the buffer, as `ImageBuffer::width` reports it.
pub uninterp spec fn canvas_width(canvas: Canvas) -> nat;

/// The height of the buffer, as `ImageBuffer::height` reports it.
pub uninterp spec fn canvas_height(canvas: Canvas) -> nat;

/// The pixels of the buffer by coordinate `(x, y)`, as `ImageBuffer::get_pixel`
/// reports them.
pub uninterp spec fn canvas_pixels(canvas: Canvas) -> Map<(int, int), Color>;

/// What `Pixel::blend` of the `image` crate leaves in an RGBA pixel `bottom`
/// when `top`, neither fully transparent nor fully opaque, is blended onto it.
pub uninterp spec fn blended(bottom: Color, top: Color) -> Color;

/// Source-over blending of one pixel onto another: a fully opaque pixel
/// replaces what is below it and a fully transparent one leaves it as it is.
pub open spec fn blend_over(bottom: Color, top: Color) -> Color {
    if top.a == 0 {
        bottom
    } else if top.a == 255 {
        top
    } else {
        blended(bottom, top)
    }
}

/// Whether a buffer of this size can be allocated: both dimensions fit in 32
/// bits, the four bytes per pixel of one row fit in a machine word, whether
/// or not there is a row, and those of all rows stay within the largest
/// allocation.
pub open spec fn allocatable(width: int, height: int) -> bool {
    &&& 0 <= width <= u32::MAX
    &&& 0 <= height <= u32::MAX
    &&& 4 * width <= usize::MAX
    &&& 4 * (width * height) <= isize::MAX
}

impl View for Canvas {
    type V = Grid;

    open spec fn view(&self) -> Grid {
        Grid::from_fn(
            canvas_width(*self) as int,
            canvas_height(*self) as int,
            |x: int, y: int| canvas_pixels(*self)[(x, y)],
        )
    }
}

impl Grid {
    /// This raster with `top` blended onto it, the top-left corner of `top`
    /// at `(left, top_edge)`. What falls outside this raster is dropped.
    pub open spec fn overlaid(self, top: Grid, left: int, top_edge: int) -> Grid {
        Grid::from_fn(
            self.width,
            self.height,
            |x: int, y: int|
                if Grid::in_box(left, top_edge, top.width, top.height, x, y) {
                    blend_over(self.at(x, y), top.at(x - left, y - top_edge))
                } else {
                    self.at(x, y)
                },
        )
    }
}

impl Canvas {
    /// Trusted: `ImageBuffer::width` returns the buffer's width.
    #[verifier::external_body]
    fn raw_width(&self) -> (w: u32)
        ensures
            w == canvas_width(*self),
    {
        self.buffer.width()
    }

    /// Trusted: `ImageBuffer::height` returns the buffer's height.
    #[verifier::external_body]
    fn raw_height(&self) -> (h: u32)
        ensures
            h == canvas_height(*self),
    {
        self.buffer.height()
    }

    /// Trusted: `ImageBuffer::get_pixel` returns the pixel stored at `(x, y)`.
    /// It panics outside the buffer, which the precondition rules out.
    #[verifier::external_body]
    fn raw_pixel(&self, x: u32, y: u32) -> (c: Color)
        requires
            x < canvas_width(*self),
            y < canvas_height(*self),
        ensures
            c == canvas_pixels(*self)[(x as int, y as int)],
    {
        let p = self.buffer.get_pixel(x, y);
        Color { r: p.0[0], g: p.0[1], b: p.0[2], a: p.0[3] }
    }

    /// Trusted: `ImageBuffer::put_pixel` overwrites the pixel at `(x, y)` and
    /// no other. It panics outside the buffer, which the precondition rules
    /// out.
    #[verifier::external_body]
    fn raw_put_pixel(&mut self, x: u32, y: u32, color: Color)
        requires
            x < canvas_width(*old(self)),
            y < canvas_height(*old(self)),
        ensures
            final(self)@ == old(self)@.with_pixel(x as int, y as int, color),
    {
        self.buffer.put_pixel(x, y, image::Rgba([color.r, color.g, color.b, color.a]));
    }

    /// Trusted: `ImageBuffer::from_pixel` returns a buffer of the given size
    /// with every pixel equal to `color`. It computes the byte length as four
    /// times the width, times the height, and panics when either product
    /// leaves the machine word or the length exceeds what a vector can hold;
    /// the precondition rules all three out.
    #[verifier::external_body]
    fn raw_filled(width: u32, height: u32, color: Color) -> (canvas: Canvas)
        requires
            allocatable(width as int, height as int),
        ensures
            canvas@ == Grid::filled(width as int, height as int, color),
    {
        let pixel = image::Rgba([color.r, color.g, color.b, color.a]);
        Canvas { buffer: image::RgbaImage::from_pixel(width, height, pixel) }
    }

    /// Trusted: `GenericImage::copy_from` on an `ImageBuffer` succeeds exactly
    /// when `other`, placed with its top-left corner at `(x, y)`, lies inside
    /// this buffer. It then overwrites that box with the pixels of `other`
    /// and leaves the rest alone; on failure nothing is written.
    #[verifier::external_body]
    fn raw_copy_from(&mut self, other: &Canvas, x: u32, y: u32) -> (r: Result<(), image::ImageError>)
        ensures
            r.is_ok() <==> old(self)@.covers(x as int, y as int, other@.width, other@.height),
            r.is_ok() ==> final(self)@ == old(self)@.pasted(other@, x as int, y as int),
            r.is_err() ==> final(self)@ == old(self)@,
    {
        self.buffer.copy_from(&other.buffer, x, y)
    }

    /// Trusted: `imageops::overlay` blends each pixel of `top` that falls
    /// inside this buffer onto the pixel below it, with `Pixel::blend`, and
    /// leaves the rest alone.
    #[verifier::external_body]
    fn raw_overlay(&mut self, top: &Canvas, x: u32, y: u32)
        ensures
            final(self)@.width == old(self)@.width,
            final(self)@.height == old(self)@.height,
            forall|i: int, j: int|
                old(self)@.contains(i, j) ==> #[trigger] final(self)@.at(i, j) == (if Grid::in_box(
                    x as int,
                    y as int,
                    top@.width,
                    top@.height,
                    i,
                    j,
                ) {
                    let below = old(self)@.at(i, j);
                    let above = top@.at(i - x, j - y);
                    if above.a == 0 {
                        below
                    } else if above.a == 255 {
                        above
                    } else {
                        blended(below, above)
                    }
                } else {
                    old(self)@.at(i, j)
                }),
    {
        image::imageops::overlay(&mut self.buffer, &top.buffer, i64::from(x), i64::from(y));
    }

    /// The number of pixels in a row.
    pub fn width(&self) -> (w: u32)
        ensures
            w == self@.width,
    {
        self.raw_width()
    }

    /// The number of rows.
    pub fn height(&self) -> (h: u32)
        ensures
            h == self@.height,
    {
        self.raw_height()
    }

    /// The pixel at `(x, y)`, or `None` outside the buffer.
    pub fn pixel(&self, x: u32, y: u32) -> (p: Option<Color>)
        ensures
            p == if self@.contains(x as int, y as int) {
                Some(self@.at(x as int, y as int))
            } else {
                None
            },
    {
        if x < self.raw_width() && y < self.raw_height() {
            Some(self.raw_pixel(x, y))
        } else {
            None
        }
    }

    /// The pixel at `(x, y)` of a buffer that contains it.
    pub fn pixel_at(&self, x: u32, y: u32) -> (c: Color)
        requires
            self@.contains(x as int, y as int),
        ensures
            c == self@.at(x as int, y as int),
    {
        self.raw_pixel(x, y)
    }

    /// Overwrites the pixel at `(x, y)`. Outside the buffer nothing is
    /// written and `false` is returned.
    pub fn set_pixel(&mut self, x: u32, y: u32, color: Color) -> (written: bool)
        ensures
            written == old(self)@.contains(x as int, y as int),
            written ==> final(self)@ == old(self)@.with_pixel(x as int, y as int, color),
            !written ==> final(self)@ == old(self)@,
    {
        if x < self.raw_width() && y < self.raw_height() {
            self.raw_put_pixel(x, y, color);
            true
        } else {
            false
        }
    }

    /// Whether a buffer of `width` by `height` pixels can be allocated.
    pub fn can_allocate(width: u64, height: u64) -> (ok: bool)
        ensures
            ok == allocatable(width as int, height as int),
    {
        if width > u32::MAX as u64 || height > u32::MAX as u64 {
            return false;
        }
        if 4 * width > usize::MAX as u64 {
            return false;
        }
        assert(width * height <= 0xffff_ffff * 0xffff_ffff) by (nonlinear_arith)
            requires
                width <= 0xffff_ffff,
                height <= 0xffff_ffff,
        ;
        let area: u64 = width * height;
        let limit: u64 = (isize::MAX as u64) / 4;
        area <= limit
    }

    /// A buffer of one colour. `can_allocate` tells whether the size is
    /// admissible.
    pub fn filled(width: u32, height: u32, color: Color) -> (canvas: Canvas)
        requires
            allocatable(width as int, height as int),
        ensures
            canvas@ == Grid::filled(width as int, height as int, color),
    {
        Canvas::raw_filled(width, height, color)
    }

    /// Copies `other` into this buffer with its top-left corner at `(x, y)`.
    pub fn paste(&mut self, other: &Canvas, x: u32, y: u32)
        requires
            old(self)@.covers(x as int, y as int, other@.width, other@.height),
        ensures
            final(self)@ == old(self)@.pasted(other@, x as int, y as int),
    {
        let copied = self.raw_copy_from(other, x, y);
        assert(copied.is_ok());
    }

    /// Blends `top` onto this buffer with its top-left corner at `(x, y)`.
    pub fn overlay(&mut self, top: &Canvas, x: u32, y: u32)
        ensures
            final(self)@ == old(self)@.overlaid(top@, x as int, y as int),
    {
        self.raw_overlay(top, x, y);
        proof {
            self@.lemma_same_content_equal(old(self)@.overlaid(top@, x as int, y as int));
        }
    }
}

} // verus!
