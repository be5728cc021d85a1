//! The mathematical model of an image, and the laws of reading and writing
//! its pixels.

use crate::layout::{
    image_size, in_bounds, lemma_pixel_offset_in_array, lemma_pixels_disjoint, pixel_offset,
    row_stride, valid_dimensions,
};
use vstd::prelude::*;

verus! {

/// A colour, as its red, green and blue channels.
pub type Color = (u8, u8, u8);

/// The colour of every pixel of a fresh image.
pub open spec fn white() -> Color {
    (0xFFu8, 0xFFu8, 0xFFu8)
}

/// The bytes that keep a pixel of the given colour: blue, green, red.
pub open spec fn stored(color: Color) -> Seq<u8> {
    seq![color.2, color.1, color.0]
}

/// An image as a mathematical value: its dimensions in pixels, and its pixel
/// array byte for byte as an encoded file holds it.
pub struct Raster {
    pub width: int,
    pub height: int,
    pub data: Seq<u8>,
}

impl Raster {
    /// The dimensions are valid and the pixel array has the length they call for.
    pub open spec fn wf(self) -> bool {
        &&& valid_dimensions(self.width, self.height)
        &&& self.data.len() == image_size(self.width, self.height)
    }

    /// The image of the given dimensions whose pixel array holds `0xFF` throughout.
    pub open spec fn blank(width: int, height: int) -> Raster {
        Raster { width, height, data: Seq::new(image_size(width, height) as nat, |i: int| 0xFFu8) }
    }

    /// Whether `(x, y)` names a pixel of this image.
    pub open spec fn contains(self, x: int, y: int) -> bool {
        in_bounds(self.width, self.height, x, y)
    }

    /// Index in `data` of the first byte of pixel `(x, y)`.
    pub open spec fn offset(self, x: int, y: int) -> int {
        pixel_offset(self.width, self.height, x, y)
    }

    /// The colour of pixel `(x, y)`. Its bytes are kept as blue, green, red.
    pub open spec fn pixel(self, x: int, y: int) -> Color {
        let i = self.offset(x, y);
        (self.data[i + 2], self.data[i + 1], self.data[i])
    }

    /// This image with pixel `(x, y)` set to `color`.
    pub open spec fn with_pixel(self, x: int, y: int, color: Color) -> Raster {
        let i = self.offset(x, y);
        Raster {
            width: self.width,
            height: self.height,
            data: self.data.update(i, color.2).update(i + 1, color.1).update(i + 2, color.0),
        }
    }

    /// The `k`-th stored row, counted from 0: the `k`-th run of
    /// `row_stride(width)` bytes of the pixel array.
    pub open spec fn stored_row(self, k: int) -> Seq<u8> {
        self.data.subrange(k * row_stride(self.width), (k + 1) * row_stride(self.width))
    }
}

/// Every pixel of a blank image is white.
pub proof fn lemma_blank_is_white(width: int, height: int, x: int, y: int)
    requires
        valid_dimensions(width, height),
        in_bounds(width, height, x, y),
    ensures
        Raster::blank(width, height).pixel(x, y) == white(),
{
    lemma_pixel_offset_in_array(width, height, x, y);
}

/// Setting a pixel keeps the image well formed, the pixel then reads back as
/// the colour it was given, and every other pixel reads as it did before.
pub proof fn lemma_with_pixel(r: Raster, x: int, y: int, color: Color)
    requires
        r.wf(),
        r.contains(x, y),
    ensures
        r.with_pixel(x, y, color).wf(),
        r.with_pixel(x, y, color).pixel(x, y) == color,
        forall|u: int, v: int|
            r.contains(u, v) && (u != x || v != y) ==> #[trigger] r.with_pixel(x, y, color).pixel(
                u,
                v,
            ) == r.pixel(u, v),
{
    lemma_pixel_offset_in_array(r.width, r.height, x, y);
    assert forall|u: int, v: int| r.contains(u, v) && (u != x || v != y) implies #[trigger] r.with_pixel(
        x,
        y,
        color,
    ).pixel(u, v) == r.pixel(u, v) by {
        lemma_pixel_offset_in_array(r.width, r.height, u, v);
        lemma_pixels_disjoint(r.width, r.height, x, y, u, v);
    }
}

/// The bottom row of the image is stored first: a colour given to the pixel
/// at its left end opens the pixel array.
pub proof fn lemma_bottom_row_is_stored_first(r: Raster, color: Color)
    requires
        r.wf(),
        0 < r.width,
        0 < r.height,
    ensures
        r.offset(0, r.height - 1) == 0,
        r.with_pixel(0, r.height - 1, color).stored_row(0).subrange(0, 3) == stored(color),
{
    lemma_pixel_offset_in_array(r.width, r.height, 0, r.height - 1);
    let rows_below = r.height - (r.height - 1) - 1;
    let stride = row_stride(r.width);
    assert(rows_below * (r.width * 3) == 0) by (nonlinear_arith)
        requires
            rows_below == 0,
    ;
    assert(0 * stride == 0 && (0 + 1) * stride == stride) by (nonlinear_arith);
    assert(stride <= r.height * stride) by (nonlinear_arith)
        requires
            1 <= r.height,
            0 <= stride,
    ;
    let after = r.with_pixel(0, r.height - 1, color);
    assert(after.stored_row(0).subrange(0, 3) =~= stored(color));
}

/// The top row of the image is stored last: a colour given to the pixel at
/// its left end opens the last stored row. This holds where rows are stored
/// without padding, or where the image has a single row; elsewhere pixels
/// are packed more tightly than rows are counted.
pub proof fn lemma_top_row_is_stored_last(r: Raster, color: Color)
    requires
        r.wf(),
        0 < r.width,
        0 < r.height,
        r.width % 4 == 0 || r.height == 1,
    ensures
        r.offset(0, 0) == (r.height - 1) * row_stride(r.width),
        r.with_pixel(0, 0, color).stored_row(r.height - 1).subrange(0, 3) == stored(color),
{
    lemma_pixel_offset_in_array(r.width, r.height, 0, 0);
    let last = r.height - 1;
    let stride = row_stride(r.width);
    assert(last * (r.width * 3) == last * stride) by (nonlinear_arith)
        requires
            stride == r.width * 3 || last == 0,
    ;
    assert((last + 1) * stride == r.data.len()) by (nonlinear_arith)
        requires
            r.data.len() == r.height * stride,
            last == r.height - 1,
    ;
    assert(0 <= last * stride) by (nonlinear_arith)
        requires
            0 <= last,
            0 <= stride,
    ;
    let after = r.with_pixel(0, 0, color);
    assert(after.stored_row(last).subrange(0, 3) =~= stored(color));
}

} // verus!
