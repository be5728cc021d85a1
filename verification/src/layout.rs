//! Geometry of the pixel array: how many bytes an image occupies and where
//! in them a pixel is kept.
//!
//! The array is sized by rows of `width * 3 + width % 4` bytes, while pixels
//! are placed in runs of `width * 3` bytes. The two agree where the width is
//! a multiple of 4. Elsewhere the pixels fill the front of the array without
//! gaps, and the bytes that sizing added stay behind them, untouched.

use vstd::prelude::*;

verus! {

/// Bytes appended to each row of `width` pixels when the pixel array is sized.
pub open spec fn row_padding(width: int) -> int {
    width % 4
}

/// Bytes that one row of `width` pixels contributes to the pixel array.
pub open spec fn row_stride(width: int) -> int {
    width * 3 + row_padding(width)
}

/// Length in bytes of the pixel array of a `width` by `height` image.
pub open spec fn image_size(width: int, height: int) -> int {
    height * row_stride(width)
}

/// The dimensions an image can be built with: neither is negative, and the
/// pixel array is small enough for its length to be held in an `i32`.
pub open spec fn valid_dimensions(width: int, height: int) -> bool {
    &&& 0 <= width
    &&& 0 <= height
    &&& image_size(width, height) <= i32::MAX
}

/// Whether `(x, y)` names a pixel of a `width` by `height` image.
pub open spec fn in_bounds(width: int, height: int, x: int, y: int) -> bool {
    0 <= x < width && 0 <= y < height
}

/// Index in the pixel array of the first byte of pixel `(x, y)`.
///
/// Rows are kept bottom-up: row `y` of the image is the `height - y - 1`-th
/// run of `width * 3` bytes.
pub open spec fn pixel_offset(width: int, height: int, x: int, y: int) -> int {
    (height - y - 1) * (width * 3) + x * 3
}

/// The three bytes of an in-range pixel lie inside the pixel array, and the
/// offset together with every intermediate product fits in an `i32`.
pub proof fn lemma_pixel_offset_in_array(width: int, height: int, x: int, y: int)
    requires
        valid_dimensions(width, height),
        in_bounds(width, height, x, y),
    ensures
        0 <= width * 3 <= height * width * 3,
        0 <= (height - y - 1) * (width * 3) <= pixel_offset(width, height, x, y),
        pixel_offset(width, height, x, y) + 3 <= height * width * 3,
        height * width * 3 <= image_size(width, height),
{
    let rows_below = height - y - 1;
    assert(width * 3 <= height * width * 3) by (nonlinear_arith)
        requires
            1 <= height,
            0 <= width,
    ;
    assert(0 <= rows_below * (width * 3)) by (nonlinear_arith)
        requires
            0 <= rows_below,
            0 <= width,
    ;
    assert(rows_below * (width * 3) + width * 3 <= height * width * 3) by (nonlinear_arith)
        requires
            0 <= rows_below < height,
            0 <= width,
    ;
    assert(height * width * 3 <= height * (width * 3 + width % 4)) by (nonlinear_arith)
        requires
            0 <= height,
            0 <= width,
    ;
}

/// Two different in-range pixels occupy disjoint triples of bytes.
pub proof fn lemma_pixels_disjoint(width: int, height: int, x1: int, y1: int, x2: int, y2: int)
    requires
        in_bounds(width, height, x1, y1),
        in_bounds(width, height, x2, y2),
        x1 != x2 || y1 != y2,
    ensures
        pixel_offset(width, height, x1, y1) + 3 <= pixel_offset(width, height, x2, y2)
            || pixel_offset(width, height, x2, y2) + 3 <= pixel_offset(width, height, x1, y1),
{
    let r1 = height - y1 - 1;
    let r2 = height - y2 - 1;
    if r1 < r2 {
        assert(r1 * (width * 3) + width * 3 <= r2 * (width * 3)) by (nonlinear_arith)
            requires
                r1 + 1 <= r2,
                0 <= width,
        ;
    } else if r2 < r1 {
        assert(r2 * (width * 3) + width * 3 <= r1 * (width * 3)) by (nonlinear_arith)
            requires
                r2 + 1 <= r1,
                0 <= width,
        ;
    }
}

} // verus!
