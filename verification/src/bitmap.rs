//! The image buffer itself.

use crate::layout::{in_bounds, lemma_pixel_offset_in_array, valid_dimensions};
use crate::raster::{lemma_blank_is_white, lemma_with_pixel, white, Color, Raster};
use vstd::prelude::*;

verus! {

/// A rectangular image of 24-bit pixels.
///
/// Its view is the [`Raster`] it stands for, which is always well formed.
pub struct Bitmap {
    width: i32,
    height: i32,
    pixels: Vec<u8>,
}

impl View for Bitmap {
    type V = Raster;

    closed spec fn view(&self) -> Raster {
        Raster { width: self.width as int, height: self.height as int, data: self.pixels@ }
    }
}

impl Bitmap {
    #[verifier::type_invariant]
    spec fn inv(&self) -> bool {
        self@.wf()
    }

    /// Creates a white image of the given size.
    ///
    /// The dimensions may be zero, which gives an image without pixels.
    pub fn new(width: i32, height: i32) -> (bitmap: Bitmap)
        requires
            valid_dimensions(width as int, height as int),
        ensures
            bitmap@ == Raster::blank(width as int, height as int),
            bitmap@.wf(),
            forall|x: int, y: int|
                in_bounds(width as int, height as int, x, y) ==> #[trigger] bitmap@.pixel(x, y)
                    == white(),
    {
        let stride: u64 = width as u64 * 3 + (width % 4) as u64;
        let size: u64 = height as u64 * stride;
        let pixels: Vec<u8> = vec![0xFFu8; size as usize];
        let bitmap = Bitmap { width, height, pixels };
        proof {
            assert(bitmap@.data =~= Raster::blank(width as int, height as int).data);
            assert forall|x: int, y: int|
                in_bounds(width as int, height as int, x, y) implies #[trigger] bitmap@.pixel(x, y)
                == white() by {
                lemma_blank_is_white(width as int, height as int, x, y);
            }
        }
        bitmap
    }

    /// Sets the pixel at `(x, y)` to the colour `(red, green, blue)`.
    ///
    /// `(0, 0)` is the top left pixel. No other pixel changes.
    pub fn set_pixel(&mut self, x: i32, y: i32, color: Color)
        requires
            old(self)@.contains(x as int, y as int),
        ensures
            final(self)@ == old(self)@.with_pixel(x as int, y as int, color),
            final(self)@.wf(),
            final(self)@.pixel(x as int, y as int) == color,
            forall|u: int, v: int|
                old(self)@.contains(u, v) && (u != x || v != y) ==> #[trigger] final(self)@.pixel(
                    u,
                    v,
                ) == old(self)@.pixel(u, v),
    {
        proof {
            use_type_invariant(&*self);
            lemma_pixel_offset_in_array(
                self.width as int,
                self.height as int,
                x as int,
                y as int,
            );
            lemma_with_pixel(self@, x as int, y as int, color);
        }
        let i: usize = ((self.height - y - 1) * (self.width * 3) + x * 3) as usize;
        let (r, g, b) = color;
        self.pixels[i] = b;
        self.pixels[i + 1] = g;
        self.pixels[i + 2] = r;
    }

    /// The width of the image in pixels.
    pub fn width(&self) -> (w: i32)
        ensures
            w == self@.width,
            self@.wf(),
    {
        proof {
            use_type_invariant(self);
        }
        self.width
    }

    /// The height of the image in pixels.
    pub fn height(&self) -> (h: i32)
        ensures
            h == self@.height,
            self@.wf(),
    {
        proof {
            use_type_invariant(self);
        }
        self.height
    }

    /// The pixel array, byte for byte as an encoded file holds it.
    pub fn pixel_data(&self) -> (data: &[u8])
        ensures
            data@ == self@.data,
            self@.wf(),
    {
        proof {
            use_type_invariant(self);
        }
        self.pixels.as_slice()
    }
}

} // verus!
