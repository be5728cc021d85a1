//! An in-memory 24-bit raster image that serialises to the uncompressed
//! Windows Bitmap format.
//!
//! The mathematical model of an image is [`Raster`]: its dimensions and the
//! bytes of its pixel array exactly as they appear in an encoded file. Every
//! executable function states its effect on that model.

pub mod bitmap;
pub mod encoder;
pub mod layout;
pub mod le;
pub mod raster;

pub use bitmap::Bitmap;
pub use encoder::{Chunk, Step};
pub use raster::{Color, Raster};
