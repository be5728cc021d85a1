//! The file format: a file header, an info header, then the pixel array.

use crate::bitmap::Bitmap;
use crate::layout::image_size;
use crate::le::{lemma_u32_le_round_trip, u16_le, u32_from_le, u32_le, u32_le_bytes};
use crate::raster::Raster;
use vstd::prelude::*;

verus! {

/// Length of the file header.
pub const FILE_HEADER_SIZE: usize = 14;

/// Length of the info header.
pub const INFO_HEADER_SIZE: usize = 40;

/// Length of both headers, which is also where the pixel array starts.
pub const HEADERS_SIZE: usize = 54;

/// Index in a file of the field that holds the file's length.
pub const FILE_SIZE_AT: usize = 2;

/// Index in a file of the field that holds the pixel array's length.
pub const IMAGE_SIZE_AT: usize = 34;

/// Pixels per unit of length, written for both axes.
pub const RESOLUTION: u8 = 72;

/// The file header of a `width` by `height` image: the letters `BM`, the
/// length of the file, two reserved fields, and where the pixel array starts.
pub open spec fn file_header(width: int, height: int) -> Seq<u8> {
    let magic = seq!['B' as u8, 'M' as u8];
    let file_size = u32_le(HEADERS_SIZE + image_size(width, height));
    let reserved = u16_le(0) + u16_le(0);
    let data_offset = u32_le(HEADERS_SIZE as int);
    magic + file_size + reserved + data_offset
}

/// The info header of a `width` by `height` image: its own length, the
/// dimensions, one colour plane, 24 bits a pixel, no compression, the length
/// of the pixel array, the resolution along both axes, and no palette.
pub open spec fn info_header(width: int, height: int) -> Seq<u8> {
    let header_size = u32_le(INFO_HEADER_SIZE as int);
    let dimensions = u32_le(width) + u32_le(height);
    let planes = u16_le(1);
    let bits_per_pixel = u16_le(24);
    let compression = u32_le(0);
    let data_size = u32_le(image_size(width, height));
    let resolution = u32_le(RESOLUTION as int) + u32_le(RESOLUTION as int);
    let palette = u32_le(0) + u32_le(0);
    header_size + dimensions + planes + bits_per_pixel + compression + data_size + resolution
        + palette
}

/// The number held by the 32-bit field that starts at index `at` of `file`.
pub open spec fn field_at(file: Seq<u8>, at: int) -> int {
    u32_from_le(file.subrange(at, at + 4))
}

/// One contiguous piece of an encoded file.
#[derive(Clone, Copy, Debug, PartialEq, Eq, Structural)]
pub enum Chunk {
    FileHeader,
    InfoHeader,
    PixelData,
}

impl Chunk {
    /// The chunk that follows this one in a file, if any does.
    pub open spec fn following(self) -> Option<Chunk> {
        match self {
            Chunk::FileHeader => Some(Chunk::InfoHeader),
            Chunk::InfoHeader => Some(Chunk::PixelData),
            Chunk::PixelData => None,
        }
    }
}

impl Raster {
    /// The bytes of one chunk of this image's file.
    pub open spec fn chunk(self, which: Chunk) -> Seq<u8> {
        match which {
            Chunk::FileHeader => file_header(self.width, self.height),
            Chunk::InfoHeader => info_header(self.width, self.height),
            Chunk::PixelData => self.data,
        }
    }

    /// The whole file: the three chunks in order, with nothing between or
    /// after them.
    pub open spec fn encoding(self) -> Seq<u8> {
        self.chunk(Chunk::FileHeader) + self.chunk(Chunk::InfoHeader) + self.chunk(
            Chunk::PixelData,
        )
    }
}

/// Where each chunk lies in a file: the file header in the first 14 bytes,
/// the info header in the 40 after them, the pixel array from byte 54 on.
pub proof fn lemma_chunks_in_file(r: Raster)
    ensures
        r.encoding().len() == HEADERS_SIZE + r.data.len(),
        r.encoding().subrange(0, FILE_HEADER_SIZE as int) == r.chunk(Chunk::FileHeader),
        r.encoding().subrange(FILE_HEADER_SIZE as int, HEADERS_SIZE as int) == r.chunk(
            Chunk::InfoHeader,
        ),
        r.encoding().skip(HEADERS_SIZE as int) == r.chunk(Chunk::PixelData),
{
    let file = r.encoding();
    assert(file.subrange(0, FILE_HEADER_SIZE as int) =~= r.chunk(Chunk::FileHeader));
    assert(file.subrange(FILE_HEADER_SIZE as int, HEADERS_SIZE as int) =~= r.chunk(
        Chunk::InfoHeader,
    ));
    assert(file.skip(HEADERS_SIZE as int) =~= r.chunk(Chunk::PixelData));
}

/// The two size fields of an encoded file agree with the file itself: the
/// one in the info header holds the length of the pixel array, and the one
/// in the file header holds that length and the 54 bytes of the headers,
/// which is the length of the whole file.
pub proof fn lemma_size_fields(r: Raster)
    requires
        r.wf(),
    ensures
        field_at(r.encoding(), IMAGE_SIZE_AT as int) == r.data.len(),
        field_at(r.encoding(), FILE_SIZE_AT as int) == HEADERS_SIZE + field_at(
            r.encoding(),
            IMAGE_SIZE_AT as int,
        ),
        field_at(r.encoding(), FILE_SIZE_AT as int) == r.encoding().len(),
{
    let size = image_size(r.width, r.height);
    lemma_u32_le_round_trip(size);
    lemma_u32_le_round_trip(HEADERS_SIZE + size);
    assert(r.encoding().subrange(IMAGE_SIZE_AT as int, IMAGE_SIZE_AT + 4) =~= u32_le(size));
    assert(r.encoding().subrange(FILE_SIZE_AT as int, FILE_SIZE_AT + 4) =~= u32_le(
        HEADERS_SIZE + size,
    ));
}

/// Encoding is repeatable: whatever two sinks held before, the same image
/// appends the same bytes to both.
pub proof fn lemma_same_image_same_bytes(r: Raster, first_sink: Seq<u8>, second_sink: Seq<u8>)
    ensures
        (first_sink + r.encoding()).skip(first_sink.len() as int) == (second_sink
            + r.encoding()).skip(second_sink.len() as int),
{
    assert((first_sink + r.encoding()).skip(first_sink.len() as int) =~= r.encoding());
    assert((second_sink + r.encoding()).skip(second_sink.len() as int) =~= r.encoding());
}

/// What an encoding does next, for whoever hands its chunks to a sink that
/// may refuse them.
#[derive(Debug, PartialEq, Eq)]
pub enum Step<E> {
    /// Hand this chunk to the sink.
    Send(Chunk),
    /// The sink took every chunk: the file is complete.
    Done,
    /// The sink refused a chunk, for the reason held. Nothing more is sent.
    Failed(E),
}

impl<E> Step<E> {
    /// How an encoding begins: with the file header.
    pub fn first() -> (step: Step<E>)
        ensures
            step == Step::<E>::Send(Chunk::FileHeader),
    {
        Step::Send(Chunk::FileHeader)
    }

    /// The step to take when the sink has answered `outcome` to the chunk
    /// `sent`. An error ends the encoding at once and is handed on as it
    /// came; otherwise the following chunk is due, or none is left.
    pub fn after(sent: Chunk, outcome: Result<(), E>) -> (step: Step<E>)
        ensures
            step == match outcome {
                Err(error) => Step::Failed(error),
                Ok(_) => match sent.following() {
                    Some(next) => Step::Send(next),
                    None => Step::Done,
                },
            },
    {
        match outcome {
            Err(error) => Step::Failed(error),
            Ok(()) => match sent {
                Chunk::FileHeader => Step::Send(Chunk::InfoHeader),
                Chunk::InfoHeader => Step::Send(Chunk::PixelData),
                Chunk::PixelData => Step::Done,
            },
        }
    }
}

impl Bitmap {
    /// Length of the pixel array, from the dimensions.
    fn image_size(&self) -> (size: u32)
        ensures
            size == image_size(self@.width, self@.height),
            self@.wf(),
    {
        let width: u32 = self.width() as u32;
        let height: u32 = self.height() as u32;
        proof {
            assert(0 <= height * width <= height * width * 3 <= height * (width * 3 + width % 4)
                && 0 <= height * (width % 4) && height * width * 3 + height * (width % 4) == height
                * (width * 3 + width % 4)) by (nonlinear_arith)
                requires
                    0 <= height,
                    0 <= width,
            ;
        }
        height * width * 3 + height * (width % 4)
    }

    /// The 14 bytes that open the file.
    pub fn file_header(&self) -> (header: [u8; 14])
        ensures
            header@ == self@.chunk(Chunk::FileHeader),
    {
        let file_size = u32_le_bytes(self.image_size() + HEADERS_SIZE as u32);
        let header = [
            'B' as u8, 'M' as u8,
            file_size[0], file_size[1], file_size[2], file_size[3],
            0, 0,
            0, 0,
            HEADERS_SIZE as u8, 0, 0, 0,
        ];
        assert(header@ =~= file_header(self@.width, self@.height));
        header
    }

    /// The 40 bytes that describe the image.
    pub fn info_header(&self) -> (header: [u8; 40])
        ensures
            header@ == self@.chunk(Chunk::InfoHeader),
    {
        let data_size = u32_le_bytes(self.image_size());
        let width = u32_le_bytes(self.width() as u32);
        let height = u32_le_bytes(self.height() as u32);
        let header = [
            INFO_HEADER_SIZE as u8, 0, 0, 0,
            width[0], width[1], width[2], width[3],
            height[0], height[1], height[2], height[3],
            1, 0,
            24, 0,
            0, 0, 0, 0,
            data_size[0], data_size[1], data_size[2], data_size[3],
            RESOLUTION, 0, 0, 0,
            RESOLUTION, 0, 0, 0,
            0, 0, 0, 0,
            0, 0, 0, 0,
        ];
        assert(header@ =~= info_header(self@.width, self@.height));
        header
    }

    /// Appends the encoded file to `target`: the file header, the info
    /// header, then the pixel array.
    ///
    /// The size fields of what is appended agree with it: the one in the info
    /// header holds the length of the pixel array, the one in the file header
    /// the length of the whole file.
    pub fn write(&self, target: &mut Vec<u8>)
        ensures
            final(target)@ == old(target)@ + self@.encoding(),
            field_at(self@.encoding(), IMAGE_SIZE_AT as int) == self@.data.len(),
            field_at(self@.encoding(), FILE_SIZE_AT as int) == HEADERS_SIZE + self@.data.len(),
    {
        let file_header = self.file_header();
        let info_header = self.info_header();
        let pixels = self.pixel_data();
        target.extend_from_slice(file_header.as_slice());
        target.extend_from_slice(info_header.as_slice());
        target.extend_from_slice(pixels);
        proof {
            lemma_size_fields(self@);
        }
    }
}

} // verus!
