//! Reading the image metadata out of the header record.

use vstd::prelude::*;
use crate::chunk::be32;
use crate::chunk::kind_of;
use crate::chunk::read_be32;
use crate::chunk::Chunk;
use crate::chunk::ChunkKind;
use crate::chunk::Record;
use crate::error::DecodeError;
use crate::error::FormatError;

verus! {

/// What the header record says of the image.
#[derive(Debug, Clone, Copy, PartialEq, Eq)]
pub struct ImageMetaData {
    /// Pixels per row.
    pub width: u32,
    /// Number of rows.
    pub height: u32,
    /// Bits per channel.
    pub bit_depth: u8,
    /// The colour model.
    pub colour_type: u8,
    /// The compression method.
    pub compression: u8,
    /// The filter method.
    pub filter_method: u8,
    /// The interlace method.
    pub interlace_method: u8,
}

/// How many bytes a pixel of the given colour type takes at eight bits per
/// channel: grayscale one, truecolour three, indexed one, grayscale with
/// alpha two, truecolour with alpha four. Other colour types do not exist.
pub open spec fn bpp_of(colour_type: u8) -> Option<int> {
    if colour_type == 0 {
        Some(1)
    } else if colour_type == 2 {
        Some(3)
    } else if colour_type == 3 {
        Some(1)
    } else if colour_type == 4 {
        Some(2)
    } else if colour_type == 6 {
        Some(4)
    } else {
        None
    }
}

/// The bytes per pixel of a colour type at eight bits per channel, or
/// `None` for a colour type that does not exist.
pub fn bytes_per_pixel(colour_type: u8) -> (bpp: Option<usize>)
    ensures
        match bpp_of(colour_type) {
            Some(n) => bpp == Some(n as usize) && 1 <= n <= 4,
            None => bpp.is_none(),
        },
{
    match colour_type {
        0 => Some(1),
        2 => Some(3),
        3 => Some(1),
        4 => Some(2),
        6 => Some(4),
        _ => None,
    }
}

impl ImageMetaData {
    /// The metadata of an image that this decoder handles: no dimension is
    /// zero, the colour type exists, the channels have eight bits, and
    /// compression, filter and interlace method are all zero.
    pub open spec fn valid(&self) -> bool {
        &&& self.width > 0
        &&& self.height > 0
        &&& self.bit_depth == 8
        &&& bpp_of(self.colour_type) is Some
        &&& self.compression == 0
        &&& self.filter_method == 0
        &&& self.interlace_method == 0
    }

    /// Bytes per pixel.
    pub open spec fn bpp(&self) -> int {
        bpp_of(self.colour_type)->0
    }

    /// Bytes per pixel.
    pub fn bytes_per_pixel(&self) -> (bpp: usize)
        requires
            self.valid(),
        ensures
            bpp == self.bpp(),
            1 <= bpp <= 4,
    {
        match bytes_per_pixel(self.colour_type) {
            Some(n) => n,
            None => 1,
        }
    }
}

/// The fields of a header payload of thirteen bytes, read at their fixed
/// places: width and height as big-endian numbers, then five single bytes.
pub open spec fn header_fields(payload: Seq<u8>) -> ImageMetaData {
    ImageMetaData {
        width: be32(payload[0], payload[1], payload[2], payload[3]),
        height: be32(payload[4], payload[5], payload[6], payload[7]),
        bit_depth: payload[8],
        colour_type: payload[9],
        compression: payload[10],
        filter_method: payload[11],
        interlace_method: payload[12],
    }
}

/// What the first record of a stream says of the image, or why it says
/// nothing. A malformed header is reported before an unsupported one.
pub open spec fn metadata_of(record: Record) -> Result<ImageMetaData, DecodeError> {
    let meta = header_fields(record.payload);
    if !(kind_of(record.tag) is Header) {
        Err(DecodeError::Format(FormatError::MissingHeader))
    } else if record.payload.len() != 13 {
        Err(DecodeError::Format(FormatError::InvalidHeader))
    } else if meta.width == 0 || meta.height == 0 {
        Err(DecodeError::Format(FormatError::InvalidDimensions))
    } else if meta.compression != 0 || meta.filter_method != 0 || bpp_of(meta.colour_type) is None {
        Err(DecodeError::Format(FormatError::InvalidHeader))
    } else if meta.interlace_method != 0 || meta.bit_depth != 8 {
        Err(DecodeError::UnsupportedFeature)
    } else {
        Ok(meta)
    }
}

/// Reads the image metadata from the first record of a stream.
///
/// The record must be the header record and carry thirteen payload bytes.
/// Width and height must not be zero. Compression and filter method must
/// be zero and the colour type one of 0, 2, 3, 4, 6. Interlacing and bit
/// depths other than eight are valid but not handled.
pub fn parse_image_meta_data(chunk: &Chunk) -> (res: Result<ImageMetaData, DecodeError>)
    ensures
        res == metadata_of(chunk@),
        res matches Ok(meta) ==> meta.valid(),
{
    match chunk.kind() {
        ChunkKind::Header => {},
        _ => {
            return Err(DecodeError::Format(FormatError::MissingHeader));
        },
    }
    let data = &chunk.chunk_data;
    if data.len() != 13 {
        return Err(DecodeError::Format(FormatError::InvalidHeader));
    }
    let meta = ImageMetaData {
        width: read_be32(data[0], data[1], data[2], data[3]),
        height: read_be32(data[4], data[5], data[6], data[7]),
        bit_depth: data[8],
        colour_type: data[9],
        compression: data[10],
        filter_method: data[11],
        interlace_method: data[12],
    };
    if meta.width == 0 || meta.height == 0 {
        return Err(DecodeError::Format(FormatError::InvalidDimensions));
    }
    if meta.compression != 0 || meta.filter_method != 0 || bytes_per_pixel(
        meta.colour_type,
    ).is_none() {
        return Err(DecodeError::Format(FormatError::InvalidHeader));
    }
    if meta.interlace_method != 0 || meta.bit_depth != 8 {
        return Err(DecodeError::UnsupportedFeature);
    }
    Ok(meta)
}

} // verus!
