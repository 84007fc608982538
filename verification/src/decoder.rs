//! The whole decode: signature, header, image data, inflation, scanlines.

use vstd::prelude::*;
use crate::assembler::assemble_image_data;
use crate::assembler::assembled;
use crate::chunk::record_at;
use crate::chunk::record_end;
use crate::chunk::signature_at;
use crate::chunk::ChunkReader;
use crate::chunk::ReaderState;
use crate::error::DecodeError;
use crate::error::FormatError;
use crate::inflate::inflate;
use crate::inflate::inflated;
use crate::metadata::metadata_of;
use crate::metadata::parse_image_meta_data;
use crate::metadata::ImageMetaData;
use crate::scanline::reconstruct;
use crate::scanline::reconstructed;

verus! {

/// An image as the container holds it: the metadata and the compressed
/// image data, not yet inflated.
#[derive(Debug)]
pub struct EncodedImage {
    /// What the header record says of the image.
    pub meta: ImageMetaData,
    /// The payloads of the image-data records, concatenated.
    pub compressed: Vec<u8>,
}

/// A decoded image.
#[derive(Debug)]
pub struct Image {
    /// What the header record says of the image.
    pub meta: ImageMetaData,
    /// The pixel bytes, row after row, without filter-type bytes.
    pub pixels: Vec<u8>,
}

impl Image {
    /// The buffer holds every pixel of every row.
    pub open spec fn wf(&self) -> bool {
        self.meta.valid() && self.pixels.len() == self.meta.height * (self.meta.width
            * self.meta.bpp())
    }
}

/// What a stream holds: the metadata of its header record and its
/// compressed image data, or the first reason why it cannot be read. The
/// signature comes first, then the header record, then the records up to
/// the end record.
pub open spec fn container(s: Seq<u8>) -> Result<(ImageMetaData, Seq<u8>), DecodeError> {
    if !signature_at(s, 0) {
        Err(DecodeError::Format(FormatError::BadSignature))
    } else {
        match record_at(s, 8) {
            None => Err(DecodeError::TruncatedStream),
            Some(first) => match metadata_of(first) {
                Err(e) => Err(e),
                Ok(meta) => match assembled(
                    ReaderState { stream: s, position: record_end(s, 8), finished: false },
                ) {
                    Err(e) => Err(e),
                    Ok(data) => Ok((meta, data)),
                },
            },
        }
    }
}

/// What becomes of an image with metadata `meta` whose compressed data
/// inflates to `raw`: its pixel buffer, or why there is none.
pub open spec fn pixels_of(meta: ImageMetaData, raw: Seq<u8>) -> Result<Seq<u8>, DecodeError> {
    reconstructed(raw, meta.width as int, meta.height as int, meta.bpp())
}

/// Reads a stream up to the point where its image data can be inflated:
/// checks the signature, reads the metadata from the first record, and
/// gathers the image data from the records after it.
pub fn read_container(stream: &[u8]) -> (res: Result<EncodedImage, DecodeError>)
    ensures
        match container(stream@) {
            Ok((meta, data)) => res matches Ok(encoded) && encoded.meta == meta
                && encoded.compressed@ == data,
            Err(e) => res == Err::<EncodedImage, DecodeError>(e),
        },
        res matches Ok(encoded) ==> encoded.meta.valid(),
{
    let mut reader = ChunkReader::new(stream);
    match reader.read_signature() {
        Ok(_) => {},
        Err(e) => {
            return Err(e);
        },
    }
    let first = match reader.next_record() {
        Ok(Some(chunk)) => chunk,
        Ok(None) => {
            return Err(DecodeError::Format(FormatError::MissingHeader));
        },
        Err(e) => {
            return Err(e);
        },
    };
    let meta = match parse_image_meta_data(&first) {
        Ok(meta) => meta,
        Err(e) => {
            return Err(e);
        },
    };
    match assemble_image_data(&mut reader) {
        Ok(compressed) => Ok(EncodedImage { meta, compressed }),
        Err(e) => Err(e),
    }
}

/// Finishes a decode once the inflater has run: a failed inflation is
/// passed on as it came, and an inflated stream is reconstructed into the
/// pixel buffer of an image with metadata `meta`.
pub fn decode_inflated(meta: ImageMetaData, inflation: Result<Vec<u8>, std::io::Error>) -> (res:
    Result<Image, DecodeError>)
    requires
        meta.valid(),
    ensures
        match inflation {
            Err(failure) => res == Err::<Image, DecodeError>(DecodeError::Decompression(failure)),
            Ok(raw) => match pixels_of(meta, raw@) {
                Ok(pixels) => res matches Ok(image) && image.meta == meta && image.pixels@
                    == pixels,
                Err(e) => res == Err::<Image, DecodeError>(e),
            },
        },
        res matches Ok(image) ==> image.wf(),
{
    let raw = match inflation {
        Ok(raw) => raw,
        Err(failure) => {
            return Err(DecodeError::Decompression(failure));
        },
    };
    let bpp = meta.bytes_per_pixel();
    match reconstruct(raw.as_slice(), meta.width, meta.height, bpp) {
        Ok(pixels) => Ok(Image { meta, pixels }),
        Err(e) => Err(e),
    }
}

/// Decodes a whole stream into its metadata and pixel buffer.
///
/// The stages run in order and the first failure ends the decode: the
/// container is read, its image data is inflated, and the scanlines are
/// reconstructed. Nothing partial is returned.
pub fn decode(stream: &[u8]) -> (res: Result<Image, DecodeError>)
    ensures
        match container(stream@) {
            Err(e) => res == Err::<Image, DecodeError>(e),
            Ok((meta, data)) => match inflated(data) {
                None => res matches Err(DecodeError::Decompression(_)),
                Some(raw) => match pixels_of(meta, raw) {
                    Ok(pixels) => res matches Ok(image) && image.meta == meta && image.pixels@
                        == pixels,
                    Err(e) => res == Err::<Image, DecodeError>(e),
                },
            },
        },
        res matches Ok(image) ==> image.wf(),
{
    let encoded = match read_container(stream) {
        Ok(encoded) => encoded,
        Err(e) => {
            return Err(e);
        },
    };
    let inflation = inflate(encoded.compressed.as_slice());
    decode_inflated(encoded.meta, inflation)
}

} // verus!
