//! The failures a decode can end in.

use vstd::prelude::*;

verus! {

/// The failure type of `std::io`, as the inflater reports it. The decoder
/// carries such a value through without looking inside.
#[verifier::external_type_specification]
#[verifier::external_body]
pub struct ExIoError(std::io::Error);

/// The input is not a well-formed instance of the container format.
#[derive(Debug, Clone, Copy, PartialEq, Eq)]
pub enum FormatError {
    /// The stream does not start with the eight signature bytes.
    BadSignature,
    /// The first record is not the header record.
    MissingHeader,
    /// The header declares a width or a height of zero.
    InvalidDimensions,
    /// The header payload has the wrong size, or names an unknown colour
    /// type, compression method or filter method.
    InvalidHeader,
    /// The end record came before any image-data record.
    MissingImageData,
    /// The inflated stream does not hold exactly the declared rows.
    TruncatedImageData,
    /// A row starts with a filter-type byte above four.
    InvalidFilterType,
}

/// Why a decode was abandoned. The first failure ends the decode; nothing
/// partial is handed out.
#[derive(Debug)]
pub enum DecodeError {
    /// The input is malformed.
    Format(FormatError),
    /// The input is well formed but uses interlacing or a bit depth other
    /// than eight.
    UnsupportedFeature,
    /// The stream ends before a declared length is satisfied.
    TruncatedStream,
    /// The inflater rejected the assembled image data; its own failure is
    /// kept as it came.
    Decompression(std::io::Error),
}

} // verus!
