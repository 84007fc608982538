//! Decoding of the raster data of a chunked, compressed image container
//! into a flat pixel buffer, together with the small pixel-packing helpers
//! that the renderers share.
//!
//! The pipeline runs in stages, each consuming only the previous stage's
//! output: the container is cut into records, the first record gives the
//! image metadata, the image-data payloads are concatenated, the result is
//! inflated, and the scanline filters are undone row by row.

pub mod assembler;
pub mod chunk;
pub mod color;
pub mod decoder;
pub mod error;
pub mod hex;
pub mod inflate;
pub mod metadata;
pub mod raster;
pub mod scanline;
