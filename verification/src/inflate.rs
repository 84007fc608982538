//! Inflating the assembled image data. The inflater is zlib as `flate2`
//! implements it; nothing of it is verified here.

use vstd::prelude::*;

verus! {

/// What zlib inflation makes of `compressed`: the inflated bytes, or
/// `None` where the inflater rejects the input.
pub uninterp spec fn inflated(compressed: Seq<u8>) -> Option<Seq<u8>>;

/// Runs `flate2::read::ZlibDecoder` over `compressed` to its end.
///
/// Trusted: the decoder's outcome depends on the compressed bytes alone,
/// so it is given the name `inflated`. The decoder stops after one zlib
/// stream, reports an input that breaks off or is corrupt as a failure,
/// and what it had produced before a failure is dropped.
#[verifier::external_body]
pub(crate) fn inflate(compressed: &[u8]) -> (res: Result<Vec<u8>, std::io::Error>)
    ensures
        match res {
            Ok(bytes) => inflated(compressed@) == Some(bytes@),
            Err(_) => inflated(compressed@) is None,
        },
{
    let mut decoder = flate2::read::ZlibDecoder::new(compressed);
    let mut bytes = Vec::new();
    match std::io::Read::read_to_end(&mut decoder, &mut bytes) {
        Ok(_) => Ok(bytes),
        Err(e) => Err(e),
    }
}

} // verus!
