//! Gzip framing of serialized traces, through the `flate2` crate.
use std::io::Read;
use vstd::prelude::*;

verus! {

/// The gzip stream that `flate2`'s `GzEncoder` with the default compression
/// level produces for `data`.
pub uninterp spec fn gzip_compressed(data: Seq<u8>) -> Seq<u8>;

/// What `flate2`'s `GzDecoder` reads from `data`: the decoded bytes, or
/// `None` when reading fails (the input is not a valid gzip stream).
pub uninterp spec fn gzip_decompressed(data: Seq<u8>) -> Option<Seq<u8>>;

/// Calls `flate2::read::GzEncoder::new(data, Compression::default())` and
/// reads the whole compressed stream. Claims: the result is the (fixed)
/// compressed form of `data`, and decoding it gives `data` back.
#[verifier::external_body]
pub(crate) fn gzip_encode(data: &[u8]) -> (r: Vec<u8>)
    ensures
        r@ == gzip_compressed(data@),
        gzip_decompressed(r@) == Some(data@),
{
    let mut encoder = flate2::read::GzEncoder::new(data, flate2::Compression::default());
    let mut result = Vec::new();
    encoder.read_to_end(&mut result).unwrap();
    result
}

/// Calls `flate2::read::GzDecoder::new(data)` and reads it to the end.
/// Claims: the result is the decoded form of `data`, `None` exactly when
/// reading fails.
#[verifier::external_body]
pub(crate) fn gzip_decode(data: &[u8]) -> (r: Option<Vec<u8>>)
    ensures
        r is Some <==> gzip_decompressed(data@) is Some,
        r matches Some(v) ==> gzip_decompressed(data@) == Some(v@),
{
    let mut decoder = flate2::read::GzDecoder::new(data);
    let mut decoded = Vec::new();
    match decoder.read_to_end(&mut decoded) {
        Ok(_) => Some(decoded),
        Err(_) => None,
    }
}

} // verus!
