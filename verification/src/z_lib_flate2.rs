//! Zlib compression through the `flate2` crate (its pure-Rust backend).
//!
//! Both calls are thin trusted wrappers: compression is external work, and
//! the library only names its results.
use vstd::prelude::*;

use crate::errors::CodecError;

verus! {

/// The bytes that zlib-decompressing a stream yields, when it is a valid
/// zlib stream; decompression is a function of the input bytes alone.
pub uninterp spec fn flate2_inflate_of(data: Seq<u8>) -> Option<Seq<u8>>;

/// The bytes that `flate2`'s zlib compressor at its best level emits for an
/// input; with the crate's pure-Rust backend they depend on the input alone.
pub uninterp spec fn flate2_deflate_of(data: Seq<u8>) -> Seq<u8>;

/// Relies on flate2's `read::ZlibDecoder`: decompresses a zlib stream.
/// Decoding is deterministic, so the call succeeds exactly when the named
/// result exists.
#[verifier::external_body]
pub fn inflate(data: &[u8]) -> (r: Result<Vec<u8>, CodecError>)
    ensures
        r matches Ok(v) ==> flate2_inflate_of(data@) == Some(v@),
        r is Err ==> flate2_inflate_of(data@) is None,
{
    let mut decoder = flate2::read::ZlibDecoder::new(data);
    let mut uncompressed = Vec::new();
    match std::io::Read::read_to_end(&mut decoder, &mut uncompressed) {
        Ok(_) => Ok(uncompressed),
        Err(_) => Err(CodecError::InflateFailed),
    }
}

/// Relies on flate2's `write::ZlibEncoder` with `Compression::best`:
/// compresses bytes into a zlib stream. Compression is lossless — the
/// stream it emits decompresses back to exactly the input — and writing
/// into an in-memory buffer cannot fail, so the call always succeeds.
#[verifier::external_body]
pub fn deflate(data: &[u8]) -> (r: Result<Vec<u8>, CodecError>)
    ensures
        r is Ok,
        r matches Ok(v) ==> v@ == flate2_deflate_of(data@),
        r matches Ok(v) ==> flate2_inflate_of(v@) == Some(data@),
{
    let mut e = flate2::write::ZlibEncoder::new(Vec::new(), flate2::Compression::best());
    if std::io::Write::write_all(&mut e, data).is_err() {
        return Err(CodecError::DeflateFailed);
    }
    match e.finish() {
        Ok(v) => Ok(v),
        Err(_) => Err(CodecError::DeflateFailed),
    }
}

} // verus!
