//! Zlib compression through the `libflate` crate: the pure-Rust alternative
//! backend, with its own compressed output.
use vstd::prelude::*;

use crate::errors::CodecError;

verus! {

/// The bytes that `libflate`'s zlib decoder yields for a valid zlib stream;
/// decompression is a function of the input bytes alone.
pub uninterp spec fn libflate_inflate_of(data: Seq<u8>) -> Option<Seq<u8>>;

/// The bytes that `libflate`'s zlib encoder emits for an input; they depend
/// on the input alone.
pub uninterp spec fn libflate_deflate_of(data: Seq<u8>) -> Seq<u8>;

/// Relies on libflate's `zlib::Decoder`: decompresses a zlib stream.
/// Decoding is deterministic, so the call succeeds exactly when the named
/// result exists.
#[verifier::external_body]
pub fn inflate(data: &[u8]) -> (r: Result<Vec<u8>, CodecError>)
    ensures
        r matches Ok(v) ==> libflate_inflate_of(data@) == Some(v@),
        r is Err ==> libflate_inflate_of(data@) is None,
{
    let mut decoder = match libflate::zlib::Decoder::new(data) {
        Ok(d) => d,
        Err(_) => return Err(CodecError::InflateFailed),
    };
    let mut uncompressed = Vec::new();
    match std::io::Read::read_to_end(&mut decoder, &mut uncompressed) {
        Ok(_) => Ok(uncompressed),
        Err(_) => Err(CodecError::InflateFailed),
    }
}

/// Relies on libflate's `zlib::Encoder`: compresses bytes into a zlib
/// stream. Compression is lossless — the stream it emits decompresses
/// back to exactly the input — and writing into an in-memory buffer
/// cannot fail, so the call always succeeds.
#[verifier::external_body]
pub fn deflate(data: &[u8]) -> (r: Result<Vec<u8>, CodecError>)
    ensures
        r is Ok,
        r matches Ok(v) ==> v@ == libflate_deflate_of(data@),
        r matches Ok(v) ==> libflate_inflate_of(v@) == Some(data@),
{
    let mut encoder = match libflate::zlib::Encoder::new(Vec::new()) {
        Ok(e) => e,
        Err(_) => return Err(CodecError::DeflateFailed),
    };
    if std::io::Write::write_all(&mut encoder, data).is_err() {
        return Err(CodecError::DeflateFailed);
    }
    match encoder.finish().into_result() {
        Ok(v) => Ok(v),
        Err(_) => Err(CodecError::DeflateFailed),
    }
}

} // verus!
