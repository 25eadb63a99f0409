//! Zlib compression of messages.
use vstd::prelude::*;
use std::io::Write;
use crate::error::CoreError;

verus! {

/// The zlib stream that flate2 produces for `data` at the default level.
pub uninterp spec fn zlib_deflated(data: Seq<u8>) -> Seq<u8>;

/// What `flate2::write::ZlibDecoder` writes out when it is fed `data` and
/// finished, or `None` when it reports an error (a corrupt stream, or bytes
/// after the end of the stream). A stream that is cut short is no error
/// there: it gives what was decompressed up to the cut.
pub uninterp spec fn zlib_inflated(data: Seq<u8>) -> Option<Seq<u8>>;

/// I/O errors of `std`, as flate2 reports them.
#[verifier::external_type_specification]
#[verifier::external_body]
pub struct ExIoError(std::io::Error);

/// `flate2::write::ZlibEncoder` over a `Vec`, at the default level: writes
/// all of `data` and finishes the stream. It succeeds: with valid parameters
/// the compressor reports no error, a full output buffer is not one, and
/// writing to a `Vec` does not fail. The result is named `zlib_deflated`,
/// and, zlib being lossless, it decompresses back to `data`.
#[verifier::external_body]
fn deflate(data: &[u8]) -> (r: Result<Vec<u8>, std::io::Error>)
    ensures
        r is Ok,
        r matches Ok(v) ==> v@ == zlib_deflated(data@),
        r matches Ok(v) ==> zlib_inflated(v@) == Some(data@),
{
    let mut encoder = flate2::write::ZlibEncoder::new(Vec::new(), flate2::Compression::default());
    match encoder.write_all(data) {
        Ok(()) => encoder.finish(),
        Err(e) => Err(e),
    }
}

/// `flate2::write::ZlibDecoder` over a `Vec`: writes all of `data` and
/// finishes. Its outcome, the bytes or the failure, is named `zlib_inflated`.
#[verifier::external_body]
fn inflate(data: &[u8]) -> (r: Result<Vec<u8>, std::io::Error>)
    ensures
        match r {
            Ok(v) => zlib_inflated(data@) == Some(v@),
            Err(_) => zlib_inflated(data@) is None,
        },
{
    let mut decoder = flate2::write::ZlibDecoder::new(Vec::new());
    match decoder.write_all(data) {
        Ok(()) => decoder.finish(),
        Err(e) => Err(e),
    }
}

/// Compresses `data` into a zlib stream, which [`decode`] turns back into
/// `data`. It always succeeds.
pub fn encode(data: &[u8]) -> (r: Result<Vec<u8>, CoreError>)
    ensures
        r is Ok,
        match r {
            Ok(v) => v@ == zlib_deflated(data@) && zlib_inflated(v@) == Some(data@),
            Err(e) => e == CoreError::Zlib,
        },
{
    match deflate(data) {
        Ok(v) => Ok(v),
        Err(_) => Err(CoreError::Zlib),
    }
}

/// Decompresses a zlib stream; fails where the decoder reports an error.
pub fn decode(data: &[u8]) -> (r: Result<Vec<u8>, CoreError>)
    ensures
        match zlib_inflated(data@) {
            Some(x) => r matches Ok(v) && v@ == x,
            None => r == Err::<Vec<u8>, CoreError>(CoreError::Zlib),
        },
{
    match inflate(data) {
        Ok(v) => Ok(v),
        Err(_) => Err(CoreError::Zlib),
    }
}

} // verus!
