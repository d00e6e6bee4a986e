//! Compression of whole byte strings in the zlib format.

use vstd::prelude::*;

verus! {

/// The error type of `std::io`, carried through unopened.
#[verifier::external_type_specification]
#[verifier::external_body]
pub struct ExIoError(std::io::Error);

/// What `flate2` makes of `data` at its default level: the zlib stream, or
/// `None` if the compressor reports a failure. Which of the two it is
/// depends on the data alone.
pub uninterp spec fn zlib_deflate(data: Seq<u8>) -> Option<Seq<u8>>;

/// The bytes that `flate2` reads out of a zlib stream: everything up to the
/// end-of-stream mark, or `None` if the stream is damaged or stops before
/// that mark.
pub uninterp spec fn zlib_inflate(stream: Seq<u8>) -> Option<Seq<u8>>;

/// Runs `data` through `flate2::write::ZlibEncoder` (`new` with
/// `Compression::default()`, `write_all`, `finish`) into a fresh vector.
///
/// Trusted: the call succeeds exactly when `zlib_deflate` of the input is
/// defined, and then returns that stream; and reading that stream gives the
/// input again (compression is lossless). The sink is a vector, which
/// accepts every write, so a failure can only be one that the compressor
/// itself reports for this data.
#[verifier::external_body]
pub(crate) fn deflate(data: &[u8]) -> (r: Result<Vec<u8>, std::io::Error>)
    ensures
        r is Ok <==> zlib_deflate(data@) is Some,
        r matches Ok(stream) ==> zlib_deflate(data@) == Some(stream@) && zlib_inflate(stream@)
            == Some(data@),
{
    let mut encoder = flate2::write::ZlibEncoder::new(Vec::new(), flate2::Compression::default());
    std::io::Write::write_all(&mut encoder, data)?;
    encoder.finish()
}

/// Reads `stream` to its end through `flate2::read::ZlibDecoder`
/// (`new`, then `read_to_end`).
///
/// Trusted: the call succeeds exactly when `zlib_inflate` of the stream is
/// defined, and then returns those bytes. The decoder reports a stream that
/// ends before its end-of-stream mark as an error.
#[verifier::external_body]
pub(crate) fn inflate(stream: &[u8]) -> (r: Result<Vec<u8>, std::io::Error>)
    ensures
        match r {
            Ok(data) => zlib_inflate(stream@) == Some(data@),
            Err(_) => zlib_inflate(stream@) is None,
        },
{
    let mut data = Vec::new();
    std::io::Read::read_to_end(&mut flate2::read::ZlibDecoder::new(stream), &mut data)?;
    Ok(data)
}

} // verus!
