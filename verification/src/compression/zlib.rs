//! zlib streams, through the `flate2` crate.

use crate::error::ObjectError;
use flate2::read::ZlibDecoder;
use flate2::write::ZlibEncoder;
use flate2::Compression;
use std::io::{Read, Write};
use vstd::prelude::*;

verus! {

/// The error of the standard library's readers and writers, which `flate2`
/// reports its faults in. Nothing is known of what it holds.
#[verifier::external_type_specification]
#[verifier::external_body]
pub struct ExIoError(std::io::Error);

/// What reading the zlib stream `stream` to its end gives: the bytes that it
/// was deflated from, or `None` where the decoder reports a fault.
pub uninterp spec fn zlib_inflated(stream: Seq<u8>) -> Option<Seq<u8>>;

/// What deflating `data` at the fastest level gives: the zlib stream that
/// the encoder writes, or `None` where it reports a fault. Into a buffer in
/// memory the encoder does no input or output, so what it gives depends on
/// the data alone.
pub uninterp spec fn zlib_deflated(data: Seq<u8>) -> Option<Seq<u8>>;

/// `flate2::read::ZlibDecoder::new` on `bytes`, read with `read_to_end` into
/// `buffer`. The contract names what the decoder gives as `zlib_inflated`:
/// the call succeeds exactly where the decoder reports no fault, and then it
/// has appended the inflated bytes to `buffer`. On a fault the buffer keeps
/// what it held and may have grown by what was inflated before the fault.
#[verifier::external_body]
pub fn decompress(bytes: &[u8], buffer: &mut Vec<u8>) -> (r: Result<(), std::io::Error>)
    ensures
        r is Ok <==> zlib_inflated(bytes@) is Some,
        r is Ok ==> final(buffer)@ == old(buffer)@ + zlib_inflated(bytes@).unwrap(),
        r is Err ==> old(buffer)@.is_prefix_of(final(buffer)@),
{
    let mut decoder = ZlibDecoder::new(&bytes[..]);
    decoder.read_to_end(buffer)?;
    Ok(())
}

/// `flate2::write::ZlibEncoder` over an empty `Vec` at
/// `Compression::fast()`, fed `data` with `write_all` and closed with
/// `finish`. The contract names what the encoder gives as `zlib_deflated`:
/// the call succeeds exactly where the encoder reports no fault, and then
/// returns the stream that it wrote. It does not say that the encoder
/// succeeds. It claims besides that a stream which the encoder wrote is one
/// that the decoder inflates back to `data`.
#[verifier::external_body]
pub fn compress(data: &[u8]) -> (r: Result<Vec<u8>, std::io::Error>)
    ensures
        r is Ok <==> zlib_deflated(data@) is Some,
        r matches Ok(stream) ==> zlib_deflated(data@) == Some(stream@),
        r matches Ok(stream) ==> zlib_inflated(stream@) == Some(data@),
{
    let mut encoder = ZlibEncoder::new(Vec::new(), Compression::fast());
    encoder.write_all(&data)?;
    let compressed = encoder.finish()?;
    Ok(compressed)
}

/// What comes of an attempt to deflate: the stream, where the encoder wrote
/// one, and a `CompressionError` where it gave a fault.
pub fn deflated(outcome: Result<Vec<u8>, std::io::Error>) -> (r: Result<Vec<u8>, ObjectError>)
    ensures
        match outcome {
            Ok(stream) => r == Ok::<Vec<u8>, ObjectError>(stream),
            Err(_) => r == Err::<Vec<u8>, ObjectError>(ObjectError::CompressionError),
        },
{
    match outcome {
        Ok(stream) => Ok(stream),
        Err(_) => Err(ObjectError::CompressionError),
    }
}

/// Inflates a stored stream.
pub fn inflate(stream: &[u8]) -> (r: Result<Vec<u8>, ObjectError>)
    ensures
        match r {
            Ok(bytes) => zlib_inflated(stream@) == Some(bytes@),
            Err(e) => e == ObjectError::DecodeError && zlib_inflated(stream@) is None,
        },
{
    let mut buffer: Vec<u8> = Vec::new();
    let outcome = decompress(stream, &mut buffer);
    match outcome {
        Ok(_) => {
            assert(Seq::<u8>::empty() + zlib_inflated(stream@).unwrap() =~= zlib_inflated(
                stream@,
            ).unwrap());
            Ok(buffer)
        },
        Err(_) => Err(ObjectError::DecodeError),
    }
}

/// Deflates the bytes of an object: the stream that the encoder gives for
/// them, which inflates back to `data`, or `CompressionError` where the
/// encoder gives none.
pub fn deflate(data: &[u8]) -> (r: Result<Vec<u8>, ObjectError>)
    ensures
        match r {
            Ok(stream) => zlib_deflated(data@) == Some(stream@) && zlib_inflated(stream@)
                == Some(data@),
            Err(e) => e == ObjectError::CompressionError && zlib_deflated(data@) is None,
        },
{
    deflated(compress(data))
}

} // verus!
