//! zlib compression of stored objects, through `flate2`.
use vstd::prelude::*;

verus! {

/// The zlib stream that `flate2::write::ZlibEncoder` writes for some bytes at
/// the best compression level.
pub uninterp spec fn zlib_compressed(data: Seq<u8>) -> Seq<u8>;

/// The bytes that `flate2::read::ZlibDecoder` reads from a zlib stream, `None`
/// when the stream is corrupt.
pub uninterp spec fn zlib_decompressed(stream: Seq<u8>) -> Option<Seq<u8>>;

/// Compresses bytes with `flate2::write::ZlibEncoder` at `Compression::best()`;
/// decompressing the stream gives the bytes back.
#[verifier::external_body]
pub fn compress(data: &[u8]) -> (r: Vec<u8>)
    ensures
        r@ == zlib_compressed(data@),
        zlib_decompressed(r@) == Some(data@),
{
    let mut encoder = flate2::write::ZlibEncoder::new(Vec::new(), flate2::Compression::best());
    match std::io::Write::write_all(&mut encoder, data) {
        Ok(()) => {},
        Err(_) => return Vec::new(),
    }
    match encoder.finish() {
        Ok(v) => v,
        Err(_) => Vec::new(),
    }
}

/// Decompresses a zlib stream with `flate2::read::ZlibDecoder`.
#[verifier::external_body]
pub fn decompress(stream: &[u8]) -> (r: Option<Vec<u8>>)
    ensures
        r is Some <==> zlib_decompressed(stream@) is Some,
        r matches Some(v) ==> v@ == zlib_decompressed(stream@)->0,
{
    let mut decoder = flate2::read::ZlibDecoder::new(stream);
    let mut out = Vec::new();
    match std::io::Read::read_to_end(&mut decoder, &mut out) {
        Ok(_) => Some(out),
        Err(_) => None,
    }
}

} // verus!
