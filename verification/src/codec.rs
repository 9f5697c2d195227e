//! Compression and checksums, from `flate2`.
use std::io::{Read, Write};
use vstd::prelude::*;

verus! {

/// The CRC-32 of a byte string, as `flate2::Crc` computes it.
pub uninterp spec fn crc32(data: Seq<u8>) -> u32;

/// What `flate2::write::ZlibEncoder` at the fast level makes of a byte string: the zlib stream, or
/// the text of its error.
pub uninterp spec fn zlib_packed(data: Seq<u8>) -> Result<Seq<u8>, Seq<char>>;

/// What `flate2::read::ZlibDecoder` reads out of a zlib stream: its content, or the text of its
/// error.
pub uninterp spec fn zlib_unpacked(data: Seq<u8>) -> Result<Seq<u8>, Seq<char>>;

/// What `flate2::read::DeflateDecoder` reads out of a raw deflate stream when at most `limit` bytes
/// are asked for: the bytes, or the text of its error.
pub uninterp spec fn inflated(data: Seq<u8>, limit: nat) -> Result<Seq<u8>, Seq<char>>;

/// A `Result` seen through the views of its two sides.
pub open spec fn seen(r: Result<Vec<u8>, String>) -> Result<Seq<u8>, Seq<char>> {
    match r {
        Ok(v) => Ok(v@),
        Err(e) => Err(e@),
    }
}

/// `stream` is a zlib stream whose content is `data`.
pub open spec fn unpacks_to(stream: Seq<u8>, data: Seq<u8>) -> bool {
    zlib_unpacked(stream) == Result::<Seq<u8>, Seq<char>>::Ok(data)
}

/// Calls `flate2::Crc`: a fresh checksum, updated once with `data`. The result is the name [`crc32`]
/// of the same bytes.
#[verifier::external_body]
pub(crate) fn checksum(data: &[u8]) -> (r: u32)
    ensures
        r == crc32(data@),
{
    let mut crc = flate2::Crc::new();
    crc.update(data);
    crc.sum()
}

/// Calls `flate2::write::ZlibEncoder` with `Compression::fast()` on `data`. The result is the name
/// [`zlib_packed`]; a stream it hands out is one that `flate2::read::ZlibDecoder` reads back to
/// `data`.
#[verifier::external_body]
pub(crate) fn zlib_pack(data: &[u8]) -> (r: Result<Vec<u8>, String>)
    ensures
        seen(r) == zlib_packed(data@),
        r is Ok ==> unpacks_to(r->Ok_0@, data@),
{
    let mut encoder = flate2::write::ZlibEncoder::new(Vec::new(), flate2::Compression::fast());
    encoder.write_all(data).map_err(|e| e.to_string())?;
    encoder.finish().map_err(|e| e.to_string())
}

/// Calls `flate2::read::ZlibDecoder` on `data` and reads to its end. The result is the name
/// [`zlib_unpacked`].
#[verifier::external_body]
pub(crate) fn zlib_unpack(data: &[u8]) -> (r: Result<Vec<u8>, String>)
    ensures
        seen(r) == zlib_unpacked(data@),
{
    let mut out = Vec::new();
    flate2::read::ZlibDecoder::new(data).read_to_end(&mut out).map_err(|e| e.to_string())?;
    Ok(out)
}

/// Calls `flate2::read::DeflateDecoder` on `data` and reads at most `limit` bytes from it. The result
/// is the name [`inflated`]; it is never longer than `limit`.
#[verifier::external_body]
pub(crate) fn inflate(data: &[u8], limit: u64) -> (r: Result<Vec<u8>, String>)
    ensures
        seen(r) == inflated(data@, limit as nat),
        r is Ok ==> r->Ok_0@.len() <= limit,
{
    let mut out = Vec::new();
    flate2::read::DeflateDecoder::new(data).take(limit).read_to_end(&mut out).map_err(|e| e.to_string())?;
    Ok(out)
}

} // verus!
