//! Compressed data, which an outside crate packs and unpacks.

use crate::bytes::has_prefix;
use flate2::read::{GzDecoder, ZlibDecoder};
use flate2::write::{GzEncoder, ZlibEncoder};
use flate2::Compression;
use std::io::{Read, Write};
use vstd::prelude::*;

verus! {

/// The gzip stream of the data, at the fastest level.
pub uninterp spec fn gzipped(data: Seq<u8>) -> Seq<u8>;

/// The data of the gzip stream in front of the bytes; `None` where there is no
/// complete and correct one.
pub uninterp spec fn gunzipped(bytes: Seq<u8>) -> Option<Seq<u8>>;

/// The zlib stream of the data, at the fastest level.
pub uninterp spec fn zlibbed(data: Seq<u8>) -> Seq<u8>;

/// The data of the zlib stream in front of the bytes; `None` where there is no
/// complete and correct one.
pub uninterp spec fn unzlibbed(bytes: Seq<u8>) -> Option<Seq<u8>>;

/// The first bytes of a gzip stream.
pub open spec fn gzip_mark() -> Seq<u8> {
    seq![0x1Fu8, 0x8Bu8]
}

/// Calls `flate2::write::GzEncoder` at the fastest level, over a growing buffer.
/// The encoder fails where its writer does, which a buffer never does, or where
/// it is used after its end. The stream begins with the mark of gzip and is read
/// back as the data.
#[verifier::external_body]
pub(crate) fn gzip(data: &[u8]) -> (packed: Result<Vec<u8>, std::io::Error>)
    ensures
        packed is Ok,
        packed matches Ok(out) ==> {
            &&& out@ == gzipped(data@)
            &&& gunzipped(out@) == Some(data@)
            &&& has_prefix(out@, gzip_mark())
        },
{
    let mut encoder = GzEncoder::new(Vec::new(), Compression::fast());
    encoder.write_all(data)?;
    encoder.finish()
}

/// Reads at most `room` bytes from `flate2::read::GzDecoder`. Fewer bytes come
/// only from a complete and correct stream, and such a stream gives no error.
#[verifier::external_body]
pub(crate) fn gunzip(bytes: &[u8], room: u64) -> (data: Result<Vec<u8>, std::io::Error>)
    ensures
        data matches Ok(out) ==> out@.len() <= room && (out@.len() < room ==> gunzipped(bytes@)
            == Some(out@)),
        gunzipped(bytes@) matches Some(whole) ==> data is Ok && data->Ok_0@ == if whole.len()
            <= room {
            whole
        } else {
            whole.take(room as int)
        },
{
    let mut out = Vec::new();
    GzDecoder::new(bytes).take(room).read_to_end(&mut out)?;
    Ok(out)
}

/// Calls `flate2::write::ZlibEncoder` at the fastest level, over a growing
/// buffer. The encoder fails where its writer does, which a buffer never does, or
/// where it is used after its end. The low half of the first byte of the stream
/// is 8, and the stream is read back as the data.
#[verifier::external_body]
pub(crate) fn zlib(data: &[u8]) -> (packed: Result<Vec<u8>, std::io::Error>)
    ensures
        packed is Ok,
        packed matches Ok(out) ==> {
            &&& out@ == zlibbed(data@)
            &&& unzlibbed(out@) == Some(data@)
            &&& out@.len() > 0 && out@[0] as int % 16 == 8
        },
{
    let mut encoder = ZlibEncoder::new(Vec::new(), Compression::fast());
    encoder.write_all(data)?;
    encoder.finish()
}

/// Reads at most `room` bytes from `flate2::read::ZlibDecoder`. Fewer bytes come
/// only from a complete and correct stream, and such a stream gives no error.
#[verifier::external_body]
pub(crate) fn unzlib(bytes: &[u8], room: u64) -> (data: Result<Vec<u8>, std::io::Error>)
    ensures
        data matches Ok(out) ==> out@.len() <= room && (out@.len() < room ==> unzlibbed(bytes@)
            == Some(out@)),
        unzlibbed(bytes@) matches Some(whole) ==> data is Ok && data->Ok_0@ == if whole.len()
            <= room {
            whole
        } else {
            whole.take(room as int)
        },
{
    let mut out = Vec::new();
    ZlibDecoder::new(bytes).take(room).read_to_end(&mut out)?;
    Ok(out)
}

} // verus!
