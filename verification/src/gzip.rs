use crate::payload::{bytes_as_slice, bytes_from_vec, contents};
use bytes::Bytes;
use libdeflater::{CompressionError, CompressionLvl, Compressor};
use vstd::pervasive::unreached;
use vstd::prelude::*;

verus! {

/// `libdeflater::CompressionLvl`, a compression level.
#[verifier::external_type_specification]
#[verifier::external_body]
pub struct ExCompressionLvl(libdeflater::CompressionLvl);

/// `libdeflater::Compressor`, a compressor of one level.
#[verifier::external_type_specification]
#[verifier::external_body]
pub struct ExCompressor(libdeflater::Compressor);

/// `libdeflater::CompressionError`, the failure of a compression.
#[verifier::external_type_specification]
#[verifier::external_body]
pub struct ExCompressionError(libdeflater::CompressionError);

/// The number of a compression level.
pub uninterp spec fn level_number(lvl: CompressionLvl) -> int;

/// The number of the level that a compressor was made with.
pub uninterp spec fn level_of(c: Compressor) -> int;

/// The size that `Compressor::gzip_compress_bound` gives for an input of
/// `n` bytes.
pub uninterp spec fn gzip_bound(n: usize) -> usize;

/// The gzip stream that a compressor of the given level writes for `input`
/// into a buffer of `gzip_bound` bytes. Which bytes these are is a matter
/// of the library as it is built in; what it promises of them, whatever
/// they are, is `gzip_inflated`.
pub uninterp spec fn gzip_stream(level: int, input: Seq<u8>) -> Seq<u8>;

/// The bytes that `Decompressor::gzip_decompress` recovers from `stream`
/// in a buffer with room for them, or `None` where it refuses the stream.
pub uninterp spec fn gzip_inflated(stream: Seq<u8>) -> Option<Seq<u8>>;

/// The number of the fastest compression level.
pub open spec fn fastest_level() -> int {
    0
}

/// `CompressionLvl::fastest`: the level with the lowest number, 0.
pub assume_specification[ libdeflater::CompressionLvl::fastest ]() -> (lvl: CompressionLvl)
    ensures
        level_number(lvl) == fastest_level(),
;

/// `Compressor::new`: a compressor of the level given.
pub assume_specification[ libdeflater::Compressor::new ](lvl: CompressionLvl) -> (c: Compressor)
    ensures
        level_of(c) == level_number(lvl),
;

/// `Compressor::gzip_compress_bound`: the worst-case size of the gzip stream
/// for `n_bytes` of input, which depends on `n_bytes` alone; the compressor
/// keeps its level.
pub assume_specification[ libdeflater::Compressor::gzip_compress_bound ](
    c: &mut Compressor,
    n_bytes: usize,
) -> (bound: usize)
    ensures
        bound == gzip_bound(n_bytes),
        level_of(*final(c)) == level_of(*old(c)),
;

/// `Compressor::gzip_compress` into a buffer of the worst-case size: it
/// succeeds, keeps the buffer's length and returns the length of the stream,
/// which then stands at the start of the buffer and depends on the level and
/// the input alone; the compressor keeps its level. The stream is a gzip
/// stream that decompresses to the input.
pub assume_specification[ libdeflater::Compressor::gzip_compress ](
    c: &mut Compressor,
    in_raw_data: &[u8],
    out_gzip_data: &mut [u8],
) -> (r: Result<usize, CompressionError>)
    requires
        old(out_gzip_data)@.len() == gzip_bound(in_raw_data@.len() as usize),
    ensures
        level_of(*final(c)) == level_of(*old(c)),
        final(out_gzip_data)@.len() == old(out_gzip_data)@.len(),
        r matches Ok(n) && n <= final(out_gzip_data)@.len() && final(out_gzip_data)@.subrange(
            0,
            n as int,
        ) == gzip_stream(level_of(*old(c)), in_raw_data@),
        r matches Ok(n) ==> gzip_inflated(final(out_gzip_data)@.subrange(0, n as int)) == Some(
            in_raw_data@,
        ),
;

/// Compresses `payload` as gzip at the fastest level, into a buffer whose
/// size is the compressor's worst-case bound for the payload's length.
/// Returns the stream, which decompresses to the payload, and its length.
pub fn gzip_encode(payload: &Bytes) -> (r: (usize, Bytes))
    ensures
        contents(r.1) == gzip_stream(fastest_level(), contents(*payload)),
        r.0 == contents(r.1).len(),
        gzip_inflated(contents(r.1)) == Some(contents(*payload)),
{
    let mut compressor = Compressor::new(CompressionLvl::fastest());
    let input = bytes_as_slice(payload);
    let bound = compressor.gzip_compress_bound(input.len());
    let mut out: Vec<u8> = vec![0u8; bound];
    match compressor.gzip_compress(input, out.as_mut_slice()) {
        Ok(length) => {
            out.truncate(length);
            (length, bytes_from_vec(out))
        },
        Err(_) => unreached(),
    }
}

} // verus!
