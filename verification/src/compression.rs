//! Compression by `miniz_oxide`, the probe by which the compressed size of
//! keys and values is estimated.
//!
//! Nothing is proved of the compressor. Its output has a name, so that
//! contracts can say what was compressed, and at which level.

use vstd::prelude::*;

verus! {

/// The level at which sizes are estimated.
pub const COMPRESSION_LEVEL: u8 = 6;

/// What `miniz_oxide::deflate::compress_to_vec` gives for `data` at `level`:
/// a raw deflate stream.
pub uninterp spec fn deflate_output(data: Seq<u8>, level: u8) -> Seq<u8>;

/// Calls `miniz_oxide::deflate::compress_to_vec`. The compressor keeps no
/// state between calls and reads nothing but its arguments, levels above 10
/// count as 10; the contract claims only that the result is a function of
/// the two arguments.
#[verifier::external_body]
pub(crate) fn compress_to_vec(data: &[u8], level: u8) -> (packed: Vec<u8>)
    ensures
        packed@ == deflate_output(data@, level),
{
    miniz_oxide::deflate::compress_to_vec(data, level)
}

/// The size of `data` once compressed.
pub open spec fn compressed_len(data: Seq<u8>) -> nat {
    deflate_output(data, COMPRESSION_LEVEL).len()
}

/// The number of bytes that `data` takes once compressed.
pub fn compress_size(data: &[u8]) -> (size: usize)
    ensures
        size == compressed_len(data@),
{
    compress_to_vec(data, COMPRESSION_LEVEL).len()
}

/// The error of the decompressor; nothing of it is read here.
#[verifier::external_type_specification]
#[verifier::external_body]
pub struct ExDecompressError(miniz_oxide::inflate::DecompressError);

/// What `miniz_oxide::inflate::decompress_to_vec_with_limit` gives for
/// `data` when the output may have `limit` bytes: the decompressed bytes,
/// or `None` where `data` is no deflate stream or holds more than that.
pub uninterp spec fn inflate_output(data: Seq<u8>, limit: usize) -> Option<Seq<u8>>;

/// Calls `miniz_oxide::inflate::decompress_to_vec_with_limit`. The contract
/// claims only that what comes back is a function of the two arguments.
#[verifier::external_body]
pub(crate) fn decompress_to_vec_with_limit(data: &[u8], limit: usize) -> (unpacked: Result<
    Vec<u8>,
    miniz_oxide::inflate::DecompressError,
>)
    ensures
        match unpacked {
            Ok(bytes) => inflate_output(data@, limit) == Some(bytes@),
            Err(_) => inflate_output(data@, limit) is None,
        },
{
    miniz_oxide::inflate::decompress_to_vec_with_limit(data, limit)
}

} // verus!
