//! Compression of SCALE-encoded data, for data that is sent over the
//! network.
//!
//! A value is encoded, the encoding is compressed, and the compressed bytes
//! are encoded once more, as a run of bytes, so that they carry their
//! length. This module does the part between the two encodings of the
//! value: it takes bytes and gives bytes.

use crate::codec::{decode_bytes, encode_bytes, scale_bytes, scale_bytes_at_front};
use crate::compression::{
    compress_to_vec, decompress_to_vec_with_limit, deflate_output, inflate_output,
    COMPRESSION_LEVEL,
};
use vstd::prelude::*;

verus! {

/// Wraps a value that is to be compressed when it is encoded.
#[derive(Debug, PartialEq)]
pub struct ScaleCompressed<T>(pub T);

impl<T: Clone> Clone for ScaleCompressed<T> {
    fn clone(&self) -> Self {
        Self(self.0.clone())
    }
}

impl<T> ScaleCompressed<T> {
    /// Wraps `inner`.
    pub fn new(inner: T) -> (wrapped: Self)
        ensures
            wrapped.0 == inner,
    {
        Self(inner)
    }
}

/// The most that a value may take once decompressed: 4 MiB.
pub const DECOMPRESSED_LIMIT: usize = 4 * 1024 * 1024;

/// Why compressed data could not be opened.
#[derive(Debug, Clone, Copy, PartialEq, Eq, Structural)]
pub enum UnpackError {
    /// The input does not start with a run of bytes.
    Malformed,
    /// The run of bytes is no compressed data, or holds more than
    /// [`DECOMPRESSED_LIMIT`].
    Corrupted,
}

impl UnpackError {
    /// The error in words.
    pub fn message(&self) -> (text: String)
        ensures
            text@ == match self {
                UnpackError::Malformed => "Could not decode the compressed bytes"@,
                UnpackError::Corrupted => "Data corrupted"@,
            },
    {
        match self {
            UnpackError::Malformed => String::from_str("Could not decode the compressed bytes"),
            UnpackError::Corrupted => String::from_str("Data corrupted"),
        }
    }
}

/// Compressed bytes with their length before them.
pub fn frame(compressed: &[u8]) -> (framed: Vec<u8>)
    requires
        compressed@.len() <= u32::MAX,
    ensures
        framed@ == scale_bytes(compressed@),
{
    encode_bytes(compressed)
}

/// The encoding of a value, compressed and framed: what is sent in place of
/// the encoding. `None` where the compressed bytes are more than a 32-bit
/// length can count.
pub fn pack(encoded: &[u8]) -> (packed: Option<Vec<u8>>)
    ensures
        match packed {
            Some(framed) => deflate_output(encoded@, COMPRESSION_LEVEL).len() <= u32::MAX
                && framed@ == scale_bytes(deflate_output(encoded@, COMPRESSION_LEVEL)),
            None => deflate_output(encoded@, COMPRESSION_LEVEL).len() > u32::MAX,
        },
{
    let compressed = compress_to_vec(encoded, COMPRESSION_LEVEL);
    if compressed.len() <= 0xffff_ffff {
        Some(frame(compressed.as_slice()))
    } else {
        None
    }
}

/// Compressed bytes opened: the bytes they were made from, if they are
/// compressed data and hold no more than [`DECOMPRESSED_LIMIT`].
pub fn inflate(compressed: &[u8]) -> (opened: Result<Vec<u8>, UnpackError>)
    ensures
        match inflate_output(compressed@, DECOMPRESSED_LIMIT) {
            Some(bytes) => opened matches Ok(data) && data@ == bytes,
            None => opened == Err::<Vec<u8>, UnpackError>(UnpackError::Corrupted),
        },
{
    match decompress_to_vec_with_limit(compressed, DECOMPRESSED_LIMIT) {
        Ok(data) => Ok(data),
        Err(_) => Err(UnpackError::Corrupted),
    }
}

/// What [`unpack`] gives for `input`.
pub open spec fn unpacked(input: Seq<u8>) -> Result<Seq<u8>, UnpackError> {
    match scale_bytes_at_front(input) {
        None => Err(UnpackError::Malformed),
        Some(compressed) => match inflate_output(compressed, DECOMPRESSED_LIMIT) {
            Some(bytes) => Ok(bytes),
            None => Err(UnpackError::Corrupted),
        },
    }
}

/// The encoding of a value out of what was sent for it: the run of bytes at
/// the front of `input` is read and decompressed. What follows the run in
/// `input` is not looked at.
pub fn unpack(input: &[u8]) -> (opened: Result<Vec<u8>, UnpackError>)
    ensures
        match unpacked(input@) {
            Ok(bytes) => opened matches Ok(data) && data@ == bytes,
            Err(error) => opened == Err::<Vec<u8>, UnpackError>(error),
        },
{
    match decode_bytes(input) {
        Ok(compressed) => inflate(compressed.as_slice()),
        Err(_) => Err(UnpackError::Malformed),
    }
}

} // verus!
