//! SCALE encoding, done by `parity_scale_codec`.

use vstd::prelude::*;

verus! {

/// The SCALE encoding of a 16-bit number: its two bytes, the low one first.
pub open spec fn scale_u16(value: u16) -> Seq<u8> {
    seq![(value % 256) as u8, (value / 256) as u8]
}

/// Calls `parity_scale_codec::Encode::encode` on a `u16`. The codec writes
/// fixed-width integers as their little-endian bytes; the contract says so.
#[verifier::external_body]
pub(crate) fn encode_u16(value: u16) -> (encoded: Vec<u8>)
    ensures
        encoded@ == scale_u16(value),
{
    parity_scale_codec::Encode::encode(&value)
}

/// The SCALE encoding of a 32-bit number: its four bytes, the lowest first.
pub open spec fn scale_u32(value: u32) -> Seq<u8> {
    seq![
        (value % 256) as u8,
        (value / 256 % 256) as u8,
        (value / 65536 % 256) as u8,
        (value / 16777216) as u8,
    ]
}

/// Calls `parity_scale_codec::Encode::encode` on a `u32`. The codec writes
/// fixed-width integers as their little-endian bytes; the contract says so.
#[verifier::external_body]
pub(crate) fn encode_u32(value: u32) -> (encoded: Vec<u8>)
    ensures
        encoded@ == scale_u32(value),
{
    parity_scale_codec::Encode::encode(&value)
}

/// The error of `parity_scale_codec`; nothing of it is read here.
#[verifier::external_type_specification]
#[verifier::external_body]
pub struct ExCodecError(parity_scale_codec::Error);

/// The SCALE encoding of a run of bytes: its length in the compact form,
/// then the bytes.
pub uninterp spec fn scale_bytes(data: Seq<u8>) -> Seq<u8>;

/// The run of bytes that stands SCALE-encoded at the front of `input`, or
/// `None` where `input` does not start with one.
pub uninterp spec fn scale_bytes_at_front(input: Seq<u8>) -> Option<Seq<u8>>;

/// Calls `parity_scale_codec::Encode::encode` on a byte slice. The codec
/// refuses, by a panic, more bytes than a 32-bit length can count; below
/// that the contract claims only that the result is a function of the
/// bytes.
#[verifier::external_body]
pub(crate) fn encode_bytes(data: &[u8]) -> (encoded: Vec<u8>)
    requires
        data@.len() <= u32::MAX,
    ensures
        encoded@ == scale_bytes(data@),
{
    parity_scale_codec::Encode::encode(data)
}

/// Calls `parity_scale_codec::Decode::decode` for a `Vec<u8>` on `input`,
/// which reads a compact length and as many bytes, and leaves what follows
/// unread. The contract claims only that what comes back is a function of
/// `input`.
#[verifier::external_body]
pub(crate) fn decode_bytes(input: &[u8]) -> (decoded: Result<Vec<u8>, parity_scale_codec::Error>)
    ensures
        match decoded {
            Ok(data) => scale_bytes_at_front(input@) == Some(data@),
            Err(_) => scale_bytes_at_front(input@) is None,
        },
{
    parity_scale_codec::Decode::decode(&mut &input[..])
}

} // verus!
