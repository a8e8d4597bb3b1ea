//! Bytes written as hexadecimal text, by the `hex` crate.

use crate::text::digit;
use vstd::prelude::*;

verus! {

/// The character of a hexadecimal digit, letters in lower case.
pub open spec fn hex_digit(nibble: int) -> char {
    if nibble < 10 {
        digit(nibble)
    } else if nibble == 10 {
        'a'
    } else if nibble == 11 {
        'b'
    } else if nibble == 12 {
        'c'
    } else if nibble == 13 {
        'd'
    } else if nibble == 14 {
        'e'
    } else {
        'f'
    }
}

/// Bytes as text: two hexadecimal digits for each byte, the high one
/// first.
pub open spec fn hex_lower(data: Seq<u8>) -> Seq<char>
    decreases data.len(),
{
    if data.len() == 0 {
        Seq::empty()
    } else {
        hex_lower(data.drop_last()).push(hex_digit(data.last() as int / 16)).push(
            hex_digit(data.last() as int % 16),
        )
    }
}

/// Calls `hex::encode`, which writes each byte as two digits out of
/// "0123456789abcdef", the high half of the byte first. The contract says
/// so.
#[verifier::external_body]
pub(crate) fn encode_hex(data: &[u8]) -> (text: String)
    ensures
        text@ == hex_lower(data@),
{
    hex::encode(data)
}

/// Bytes as they stand in a chain specification: "0x" and their
/// hexadecimal digits.
pub open spec fn prefixed_hex(data: Seq<u8>) -> Seq<char> {
    "0x"@ + hex_lower(data)
}

/// Bytes as they stand in a chain specification.
pub fn to_prefixed_hex(data: &[u8]) -> (text: String)
    ensures
        text@ == prefixed_hex(data@),
{
    let digits = encode_hex(data);
    String::from_str("0x").concat(digits.as_str())
}

} // verus!
