//! Lists of numbers in JSON, read by `serde_json`.

use vstd::prelude::*;

verus! {

/// The error of `serde_json`; nothing of it is read here.
#[verifier::external_type_specification]
#[verifier::external_body]
pub struct ExJsonError(serde_json::Error);

/// The list of 16-bit numbers that `serde_json` reads out of `text`, or
/// `None` where it reads none: where `text` is no JSON array of such
/// numbers with nothing but blanks around it.
pub uninterp spec fn json_u16_list(text: Seq<u8>) -> Option<Seq<u16>>;

/// Calls `serde_json::from_slice` for a `Vec<u16>`. The parser reads the
/// bytes it is given and nothing else; the contract claims only that what
/// it returns is a function of them.
#[verifier::external_body]
pub(crate) fn parse_u16_list(text: &[u8]) -> (parsed: Result<Vec<u16>, serde_json::Error>)
    ensures
        match parsed {
            Ok(list) => json_u16_list(text@) == Some(list@),
            Err(_) => json_u16_list(text@) is None,
        },
{
    serde_json::from_slice::<Vec<u16>>(text)
}

} // verus!
