//! Account addresses in the SS58 text form, read and written by `sp_core`.
//!
//! Which addresses `sp_core` accepts, and the prefix it writes, depend on
//! the address format that the process has set as its default. So what
//! these calls return is no function of their arguments, and the contracts
//! say only what holds whatever the format is.

use vstd::prelude::*;

verus! {

/// Calls `str::parse` for `sp_core::crypto::AccountId32`, which reads 64
/// hex digits, with or without "0x" before them, or else an SS58 address
/// with its checksum, and hands back the 32 bytes of the account. The
/// contract claims only the length, which is the type's.
#[verifier::external_body]
pub(crate) fn parse_account(text: &str) -> (account: Option<Vec<u8>>)
    ensures
        account matches Some(bytes) ==> bytes@.len() == 32,
{
    match text.parse::<sp_core::crypto::AccountId32>() {
        Ok(id) => {
            let raw: [u8; 32] = id.into();
            Some(raw.to_vec())
        },
        Err(_) => None,
    }
}

/// Calls `sp_core::crypto::Ss58Codec::to_ss58check` on the account with
/// these 32 bytes. Nothing is claimed of the text.
#[verifier::external_body]
pub(crate) fn to_ss58(address: &[u8]) -> (text: String)
    requires
        address@.len() == 32,
{
    let inner: [u8; 32] = address.try_into().unwrap();
    sp_core::crypto::Ss58Codec::to_ss58check(&sp_core::crypto::AccountId32::from(inner))
}

} // verus!
