//! The hash functions by which storage keys are derived from names.
//!
//! They are computed by `sp_crypto_hashing`; nothing about them is proved
//! here. Each digest has a name, so that contracts can say which bytes were
//! hashed without saying what came out.

use vstd::prelude::*;

verus! {

/// What `sp_crypto_hashing::twox_128` gives for `data`.
pub uninterp spec fn twox_128_digest(data: Seq<u8>) -> Seq<u8>;

/// Calls `sp_crypto_hashing::twox_128`: two 64-bit XX hashes of `data`, with
/// seeds 0 and 1, each written little-endian. The contract claims only that
/// the result is a function of `data`; that it has 16 bytes is its type.
#[verifier::external_body]
pub(crate) fn twox_128(data: &[u8]) -> (digest: [u8; 16])
    ensures
        digest@ == twox_128_digest(data@),
{
    sp_crypto_hashing::twox_128(data)
}

/// What `sp_crypto_hashing::blake2_256` gives for `data`.
pub uninterp spec fn blake2_256_digest(data: Seq<u8>) -> Seq<u8>;

/// Calls `sp_crypto_hashing::blake2_256`: the Blake2b hash of `data` with
/// an output of 32 bytes. The contract claims only that the result is a
/// function of `data`.
#[verifier::external_body]
pub(crate) fn blake2_256(data: &[u8]) -> (digest: [u8; 32])
    ensures
        digest@ == blake2_256_digest(data@),
{
    sp_crypto_hashing::blake2_256(data)
}

/// What `sp_crypto_hashing::blake2_128` gives for `data`.
pub uninterp spec fn blake2_128_digest(data: Seq<u8>) -> Seq<u8>;

/// Calls `sp_crypto_hashing::blake2_128`: the Blake2b hash of `data` with
/// an output of 16 bytes. The contract claims only that the result is a
/// function of `data`.
#[verifier::external_body]
pub(crate) fn blake2_128(data: &[u8]) -> (digest: [u8; 16])
    ensures
        digest@ == blake2_128_digest(data@),
{
    sp_crypto_hashing::blake2_128(data)
}

/// `digest` where it has `len` bytes, as every digest that was computed
/// has; else `len` zeros. Reading digests through this makes their length
/// hold of every value, also of those that nothing has computed yet.
pub open spec fn sized(digest: Seq<u8>, len: nat) -> Seq<u8> {
    if digest.len() == len {
        digest
    } else {
        Seq::new(len, |i: int| 0u8)
    }
}

/// The 16 bytes of the XX hash of `data`.
pub open spec fn twox_128_of(data: Seq<u8>) -> Seq<u8> {
    sized(twox_128_digest(data), 16)
}

/// The 32 bytes of the Blake2 hash of `data`.
pub open spec fn blake2_256_of(data: Seq<u8>) -> Seq<u8> {
    sized(blake2_256_digest(data), 32)
}

/// The 16 bytes of the short Blake2 hash of `data`.
pub open spec fn blake2_128_of(data: Seq<u8>) -> Seq<u8> {
    sized(blake2_128_digest(data), 16)
}

/// The bytes of an array as a vector.
fn to_vec<const N: usize>(bytes: &[u8; N]) -> (all: Vec<u8>)
    ensures
        all@ == bytes@,
{
    let mut all: Vec<u8> = Vec::new();
    let mut i: usize = 0;
    while i < N
        invariant
            i <= N,
            all@ == bytes@.subrange(0, i as int),
        decreases N - i,
    {
        all.push(bytes[i]);
        i += 1;
    }
    assert(all@ =~= bytes@);
    all
}

/// The XX hash of `data`, 16 bytes.
pub fn twox_128_vec(data: &[u8]) -> (digest: Vec<u8>)
    ensures
        digest@ == twox_128_of(data@),
        digest@.len() == 16,
{
    to_vec(&twox_128(data))
}

/// The Blake2 hash of `data`, 32 bytes.
pub fn blake2_256_vec(data: &[u8]) -> (digest: Vec<u8>)
    ensures
        digest@ == blake2_256_of(data@),
        digest@.len() == 32,
{
    to_vec(&blake2_256(data))
}

/// The short Blake2 hash of `data`, 16 bytes.
pub fn blake2_128_vec(data: &[u8]) -> (digest: Vec<u8>)
    ensures
        digest@ == blake2_128_of(data@),
        digest@.len() == 16,
{
    to_vec(&blake2_128(data))
}

} // verus!
