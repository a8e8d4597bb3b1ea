//! The export of storage into a chain specification: which keys of a
//! snapshot belong to the categories asked for, how keys and values are
//! written into the specification, and the accounts that can be added for
//! development.
//!
//! The caller walks the storage and reads and writes the files. What it
//! asks here is where a category's keys start, whether the key it has come
//! to still belongs to the category, and what to write.

use crate::codec::{encode_u32, scale_u32};
use crate::hashing::{blake2_128_of, blake2_128_vec, blake2_256_of, blake2_256_vec};
use crate::hexadecimal::{prefixed_hex, to_prefixed_hex};
use crate::matcher::occurs_at;
use crate::prefix::{category_prefix, concat, item_prefix, name_digest};
use crate::text::rfind;
use vstd::prelude::*;

verus! {

/// The arguments of the export.
#[derive(Debug)]
pub struct Chainspec {
    /// The path of the snapshot to read.
    pub snapshot_path: String,
    /// The path of the chain specification to write.
    pub chainspec_out_path: String,
    /// The path of the chain specification to start from.
    pub chainspec_path: String,
    /// The categories whose storage is exported, separated by commas.
    pub pallets: String,
    /// How many development accounts to add.
    pub dev_accounts: Option<u32>,
}

/// The parts of `text` between its separators, in their order. A text
/// without a separator is one part; two separators next to each other have
/// an empty part between them.
pub open spec fn split(text: Seq<char>, separator: char) -> Seq<Seq<char>>
    decreases text.len(),
{
    let at = rfind(text, separator);
    if 0 <= at < text.len() {
        split(text.take(at), separator).push(text.skip(at + 1))
    } else {
        seq![text]
    }
}

/// The last separator of a text is where `rfind` says, and nowhere behind.
proof fn lemma_rfind_is_last(text: Seq<char>, separator: char)
    ensures
        -1 <= rfind(text, separator) < text.len(),
        rfind(text, separator) >= 0 ==> text[rfind(text, separator)] == separator,
        forall|i: int| rfind(text, separator) < i < text.len() ==> text[i] != separator,
    decreases text.len(),
{
    if text.len() > 0 && text.last() != separator {
        lemma_rfind_is_last(text.drop_last(), separator);
        assert forall|i: int| rfind(text, separator) < i < text.len() implies text[i]
            != separator by {
            if i < text.len() - 1 {
                assert(text.drop_last()[i] == text[i]);
            }
        }
    }
}

/// A text that ends behind a separator splits into what stands before the
/// separator, split, and what stands behind, provided no separator stands
/// behind.
proof fn lemma_split_at(text: Seq<char>, separator: char, at: int)
    requires
        0 <= at < text.len(),
        text[at] == separator,
        forall|i: int| at < i < text.len() ==> text[i] != separator,
    ensures
        split(text, separator) == split(text.take(at), separator).push(text.skip(at + 1)),
{
    lemma_rfind_is_last(text, separator);
    let found = rfind(text, separator);
    if found < at {
        assert(text[at] != separator);
    }
}

/// A text without a separator is one part.
proof fn lemma_split_none(text: Seq<char>, separator: char)
    requires
        forall|i: int| 0 <= i < text.len() ==> text[i] != separator,
    ensures
        split(text, separator) == seq![text],
{
    lemma_rfind_is_last(text, separator);
}

/// The parts of `text` between its separators, in their order.
pub fn split_text(text: &str, separator: char) -> (parts: Vec<String>)
    ensures
        parts@.len() == split(text@, separator).len(),
        forall|i: int| 0 <= i < parts@.len() ==> parts@[i]@ == split(text@, separator)[i],
{
    let len: usize = text.unicode_len();
    let mut reversed: Vec<String> = Vec::new();
    let mut end: usize = len;
    let mut i: usize = len;
    let ghost mut tails: Seq<Seq<char>> = Seq::empty();
    proof {
        assert(text@.take(end as int) =~= text@);
        assert(split(text@, separator) + tails =~= split(text@, separator));
    }
    while i > 0
        invariant
            i <= end <= len == text@.len(),
            forall|j: int| i <= j < end ==> text@[j] != separator,
            reversed@.len() == tails.len(),
            forall|j: int| 0 <= j < tails.len() ==> reversed@[j]@ == tails[tails.len() - 1 - j],
            split(text@, separator) == split(text@.take(end as int), separator) + tails,
        decreases i,
    {
        if text.get_char(i - 1) == separator {
            let part = text.substring_char(i, end);
            proof {
                let head = text@.take(end as int);
                lemma_split_at(head, separator, i - 1);
                assert(head.take(i - 1) =~= text@.take(i - 1));
                assert(head.skip(i as int) =~= text@.subrange(i as int, end as int));
                assert(split(head, separator) + tails =~= split(text@.take(i - 1), separator) + (
                seq![part@] + tails));
                tails = seq![part@] + tails;
            }
            reversed.push(String::from_str(part));
            end = i - 1;
        }
        i -= 1;
    }
    let part = text.substring_char(0, end);
    proof {
        let head = text@.take(end as int);
        lemma_split_none(head, separator);
        assert(head =~= text@.subrange(0, end as int));
        assert(seq![head] + tails =~= seq![part@] + tails);
        tails = seq![part@] + tails;
    }
    reversed.push(String::from_str(part));
    let mut parts: Vec<String> = Vec::new();
    let mut k: usize = reversed.len();
    while k > 0
        invariant
            k <= reversed@.len(),
            reversed@.len() == tails.len(),
            parts@.len() == reversed@.len() - k,
            forall|j: int| 0 <= j < tails.len() ==> reversed@[j]@ == tails[tails.len() - 1 - j],
            forall|j: int| 0 <= j < parts@.len() ==> parts@[j]@ == tails[j],
        decreases k,
    {
        k -= 1;
        parts.push(reversed[k].clone());
    }
    parts
}

/// Whether a key that the walk has come to still belongs to the category
/// whose keys start with `prefix`.
pub fn belongs_to(key: &[u8], prefix: &[u8]) -> (inside: bool)
    ensures
        inside == occurs_at(key@, prefix@, 0),
{
    if prefix.len() > key.len() {
        return false;
    }
    let mut i: usize = 0;
    while i < prefix.len()
        invariant
            i <= prefix@.len() <= key@.len(),
            forall|j: int| 0 <= j < i ==> key@[j] == prefix@[j],
        decreases prefix@.len() - i,
    {
        if key[i] != prefix[i] {
            assert(key@.subrange(0, prefix@.len() as int)[i as int] != prefix@[i as int]);
            return false;
        }
        i += 1;
    }
    assert(key@.subrange(0, prefix@.len() as int) =~= prefix@);
    true
}

/// One step of the walk through the keys of a category. `next` is the key
/// that follows the last one taken, if the storage holds one. The walk
/// goes on with that key where it starts with `prefix`; else the category
/// is done.
pub fn walk_step(prefix: &[u8], next: Option<Vec<u8>>) -> (taken: Option<Vec<u8>>)
    ensures
        taken == match next {
            Some(key) => if occurs_at(key@, prefix@, 0) {
                Some(key)
            } else {
                None
            },
            None => None,
        },
{
    match next {
        Some(key) => {
            if belongs_to(key.as_slice(), prefix) {
                Some(key)
            } else {
                None
            }
        },
        None => None,
    }
}

/// The account data that a development account starts with: no nonce, no
/// consumers, one provider, no sufficients; a free balance, nothing
/// reserved, nothing frozen; the flag of the new account layout.
pub open spec fn dev_account_value() -> Seq<u8> {
    seq![0u8, 0u8, 0u8, 0u8, 0u8, 0u8, 0u8, 0u8, 1u8, 0u8, 0u8, 0u8, 0u8, 0u8, 0u8, 0u8] + seq![
        12u8,
        114u8,
        184u8,
        136u8,
        224u8,
    ] + Seq::new(58, |i: int| 0u8) + seq![128u8]
}

/// The account data that a development account starts with.
pub fn dev_account_data() -> (data: Vec<u8>)
    ensures
        data@ == dev_account_value(),
{
    let mut data: Vec<u8> = Vec::new();
    while data.len() < 80
        invariant
            data@.len() <= 80,
            forall|i: int| 0 <= i < data@.len() ==> data@[i] == 0u8,
        decreases 80 - data@.len(),
    {
        data.push(0);
    }
    data[8] = 1;
    data[16] = 12;
    data[17] = 114;
    data[18] = 184;
    data[19] = 136;
    data[20] = 224;
    data[79] = 128;
    assert(data@ =~= dev_account_value());
    data
}

/// The account of the development account `index`: the Blake2 hash of the
/// number's encoding.
pub open spec fn dev_account_id(index: u32) -> Seq<u8> {
    blake2_256_of(scale_u32(index))
}

/// The storage key of the development account `index`: the prefix of the
/// accounts of the system, the 16-byte Blake2 hash of the account, and the
/// account itself.
pub open spec fn dev_account_key(index: u32) -> Seq<u8> {
    item_prefix("System"@, "Account"@) + blake2_128_of(dev_account_id(index))
        + dev_account_id(index)
}

/// The storage key of the development account `index`.
pub fn dev_account_storage_key(index: u32) -> (key: Vec<u8>)
    ensures
        key@ == dev_account_key(index),
        key@.len() == 80,
{
    let pallet_prefix = name_digest("System");
    let storage_prefix = name_digest("Account");
    let account_prefix = concat(&pallet_prefix, &storage_prefix);
    let encoded = encode_u32(index);
    let account = blake2_256_vec(encoded.as_slice());
    let hashed = blake2_128_vec(account.as_slice());
    let key = concat(&hashed, &account);
    let final_key = concat(&account_prefix, &key);
    assert(final_key@ =~= dev_account_key(index));
    final_key
}

/// One entry of the specification's storage: key and value, both as text.
#[derive(Debug)]
pub struct TopEntry {
    pub key: String,
    pub value: String,
}

/// A key and a value as they are written into the specification.
pub fn top_entry(key: &[u8], value: &[u8]) -> (entry: TopEntry)
    ensures
        entry.key@ == prefixed_hex(key@),
        entry.value@ == prefixed_hex(value@),
{
    TopEntry { key: to_prefixed_hex(key), value: to_prefixed_hex(value) }
}

impl Chainspec {
    /// The names of the categories whose storage is exported.
    pub fn pallet_names(&self) -> (names: Vec<String>)
        ensures
            names@.len() == split(self.pallets@, ',').len(),
            forall|i: int| 0 <= i < names@.len() ==> names@[i]@ == split(self.pallets@, ',')[i],
    {
        split_text(self.pallets.as_str(), ',')
    }

    /// Where the keys of the category called `name` start.
    pub fn storage_prefix(name: &str) -> (prefix: Vec<u8>)
        ensures
            prefix@ == category_prefix(name@),
    {
        name_digest(name)
    }

    /// How many development accounts are added.
    pub fn dev_account_count(&self) -> (count: u32)
        ensures
            count == match self.dev_accounts {
                Some(n) => n,
                None => 0,
            },
    {
        match self.dev_accounts {
            Some(n) => n,
            None => 0,
        }
    }

    /// The entries of the development accounts, one for each number below
    /// the count, in the order of the numbers; none where no count is
    /// given.
    pub fn dev_account_entries(&self) -> (entries: Vec<TopEntry>)
        ensures
            entries@.len() == match self.dev_accounts {
                Some(n) => n as nat,
                None => 0,
            },
            forall|i: int|
                0 <= i < entries@.len() ==> entries@[i].key@ == prefixed_hex(
                    dev_account_key(i as u32),
                ) && entries@[i].value@ == prefixed_hex(dev_account_value()),
    {
        let count = self.dev_account_count();
        let value = dev_account_data();
        let mut entries: Vec<TopEntry> = Vec::new();
        let mut index: u32 = 0;
        while index < count
            invariant
                index <= count,
                value@ == dev_account_value(),
                entries@.len() == index,
                forall|i: int|
                    0 <= i < entries@.len() ==> entries@[i].key@ == prefixed_hex(
                        dev_account_key(i as u32),
                    ) && entries@[i].value@ == prefixed_hex(dev_account_value()),
            decreases count - index,
        {
            let key = dev_account_storage_key(index);
            entries.push(top_entry(key.as_slice(), value.as_slice()));
            index += 1;
        }
        entries
    }
}

} // verus!
