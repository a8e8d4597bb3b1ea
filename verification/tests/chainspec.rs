use pdu::chainspec::{
    belongs_to, dev_account_data, dev_account_storage_key, split_text, top_entry, walk_step,
    Chainspec,
};
use pdu::hexadecimal::to_prefixed_hex;

fn chainspec(pallets: &str, dev_accounts: Option<u32>) -> Chainspec {
    Chainspec {
        snapshot_path: "kusama.snap".to_string(),
        chainspec_out_path: "out.json".to_string(),
        chainspec_path: "in.json".to_string(),
        pallets: pallets.to_string(),
        dev_accounts,
    }
}

#[test]
fn the_categories_are_separated_by_commas() {
    assert_eq!(chainspec("System,Balances", None).pallet_names(), vec!["System", "Balances"]);
    assert_eq!(chainspec("System", None).pallet_names(), vec!["System"]);
    assert_eq!(chainspec("", None).pallet_names(), vec![""]);
    assert_eq!(chainspec("a,,b,", None).pallet_names(), vec!["a", "", "b", ""]);
    assert_eq!(chainspec(",", None).pallet_names(), vec!["", ""]);
    for text in ["", "x", "x,y", ",x,", "a,b,c,d", "ä,ö,ü", ",,,"] {
        let expected: Vec<String> = text.split(",").map(|part| part.to_string()).collect();
        assert_eq!(split_text(text, ','), expected);
    }
}

#[test]
fn the_keys_of_a_category_start_with_the_digest_of_its_name() {
    let prefix = Chainspec::storage_prefix("System");
    assert_eq!(prefix, sp_crypto_hashing::twox_128(b"System").to_vec());
    let mut key = prefix.clone();
    assert!(belongs_to(&key, &prefix));
    key.push(1);
    assert!(belongs_to(&key, &prefix));
    assert!(!belongs_to(&prefix[0..15], &prefix));
    key[3] ^= 1;
    assert!(!belongs_to(&key, &prefix));
    assert!(belongs_to(&key, &[]));
    assert!(belongs_to(&[], &[]));
}

#[test]
fn the_walk_goes_on_while_the_keys_belong_to_the_category() {
    let prefix = vec![1u8, 2, 3];
    assert_eq!(walk_step(&prefix, Some(vec![1, 2, 3, 4])), Some(vec![1, 2, 3, 4]));
    assert_eq!(walk_step(&prefix, Some(vec![1, 2, 3])), Some(vec![1, 2, 3]));
    assert_eq!(walk_step(&prefix, Some(vec![1, 2, 4, 0])), None);
    assert_eq!(walk_step(&prefix, Some(vec![1, 2])), None);
    assert_eq!(walk_step(&prefix, None), None);
}

#[test]
fn keys_and_values_are_written_in_hex() {
    let entry = top_entry(&[0x00, 0x0f, 0xa0, 0xff], &[]);
    assert_eq!(entry.key, "0x000fa0ff");
    assert_eq!(entry.value, "0x");
    assert_eq!(to_prefixed_hex(&[1, 2, 3, 15, 16]), "0x0102030f10");
    assert_eq!(to_prefixed_hex(b"Hello world!"), "0x48656c6c6f20776f726c6421");
}

#[test]
fn a_development_account_starts_with_one_provider_and_a_balance() {
    let expected = hex::decode("000000000000000001000000000000000c72b888e00000000000000000000000000000000000000000000000000000000000000000000000000000000000000000000000000000000000000000000080").unwrap();
    assert_eq!(dev_account_data(), expected);
    assert_eq!(dev_account_data().len(), 80);
}

fn expected_key(index: u32) -> Vec<u8> {
    let account = sp_crypto_hashing::blake2_256(&index.to_le_bytes());
    let mut key = sp_crypto_hashing::twox_128(b"System").to_vec();
    key.extend_from_slice(&sp_crypto_hashing::twox_128(b"Account"));
    key.extend_from_slice(&sp_crypto_hashing::blake2_128(&account));
    key.extend_from_slice(&account);
    key
}

#[test]
fn the_key_of_a_development_account_is_derived_from_its_number() {
    for index in [0u32, 1, 2, 255, 256, 70000, u32::MAX] {
        let key = dev_account_storage_key(index);
        assert_eq!(key.len(), 80);
        assert_eq!(key, expected_key(index));
    }
    assert_ne!(dev_account_storage_key(0), dev_account_storage_key(1));
}

#[test]
fn as_many_development_accounts_are_added_as_asked_for() {
    assert_eq!(chainspec("System", None).dev_account_entries().len(), 0);
    assert_eq!(chainspec("System", None).dev_account_count(), 0);
    assert_eq!(chainspec("System", Some(0)).dev_account_entries().len(), 0);
    let entries = chainspec("System", Some(3)).dev_account_entries();
    assert_eq!(entries.len(), 3);
    for (index, entry) in entries.iter().enumerate() {
        assert_eq!(entry.key, format!("0x{}", hex::encode(expected_key(index as u32))));
        assert_eq!(entry.value, format!("0x{}", hex::encode(dev_account_data())));
    }
}
