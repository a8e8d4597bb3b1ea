use pdu::endpoint::{meta_path_of, network_name, resolve_url, storage_json_path, url_for_lowercase};
use pdu::info::{category_info, network_info, shown_lowercase, Info, NetworkInfo};
use pdu::label::Label;
use pdu::stats::{Overflow, StatsMap};

fn info(pallet: Option<&str>, verbose: bool) -> Info {
    Info {
        snapshot: "snaps/rococo-people.snap".to_string(),
        rpc: "Polkadot".to_string(),
        pallet: pallet.map(|name| name.to_string()),
        verbose,
    }
}

#[test]
fn networks_known_by_name_have_their_node() {
    assert_eq!(resolve_url("kusama"), "wss://kusama-rpc.polkadot.io:443");
    assert_eq!(resolve_url("KUSAMA"), "wss://kusama-rpc.polkadot.io:443");
    assert_eq!(resolve_url("Polkadot"), "wss://rpc.polkadot.io:433");
    assert_eq!(resolve_url("wss://Rococo-People-RPC.polkadot.io:443"), "wss://rococo-people-rpc.polkadot.io:443");
    assert_eq!(resolve_url(""), "");
    assert_eq!(url_for_lowercase("kusama".to_string()), "wss://kusama-rpc.polkadot.io:443");
    assert_eq!(url_for_lowercase("Kusama".to_string()), "Kusama");
    assert_eq!(info(None, false).url(), "wss://rpc.polkadot.io:433");
}

#[test]
fn the_network_is_named_after_the_snapshot() {
    assert_eq!(network_name("rococo-people.snap"), "rococo-people");
    assert_eq!(network_name("kusama.2024-01-01.snap"), "kusama.2024-01-01");
    assert_eq!(network_name("kusama"), "kusama");
    assert_eq!(meta_path_of("kusama"), "kusama.meta");
    assert_eq!(storage_json_path("kusama"), "kusama_storage.json");
    let info = info(None, false);
    assert_eq!(info.network("rococo-people.snap"), "rococo-people");
    assert_eq!(info.meta_path("rococo-people.snap"), "rococo-people.meta");
}

#[test]
fn a_single_category_is_always_shown_in_full() {
    assert!(!info(None, false).is_verbose());
    assert!(info(None, true).is_verbose());
    assert!(info(Some("System"), false).is_verbose());
    assert!(info(Some("System"), true).is_verbose());
}

#[test]
fn the_category_asked_for_is_found_whatever_its_case() {
    let all = info(None, false);
    assert!(all.shows("System"));
    assert!(all.shows(""));
    let one = info(Some("balances"), false);
    assert!(one.shows("Balances"));
    assert!(one.shows("BALANCES"));
    assert!(!one.shows("System"));
    assert!(!one.shows("Balance"));
    assert!(shown_lowercase(None, "x".to_string()));
    assert!(shown_lowercase(Some("x".to_string()), "x".to_string()));
    assert!(!shown_lowercase(Some("x".to_string()), "X".to_string()));
}

#[test]
fn the_sums_of_a_network_are_those_of_its_categories_and_items() {
    let mut stats = StatsMap::new();
    assert_eq!(network_info(&stats), Ok(NetworkInfo::default()));
    let system = Label::named("System");
    assert_eq!(stats.record(&system, &Label::named("Account"), 10, 20, 7, 11), Ok(()));
    assert_eq!(stats.record(&system, &Label::named("Account"), 10, 20, 8, 12), Ok(()));
    assert_eq!(stats.record(&system, &Label::Unknown, 16, 1, 18, 3), Ok(()));
    assert_eq!(stats.record(&Label::named("Balances"), &Label::named("Locks"), 48, 17, 40, 19), Ok(()));
    assert_eq!(stats.record(&Label::Unknown, &Label::Unknown, 3, 0, 5, 2), Ok(()));
    let expected = NetworkInfo {
        size: 10 + 20 + 10 + 20 + 16 + 1 + 48 + 17 + 3,
        num_keys: 5,
        key_size: 10 + 10 + 16 + 48 + 3,
        compressed_key_size: 7 + 8 + 18 + 40 + 5,
        num_values: 5,
        value_size: 20 + 20 + 1 + 17,
        compressed_value_size: 11 + 12 + 3 + 19 + 2,
        compressed_size: 7 + 11 + 8 + 12 + 18 + 3 + 40 + 19 + 5 + 2,
    };
    assert_eq!(network_info(&stats), Ok(expected));
}

#[test]
fn sums_that_cannot_be_held_are_refused() {
    let mut stats = StatsMap::new();
    assert_eq!(stats.record(&Label::named("A"), &Label::Unknown, usize::MAX, 0, 0, 0), Ok(()));
    assert!(network_info(&stats).is_ok());
    assert_eq!(stats.record(&Label::named("B"), &Label::Unknown, 1, 0, 0, 0), Ok(()));
    assert_eq!(network_info(&stats), Err(Overflow));
    let mut stats = StatsMap::new();
    assert_eq!(stats.record(&Label::named("A"), &Label::named("x"), 0, 0, 0, usize::MAX), Ok(()));
    assert_eq!(stats.record(&Label::named("B"), &Label::named("x"), 0, 0, 0, 1), Ok(()));
    assert_eq!(network_info(&stats), Err(Overflow));
}

#[test]
fn the_sums_of_a_category_are_its_sizes_and_those_of_its_items() {
    let mut stats = StatsMap::new();
    let system = Label::named("System");
    assert_eq!(stats.record(&system, &Label::named("Account"), 10, 20, 7, 11), Ok(()));
    assert_eq!(stats.record(&system, &Label::named("Events"), 32, 900, 30, 410), Ok(()));
    assert_eq!(stats.record(&system, &Label::named("Account"), 1, 2, 3, 4), Ok(()));
    assert_eq!(stats.record(&Label::named("Other"), &Label::Unknown, 100, 100, 100, 100), Ok(()));
    let expected = NetworkInfo {
        size: 965,
        num_keys: 3,
        key_size: 43,
        compressed_key_size: 40,
        num_values: 3,
        value_size: 922,
        compressed_value_size: 425,
        compressed_size: 465,
    };
    assert_eq!(category_info(stats.category(&system).unwrap()), Ok(expected));
    let none = NetworkInfo::default();
    assert_eq!(none.checked_plus(expected), Some(expected));
    assert_eq!(expected.checked_plus(expected).map(|sum| sum.size), Some(1930));
    let full = NetworkInfo { num_keys: usize::MAX, ..expected };
    assert_eq!(full.checked_plus(expected), None);
}
