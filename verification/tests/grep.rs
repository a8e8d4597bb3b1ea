use pdu::grep::{
    find_subject, subjects_of_account, Grep, GrepError, GrepSearch, GrepSearchAddress,
    GrepSearchParaAccount, Scanned, SearchTally,
};
use pdu::prefix::{build_prefix_lookup, CategorizedKey, CategoryDescriptor, PrefixIndex};
use pdu::subject::{para_id_to_address, ParaLocation, Subject};

const ALICE: &str = "5GrwvaEF5zXb26Fz9rcQpDWS57CtERHpNehXCPcNoHGKutQY";
const ALICE_HEX: &str = "d43593c715fdd31c61141abd04a99fd6822c8558854ccde39a5684e7a56da27d";

fn index() -> PrefixIndex {
    build_prefix_lookup(&[
        CategoryDescriptor { name: "Balances".to_string(), items: vec!["Locks".to_string()] },
        CategoryDescriptor { name: "System".to_string(), items: vec!["Account".to_string()] },
    ])
}

fn key_of(category: &str, item: Option<&str>, tail: &[u8]) -> Vec<u8> {
    let mut key = sp_crypto_hashing::twox_128(category.as_bytes()).to_vec();
    if let Some(item) = item {
        key.extend_from_slice(&sp_crypto_hashing::twox_128(item.as_bytes()));
    }
    key.extend_from_slice(tail);
    key
}

fn grep(ignore: Option<&str>) -> Grep {
    Grep {
        snapshot: "kusama.snap".to_string(),
        rpc: "kusama".to_string(),
        ignore_pallet: ignore.map(|name| name.to_string()),
        search: GrepSearch::Address(GrepSearchAddress { ss58: ALICE.to_string() }),
    }
}

fn pattern_of(subject: &Subject) -> Vec<u8> {
    subject.pattern().clone()
}

#[test]
fn a_match_in_the_key_is_attributed_to_the_subject_that_occurs() {
    let subjects = vec![Subject::Address(vec![1, 2, 3]), Subject::Address(vec![4, 5])];
    let key = [0u8, 1, 2, 3, 9];
    assert!(subjects[0].matches(&key));
    assert!(!subjects[1].matches(&key));
    assert_eq!(find_subject(&subjects, &key), Some(0));
    let mut tally = SearchTally::new();
    let scanned = grep(None).search_record(&mut tally, &key, &[7, 7], &PrefixIndex::new(), &subjects);
    match scanned {
        Scanned::Reported(report) => {
            assert_eq!(report.key_subject, Some(0));
            assert_eq!(report.value_subject, None);
            assert!(matches!(report.class, CategorizedKey::Unknown));
        },
        _ => panic!("the record was not reported"),
    }
    assert_eq!(tally, SearchTally { scanned: 1, matched: 1 });
}

#[test]
fn ignoring_a_category_suppresses_its_matches_but_counts_the_record() {
    let lookup = index();
    let subjects = vec![Subject::Address(vec![1, 2, 3])];
    let key = key_of("System", Some("Account"), &[1, 2, 3]);
    let search = grep(Some("System"));
    let mut tally = SearchTally::new();
    let scanned = search.search_record(&mut tally, &key, &[], &lookup, &subjects);
    assert!(matches!(scanned, Scanned::Suppressed));
    assert_eq!(tally, SearchTally { scanned: 1, matched: 0 });
    let key = key_of("System", None, &[1, 2, 3]);
    let scanned = search.search_record(&mut tally, &key, &[], &lookup, &subjects);
    assert!(matches!(scanned, Scanned::Suppressed));
    assert_eq!(tally, SearchTally { scanned: 2, matched: 0 });
    let key = key_of("Balances", Some("Locks"), &[1, 2, 3]);
    let scanned = search.search_record(&mut tally, &key, &[], &lookup, &subjects);
    assert!(matches!(scanned, Scanned::Reported(_)));
    assert_eq!(tally, SearchTally { scanned: 3, matched: 1 });
}

#[test]
fn the_ignored_name_is_compared_exactly() {
    let lookup = index();
    let subjects = vec![Subject::Address(vec![1, 2, 3])];
    let key = key_of("System", Some("Account"), &[1, 2, 3]);
    for ignore in ["system", "SYSTEM", "Syste", "System ", "Account", "Unknown"] {
        let mut tally = SearchTally::new();
        let scanned = grep(Some(ignore)).search_record(&mut tally, &key, &[], &lookup, &subjects);
        assert!(matches!(scanned, Scanned::Reported(_)));
        assert_eq!(tally, SearchTally { scanned: 1, matched: 1 });
    }
    let mut tally = SearchTally::new();
    let scanned = grep(Some("Unknown")).search_record(&mut tally, &[1, 2, 3], &[], &lookup, &subjects);
    assert!(matches!(scanned, Scanned::Reported(_)));
    assert_eq!(tally.matched, 1);
}

#[test]
fn a_record_without_a_match_is_skipped() {
    let lookup = index();
    let subjects = vec![Subject::Address(vec![1, 2, 3])];
    let key = key_of("System", Some("Account"), &[3, 2, 1]);
    let mut tally = SearchTally { scanned: 10, matched: 4 };
    let scanned = grep(None).search_record(&mut tally, &key, &[1, 2], &lookup, &subjects);
    assert!(matches!(scanned, Scanned::Skipped));
    assert_eq!(tally, SearchTally { scanned: 11, matched: 4 });
    let scanned = grep(None).search_record(&mut tally, &key, &[1, 2, 3], &lookup, &[]);
    assert!(matches!(scanned, Scanned::Skipped));
    assert_eq!(tally, SearchTally { scanned: 12, matched: 4 });
}

#[test]
fn key_and_value_are_searched_independently() {
    let lookup = index();
    let subjects = vec![
        Subject::Address(vec![1, 2, 3]),
        Subject::ParaAccount(ParaLocation::Child, 5, vec![4, 5]),
    ];
    let key = key_of("Balances", Some("Locks"), &[1, 2, 3]);
    let mut tally = SearchTally::new();
    let scanned = grep(None).search_record(&mut tally, &key, &[0, 4, 5, 0], &lookup, &subjects);
    match scanned {
        Scanned::Reported(report) => {
            assert_eq!(report.key_subject, Some(0));
            assert_eq!(report.value_subject, Some(1));
            assert_eq!(report.class.name(), "Balances");
            assert!(matches!(report.class, CategorizedKey::Item(_, _)));
        },
        _ => panic!("the record was not reported"),
    }
    let scanned = grep(None).search_record(&mut tally, &[0; 4], &[1, 2, 3], &lookup, &subjects);
    match scanned {
        Scanned::Reported(report) => {
            assert_eq!(report.key_subject, None);
            assert_eq!(report.value_subject, Some(0));
            assert!(matches!(report.class, CategorizedKey::Unknown));
        },
        _ => panic!("the record was not reported"),
    }
    assert_eq!(tally, SearchTally { scanned: 2, matched: 2 });
}

#[test]
fn of_several_subjects_in_one_field_the_last_is_attributed() {
    let subjects = vec![
        Subject::Address(vec![1, 2]),
        Subject::Address(vec![9]),
        Subject::Address(vec![2, 3]),
        Subject::Address(vec![8]),
    ];
    assert_eq!(find_subject(&subjects, &[1, 2, 3]), Some(2));
    assert_eq!(find_subject(&subjects, &[1, 2]), Some(0));
    assert_eq!(find_subject(&subjects, &[8, 1, 2, 3, 9]), Some(3));
    assert_eq!(find_subject(&subjects, &[7]), None);
    assert_eq!(find_subject(&[], &[7]), None);
}

#[test]
fn an_address_becomes_one_subject() {
    let search = GrepSearchAddress { ss58: ALICE.to_string() };
    let subjects = search.subjects().unwrap();
    assert_eq!(subjects.len(), 1);
    assert!(matches!(subjects[0], Subject::Address(_)));
    assert_eq!(pattern_of(&subjects[0]), hex::decode(ALICE_HEX).unwrap());
    let search = GrepSearchAddress { ss58: format!("0x{}", ALICE_HEX) };
    let subjects = search.subjects().unwrap();
    assert_eq!(pattern_of(&subjects[0]), hex::decode(ALICE_HEX).unwrap());
    let subjects = GrepSearch::Address(GrepSearchAddress { ss58: ALICE.to_string() })
        .subjects(None)
        .unwrap();
    assert_eq!(pattern_of(&subjects[0]), hex::decode(ALICE_HEX).unwrap());
}

#[test]
fn an_invalid_address_is_refused() {
    for text in ["", "not an address", "5GrwvaEF5zXb26Fz9rcQpDWS57CtERHpNehXCPcNoHGKutQZ", "0x1234"] {
        let search = GrepSearchAddress { ss58: text.to_string() };
        assert!(matches!(search.subjects(), Err(GrepError::InvalidSs58)));
    }
    assert!(matches!(subjects_of_account(None), Err(GrepError::InvalidSs58)));
    let subjects = subjects_of_account(Some(vec![1, 2, 3])).unwrap();
    assert_eq!(pattern_of(&subjects[0]), vec![1, 2, 3]);
    assert_eq!(GrepError::InvalidSs58.message(), "Invalid SS58");
}

#[test]
fn parachains_become_one_subject_each() {
    let search = GrepSearchParaAccount {
        para_location: ParaLocation::Sibling,
        para_ids: vec![1000, 2000, 1000],
        para_ids_from_json: None,
    };
    let subjects = search.subjects(None).unwrap();
    assert_eq!(subjects.len(), 3);
    for (subject, id) in subjects.iter().zip([1000u16, 2000, 1000]) {
        match subject {
            Subject::ParaAccount(location, para_id, address) => {
                assert_eq!(*location, ParaLocation::Sibling);
                assert_eq!(*para_id, id);
                assert_eq!(*address, para_id_to_address(ParaLocation::Sibling, id));
            },
            _ => panic!("not the account of a parachain"),
        }
    }
    let none = GrepSearchParaAccount {
        para_location: ParaLocation::Child,
        para_ids: vec![],
        para_ids_from_json: None,
    };
    assert_eq!(none.subjects(Some(b"[1]")).unwrap().len(), 0);
}

#[test]
fn the_numbers_of_the_parachains_can_come_from_a_file() {
    let search = GrepSearchParaAccount {
        para_location: ParaLocation::Child,
        para_ids: vec![7],
        para_ids_from_json: Some("ids.json".to_string()),
    };
    assert_eq!(search.para_ids(Some(b" [1, 2,\n 65535] ")), Ok(vec![1, 2, 65535]));
    assert_eq!(search.para_ids(Some(b"[]")), Ok(vec![]));
    assert_eq!(search.para_ids(None), Err(GrepError::UnreadableFile));
    for text in [&b"[1, 2"[..], b"", b"[65536]", b"[-1]", b"{\"ids\": [1]}", b"[1] [2]", b"[1.5]"] {
        assert_eq!(search.para_ids(Some(text)), Err(GrepError::InvalidJson));
    }
    let subjects = GrepSearch::ParaAccount(search).subjects(Some(b"[2004]")).unwrap();
    assert_eq!(subjects.len(), 1);
    assert_eq!(pattern_of(&subjects[0]), para_id_to_address(ParaLocation::Child, 2004));
    assert_eq!(GrepSearchParaAccount::para_ids_from_json(b"[3,4]"), Ok(vec![3, 4]));
    let inline = GrepSearchParaAccount {
        para_location: ParaLocation::Child,
        para_ids: vec![7],
        para_ids_from_json: None,
    };
    assert_eq!(inline.para_ids(None), Ok(vec![7]));
    assert_eq!(inline.para_ids(Some(b"garbage")), Ok(vec![7]));
}

#[test]
fn the_search_knows_its_node_and_its_network() {
    let search = grep(None);
    assert_eq!(search.url(), "wss://kusama-rpc.polkadot.io:443");
    assert_eq!(search.network("kusama.snap"), "kusama");
    assert_eq!(search.meta_path("kusama.snap"), "kusama.meta");
    assert!(!search.is_ignored(&CategorizedKey::Category("System".to_string())));
    let ignoring = grep(Some("System"));
    assert!(ignoring.is_ignored(&CategorizedKey::Category("System".to_string())));
    assert!(ignoring.is_ignored(&CategorizedKey::Item("System".to_string(), "Account".to_string())));
    assert!(!ignoring.is_ignored(&CategorizedKey::Item("Balances".to_string(), "System".to_string())));
    assert!(!ignoring.is_ignored(&CategorizedKey::Unknown));
}
