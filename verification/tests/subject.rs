use pdu::subject::{para_id_to_address, ParaLocation, Subject};

#[test]
fn child_account_of_zero_is_the_tag_and_zeros() {
    let address = para_id_to_address(ParaLocation::Child, 0);
    let mut expected = vec![0u8; 32];
    expected[0..4].copy_from_slice(b"para");
    assert_eq!(address, expected);
    assert_eq!(address.len(), 32);
}

#[test]
fn sibling_account_starts_with_its_own_tag() {
    for id in [0u16, 1, 1000, 65535] {
        let sibling = para_id_to_address(ParaLocation::Sibling, id);
        let child = para_id_to_address(ParaLocation::Child, id);
        assert_eq!(&sibling[0..4], b"sibl");
        assert_eq!(&child[0..4], b"para");
        assert_ne!(sibling, child);
        assert_eq!(sibling[4..], child[4..]);
    }
}

#[test]
fn the_number_follows_the_tag_low_byte_first() {
    let address = para_id_to_address(ParaLocation::Child, 0x1234);
    assert_eq!(address[4], 0x34);
    assert_eq!(address[5], 0x12);
    assert!(address[6..].iter().all(|byte| *byte == 0));
    let address = para_id_to_address(ParaLocation::Sibling, 2000);
    let mut expected = vec![0u8; 32];
    expected[0..4].copy_from_slice(b"sibl");
    expected[4] = 0xd0;
    expected[5] = 0x07;
    assert_eq!(address, expected);
    let address = para_id_to_address(ParaLocation::Child, 65535);
    assert_eq!(&address[4..6], &[255, 255]);
    assert_eq!(address.len(), 32);
}

#[test]
fn the_derived_account_is_the_scale_encoding_behind_the_tag() {
    for id in [0u16, 1, 255, 256, 2004, 65535] {
        let address = para_id_to_address(ParaLocation::Sibling, id);
        let encoded = parity_scale_codec::Encode::encode(&id);
        assert_eq!(&address[4..4 + encoded.len()], &encoded[..]);
    }
}

#[test]
fn a_subject_matches_where_its_bytes_occur() {
    let a = Subject::Address(vec![1, 2, 3]);
    let b = Subject::ParaAccount(ParaLocation::Child, 7, vec![4, 5]);
    let key = [0u8, 1, 2, 3, 9];
    assert!(a.matches(&key));
    assert!(!b.matches(&key));
    assert!(b.matches(&[4, 5]));
    assert!(b.matches(&[9, 9, 4, 5]));
    assert!(!b.matches(&[4, 9, 5]));
    assert!(!a.matches(&[]));
}

#[test]
fn only_the_bytes_of_a_subject_count() {
    let bytes = para_id_to_address(ParaLocation::Child, 9);
    let as_address = Subject::Address(bytes.clone());
    let as_account = Subject::ParaAccount(ParaLocation::Sibling, 1, bytes.clone());
    let mut data = vec![7u8; 10];
    data.extend_from_slice(&bytes);
    assert!(as_address.matches(&data));
    assert!(as_account.matches(&data));
    assert_eq!(as_address.pattern(), as_account.pattern());
}

#[test]
fn locations_are_named_after_their_variants() {
    assert_eq!(ParaLocation::Child.to_string(), "Child");
    assert_eq!(ParaLocation::Sibling.to_string(), "Sibling");
    assert_eq!(ParaLocation::Child.tag_bytes(), *b"para");
    assert_eq!(ParaLocation::Sibling.tag_bytes(), *b"sibl");
}

#[test]
fn subjects_are_shown_with_their_address() {
    let alice: Vec<u8> = vec![
        0xd4, 0x35, 0x93, 0xc7, 0x15, 0xfd, 0xd3, 0x1c, 0x61, 0x14, 0x1a, 0xbd, 0x04, 0xa9, 0x9f,
        0xd6, 0x82, 0x2c, 0x85, 0x58, 0x85, 0x4c, 0xcd, 0xe3, 0x9a, 0x56, 0x84, 0xe7, 0xa5, 0x6d,
        0xa2, 0x7d,
    ];
    let subject = Subject::Address(alice.clone());
    assert_eq!(
        subject.to_string(),
        "Address(5GrwvaEF5zXb26Fz9rcQpDWS57CtERHpNehXCPcNoHGKutQY)"
    );
    let subject = Subject::ParaAccount(ParaLocation::Sibling, 2000, alice);
    assert_eq!(
        subject.to_string(),
        "ParaAccount(Sibling, 2000, 5GrwvaEF5zXb26Fz9rcQpDWS57CtERHpNehXCPcNoHGKutQY)"
    );
    assert_eq!(subject.render("x"), "ParaAccount(Sibling, 2000, x)");
    assert_eq!(Subject::Address(vec![]).render("abc"), "Address(abc)");
}
