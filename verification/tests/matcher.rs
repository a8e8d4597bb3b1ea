use pdu::matcher::is_substr;

#[test]
fn empty_needle_is_found_at_zero() {
    let empty: [u8; 0] = [];
    assert_eq!(is_substr(&[1u8, 2, 3], &empty), Some(0));
    assert_eq!(is_substr(&empty, &empty), Some(0));
}

#[test]
fn lowest_index_is_reported() {
    assert_eq!(is_substr(&[0u8, 1, 2, 3, 9], &[1, 2, 3]), Some(1));
    assert_eq!(is_substr(&[1u8, 2, 1, 2, 1, 2], &[1, 2]), Some(0));
    assert_eq!(is_substr(&[7u8, 7, 8], &[7, 8]), Some(1));
    assert_eq!(is_substr(&[5u8, 6, 7], &[7]), Some(2));
    assert_eq!(is_substr(&[5u8, 6, 7], &[5, 6, 7]), Some(0));
}

#[test]
fn absent_needle_is_not_found() {
    let empty: [u8; 0] = [];
    assert_eq!(is_substr(&[0u8, 1, 2, 3, 9], &[4, 5]), None);
    assert_eq!(is_substr(&[1u8, 2], &[1, 2, 3]), None);
    assert_eq!(is_substr(&[1u8, 2, 4], &[1, 2, 3]), None);
    assert_eq!(is_substr(&empty, &[1u8]), None);
}

#[test]
fn other_element_types_are_searched_too() {
    let words = ["a".to_string(), "b".to_string(), "c".to_string()];
    assert_eq!(is_substr(&words, &["b".to_string(), "c".to_string()]), Some(1));
    assert_eq!(is_substr(&words, &["c".to_string(), "b".to_string()]), None);
    assert_eq!(is_substr(&[1u32, 2, 3, 2, 3], &[2u32, 3]), Some(1));
}
