use pdu::text::{cut_at_last, decimal_string};

#[test]
fn numbers_are_written_in_decimal() {
    assert_eq!(decimal_string(0), "0");
    assert_eq!(decimal_string(7), "7");
    assert_eq!(decimal_string(10), "10");
    assert_eq!(decimal_string(2000), "2000");
    assert_eq!(decimal_string(65535), "65535");
    for n in [1u16, 9, 99, 100, 101, 1234, 40404] {
        assert_eq!(decimal_string(n), n.to_string());
    }
}

#[test]
fn text_is_cut_at_the_last_separator() {
    assert_eq!(cut_at_last("kusama.snap", '.'), "kusama");
    assert_eq!(cut_at_last("rococo-people.2024.snap", '.'), "rococo-people.2024");
    assert_eq!(cut_at_last("polkadot", '.'), "polkadot");
    assert_eq!(cut_at_last(".hidden", '.'), "");
    assert_eq!(cut_at_last("trailing.", '.'), "trailing");
    assert_eq!(cut_at_last("", '.'), "");
    assert_eq!(cut_at_last("zürich.snäp", '.'), "zürich");
}
