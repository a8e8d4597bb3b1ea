use pdu::label::Label;
use pdu::lex::Side;

#[test]
fn labels_are_the_same_where_they_name_the_same_bucket() {
    assert!(Label::named("System").same(&Label::named("System")));
    assert!(!Label::named("System").same(&Label::named("system")));
    assert!(!Label::named("System").same(&Label::named("")));
    assert!(Label::Unknown.same(&Label::Unknown));
    assert!(!Label::Unknown.same(&Label::named("Unknown")));
    assert!(!Label::named("Unknown").same(&Label::Unknown));
    let copy = Label::named("Balances").clone();
    assert!(copy.same(&Label::named("Balances")));
    assert!(Label::Unknown.clone().same(&Label::Unknown));
}

#[test]
fn labels_are_shown_by_their_name() {
    assert_eq!(Label::named("System").text(), "System");
    assert_eq!(Label::named("").text(), "");
    assert_eq!(Label::Unknown.text(), "Unknown");
}

#[test]
fn labels_are_ordered_with_the_unknown_bucket_first() {
    assert_eq!(Label::Unknown.side(&Label::Unknown), Side::Same);
    assert_eq!(Label::Unknown.side(&Label::named("")), Side::Before);
    assert_eq!(Label::named("").side(&Label::Unknown), Side::After);
    assert_eq!(Label::named("A").side(&Label::named("B")), Side::Before);
    assert_eq!(Label::named("B").side(&Label::named("A")), Side::After);
    assert_eq!(Label::named("System").side(&Label::named("System")), Side::Same);
    assert_eq!(Label::named("Sys").side(&Label::named("System")), Side::Before);
    assert_eq!(Label::named("Z").side(&Label::named("a")), Side::Before);
    let names = ["", "A", "Balances", "System", "Systen", "a", "é", "日本"];
    for a in names {
        for b in names {
            let expected = if a < b {
                Side::Before
            } else if a == b {
                Side::Same
            } else {
                Side::After
            };
            assert_eq!(Label::named(a).side(&Label::named(b)), expected);
        }
    }
}
