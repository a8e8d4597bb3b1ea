use pdu::label::Label;
use pdu::stats::{CategoryStat, ItemStat, Overflow, StatsMap};

fn named(name: &str) -> Label {
    Label::named(name)
}

fn counters(item: &ItemStat) -> (usize, usize, usize, usize, usize) {
    (
        item.key_len,
        item.compressed_key_len,
        item.value_len,
        item.compressed_value_len,
        item.num_entries,
    )
}

/// Everything that statistics hold, in an order of its own, so that two
/// sets of statistics can be compared whatever order they were filled in.
fn snapshot(stats: &StatsMap) -> Vec<(String, usize, usize, Vec<(String, (usize, usize, usize, usize, usize))>)> {
    let mut all: Vec<_> = stats
        .categories()
        .iter()
        .map(|category| {
            let mut items: Vec<_> = category
                .items()
                .iter()
                .map(|item| (format!("{:?}", item.name), counters(item)))
                .collect();
            items.sort();
            (
                format!("{:?}", category.name()),
                category.raw_size(),
                category.compressed_size(),
                items,
            )
        })
        .collect();
    all.sort();
    all
}

fn copy_of(stats: &StatsMap) -> StatsMap {
    StatsMap::new().merge(stats).unwrap()
}

type Record = (&'static str, Option<&'static str>, usize, usize, usize, usize);

fn records() -> Vec<Record> {
    vec![
        ("System", Some("Account"), 10, 20, 7, 11),
        ("Balances", None, 5, 5, 5, 4),
        ("System", Some("Account"), 10, 20, 8, 12),
        ("System", Some("Events"), 32, 900, 30, 410),
        ("Balances", Some("Locks"), 48, 17, 40, 19),
        ("System", None, 16, 1, 18, 3),
        ("Balances", None, 16, 0, 18, 2),
    ]
}

fn count_all(stats: &mut StatsMap, records: &[Record]) {
    for (category, item, key_len, value_len, ckl, cvl) in records.iter() {
        let item = match item {
            Some(name) => named(name),
            None => Label::Unknown,
        };
        assert_eq!(stats.record(&named(category), &item, *key_len, *value_len, *ckl, *cvl), Ok(()));
    }
}

#[test]
fn three_records_of_one_item_are_summed() {
    let mut stats = StatsMap::new();
    for (key_len, value_len) in [(10usize, 20usize), (5, 5), (10, 20)] {
        let done = stats.record(&named("System"), &named("Account"), key_len, value_len, 0, 0);
        assert_eq!(done, Ok(()));
    }
    let category = stats.category(&named("System")).unwrap();
    let item = category.item(&named("Account")).unwrap();
    assert_eq!(item.num_entries, 3);
    assert_eq!(item.key_len, 25);
    assert_eq!(item.value_len, 45);
    assert_eq!(category.raw_size(), 70);
    assert_eq!(stats.categories().len(), 1);
    assert_eq!(category.items().len(), 1);
}

#[test]
fn a_record_grows_its_category_and_its_item() {
    let mut stats = StatsMap::new();
    assert!(stats.category(&named("System")).is_none());
    assert_eq!(stats.record(&named("System"), &named("Account"), 48, 80, 40, 33), Ok(()));
    assert_eq!(stats.record(&named("System"), &named("Events"), 32, 1000, 30, 500), Ok(()));
    assert_eq!(stats.record(&named("Balances"), &Label::Unknown, 16, 4, 18, 6), Ok(()));
    let system = stats.category(&named("System")).unwrap();
    assert_eq!(system.raw_size(), 48 + 80 + 32 + 1000);
    assert_eq!(system.compressed_size(), 40 + 33 + 30 + 500);
    assert_eq!(counters(system.item(&named("Account")).unwrap()), (48, 40, 80, 33, 1));
    assert_eq!(counters(system.item(&named("Events")).unwrap()), (32, 30, 1000, 500, 1));
    assert!(system.item(&Label::Unknown).is_none());
    let balances = stats.category(&named("Balances")).unwrap();
    assert_eq!(balances.raw_size(), 20);
    assert_eq!(balances.compressed_size(), 24);
    assert_eq!(counters(balances.item(&Label::Unknown).unwrap()), (16, 18, 4, 6, 1));
}

#[test]
fn the_unknown_bucket_is_no_category_called_unknown() {
    let mut stats = StatsMap::new();
    assert_eq!(stats.record(&Label::Unknown, &Label::Unknown, 1, 2, 3, 4), Ok(()));
    assert_eq!(stats.record(&named("Unknown"), &named("Unknown"), 10, 20, 30, 40), Ok(()));
    assert_eq!(stats.categories().len(), 2);
    assert_eq!(stats.category(&Label::Unknown).unwrap().raw_size(), 3);
    assert_eq!(stats.category(&named("Unknown")).unwrap().raw_size(), 30);
    assert_eq!(Label::Unknown.text(), "Unknown");
    assert_eq!(named("Unknown").text(), "Unknown");
    assert!(!Label::Unknown.same(&named("Unknown")));
}

#[test]
fn a_sum_that_does_not_fit_is_refused_and_changes_nothing() {
    let mut stats = StatsMap::new();
    assert_eq!(stats.record(&named("A"), &named("x"), usize::MAX - 5, 0, 1, 1), Ok(()));
    let before = snapshot(&stats);
    assert_eq!(stats.record(&named("A"), &named("x"), 6, 0, 0, 0), Err(Overflow));
    assert_eq!(snapshot(&stats), before);
    assert_eq!(stats.record(&named("A"), &named("y"), 3, 3, 0, 0), Err(Overflow));
    assert_eq!(snapshot(&stats), before);
    assert_eq!(stats.record(&named("B"), &named("x"), usize::MAX, 1, 0, 0), Err(Overflow));
    assert_eq!(stats.record(&named("B"), &named("x"), 0, 0, usize::MAX, 1), Err(Overflow));
    assert_eq!(snapshot(&stats), before);
    assert_eq!(stats.record(&named("A"), &named("x"), 5, 0, 0, 0), Ok(()));
    assert_eq!(stats.category(&named("A")).unwrap().raw_size(), usize::MAX);
}

#[test]
fn merging_adds_every_counter_of_what_both_hold() {
    let mut left = StatsMap::new();
    assert_eq!(left.record(&named("System"), &named("Account"), 10, 20, 7, 11), Ok(()));
    assert_eq!(left.record(&named("Balances"), &Label::Unknown, 5, 5, 5, 4), Ok(()));
    let mut right = StatsMap::new();
    assert_eq!(right.record(&named("System"), &named("Account"), 1, 2, 3, 4), Ok(()));
    assert_eq!(right.record(&named("System"), &named("Events"), 32, 900, 30, 410), Ok(()));
    assert_eq!(right.record(&named("Staking"), &named("Ledger"), 64, 64, 60, 50), Ok(()));
    let merged = left.merge(&right).unwrap();
    let system = merged.category(&named("System")).unwrap();
    assert_eq!(system.raw_size(), 30 + 3 + 932);
    assert_eq!(system.compressed_size(), 18 + 7 + 440);
    assert_eq!(counters(system.item(&named("Account")).unwrap()), (11, 10, 22, 15, 2));
    assert_eq!(counters(system.item(&named("Events")).unwrap()), (32, 30, 900, 410, 1));
    let balances = merged.category(&named("Balances")).unwrap();
    assert_eq!(balances.raw_size(), 10);
    assert_eq!(counters(balances.item(&Label::Unknown).unwrap()), (5, 5, 5, 4, 1));
    let staking = merged.category(&named("Staking")).unwrap();
    assert_eq!(staking.raw_size(), 128);
    assert_eq!(staking.compressed_size(), 110);
    assert_eq!(counters(staking.item(&named("Ledger")).unwrap()), (64, 60, 64, 50, 1));
    assert_eq!(merged.categories().len(), 3);
}

#[test]
fn merging_with_nothing_changes_nothing() {
    let mut stats = StatsMap::new();
    count_all(&mut stats, &records());
    let expected = snapshot(&stats);
    let merged = stats.merge(&StatsMap::new()).unwrap();
    assert_eq!(snapshot(&merged), expected);
    let merged = StatsMap::new().merge(&merged).unwrap();
    assert_eq!(snapshot(&merged), expected);
}

#[test]
fn the_merged_result_does_not_depend_on_the_partition() {
    let all = records();
    let mut whole = StatsMap::new();
    count_all(&mut whole, &all);
    let expected = snapshot(&whole);
    for workers in 1..=4usize {
        for shift in 0..workers {
            let mut shares: Vec<StatsMap> = (0..workers).map(|_| StatsMap::new()).collect();
            for (n, record) in all.iter().enumerate() {
                count_all(&mut shares[(n + shift) % workers], &[*record]);
            }
            let mut forward = StatsMap::new();
            for share in shares.iter() {
                forward = forward.merge(share).unwrap();
            }
            assert_eq!(snapshot(&forward), expected);
            let mut backward = StatsMap::new();
            for share in shares.iter().rev() {
                backward = backward.merge(share).unwrap();
            }
            assert_eq!(snapshot(&backward), expected);
        }
    }
}

#[test]
fn the_statistics_do_not_depend_on_the_order_of_the_records() {
    let all = records();
    let mut forward = StatsMap::new();
    count_all(&mut forward, &all);
    let mut reversed: Vec<Record> = all.clone();
    reversed.reverse();
    let mut backward = StatsMap::new();
    count_all(&mut backward, &reversed);
    assert_eq!(snapshot(&forward), snapshot(&backward));
}

#[test]
fn merging_is_commutative_and_associative() {
    let all = records();
    let mut a = StatsMap::new();
    count_all(&mut a, &all[0..2]);
    let mut b = StatsMap::new();
    count_all(&mut b, &all[2..5]);
    let mut c = StatsMap::new();
    count_all(&mut c, &all[5..7]);
    let ab = copy_of(&a).merge(&b).unwrap();
    let ba = copy_of(&b).merge(&a).unwrap();
    assert_eq!(snapshot(&ab), snapshot(&ba));
    let ab_c = ab.merge(&c).unwrap();
    let bc = copy_of(&b).merge(&c).unwrap();
    let a_bc = copy_of(&a).merge(&bc).unwrap();
    assert_eq!(snapshot(&ab_c), snapshot(&a_bc));
}

#[test]
fn a_merge_that_does_not_fit_gives_nothing() {
    let mut left = StatsMap::new();
    assert_eq!(left.record(&named("A"), &named("x"), usize::MAX - 1, 0, 0, 0), Ok(()));
    let mut right = StatsMap::new();
    assert_eq!(right.record(&named("A"), &named("y"), 2, 0, 0, 0), Ok(()));
    assert!(matches!(left.merge(&right), Err(Overflow)));
    let mut left = StatsMap::new();
    assert_eq!(left.record(&named("A"), &named("x"), 0, 0, 0, usize::MAX), Ok(()));
    let mut right = StatsMap::new();
    assert_eq!(right.record(&named("A"), &named("x"), 0, 0, 0, 1), Ok(()));
    assert!(matches!(left.merge(&right), Err(Overflow)));
    let mut left = StatsMap::new();
    assert_eq!(left.record(&named("A"), &named("x"), 0, 0, 0, usize::MAX), Ok(()));
    let mut right = StatsMap::new();
    assert_eq!(right.record(&named("B"), &named("x"), 0, 0, 0, usize::MAX), Ok(()));
    assert!(left.merge(&right).is_ok());
}

#[test]
fn a_category_can_be_filled_by_itself() {
    let mut category = CategoryStat::new(named("System"));
    assert_eq!(category.raw_size(), 0);
    assert_eq!(category.items().len(), 0);
    assert_eq!(category.record(&named("Account"), 10, 20, 3, 4), Ok(()));
    assert_eq!(category.record(&named("Account"), 1, 2, 3, 4), Ok(()));
    assert_eq!(category.record(&named("Number"), usize::MAX, 0, 0, 0), Err(Overflow));
    assert!(category.name().same(&named("System")));
    assert_eq!(category.raw_size(), 33);
    assert_eq!(category.compressed_size(), 14);
    assert_eq!(counters(category.item(&named("Account")).unwrap()), (11, 6, 22, 8, 2));
    assert!(category.item(&named("Number")).is_none());
    let copy = category.clone();
    assert_eq!(copy.raw_size(), 33);
    assert_eq!(counters(copy.item(&named("Account")).unwrap()), (11, 6, 22, 8, 2));
}

#[test]
fn categories_and_items_are_kept_in_the_order_of_their_labels() {
    let mut stats = StatsMap::new();
    for (category, item) in [
        ("System", Some("Number")),
        ("Balances", Some("Locks")),
        ("System", Some("Account")),
        ("Staking", None),
        ("System", None),
        ("Balances", Some("Account")),
        ("", Some("b")),
        ("Zeta", Some("a")),
        ("System", Some("Events")),
    ] {
        let item = match item {
            Some(name) => named(name),
            None => Label::Unknown,
        };
        assert_eq!(stats.record(&named(category), &item, 1, 1, 1, 1), Ok(()));
    }
    assert_eq!(stats.record(&Label::Unknown, &Label::Unknown, 1, 1, 1, 1), Ok(()));
    let names: Vec<String> =
        stats.categories().iter().map(|category| format!("{:?}", category.name())).collect();
    assert_eq!(
        names,
        vec![
            "Unknown",
            "Named(\"\")",
            "Named(\"Balances\")",
            "Named(\"Staking\")",
            "Named(\"System\")",
            "Named(\"Zeta\")"
        ]
    );
    let system = stats.category(&named("System")).unwrap();
    let items: Vec<String> = system.items().iter().map(|item| item.name.text()).collect();
    assert_eq!(items, vec!["Unknown", "Account", "Events", "Number"]);
    assert!(matches!(system.items()[0].name, Label::Unknown));
}

#[test]
fn merged_statistics_stand_in_the_same_order_however_they_were_merged() {
    let all = records();
    let mut a = StatsMap::new();
    count_all(&mut a, &all[0..3]);
    let mut b = StatsMap::new();
    count_all(&mut b, &all[3..7]);
    let ab = copy_of(&a).merge(&b).unwrap();
    let ba = copy_of(&b).merge(&a).unwrap();
    let order = |stats: &StatsMap| -> Vec<(String, Vec<String>)> {
        stats
            .categories()
            .iter()
            .map(|category| {
                (
                    category.name().text(),
                    category.items().iter().map(|item| format!("{:?}", item.name)).collect(),
                )
            })
            .collect()
    };
    assert_eq!(order(&ab), order(&ba));
    assert_eq!(
        order(&ab),
        vec![
            (
                "Balances".to_string(),
                vec!["Unknown".to_string(), "Named(\"Locks\")".to_string()]
            ),
            (
                "System".to_string(),
                vec![
                    "Unknown".to_string(),
                    "Named(\"Account\")".to_string(),
                    "Named(\"Events\")".to_string()
                ]
            ),
        ]
    );
}
