use pdu::label::Label;
use pdu::ranking::{rank, ranked_categories, ranked_items};
use pdu::stats::StatsMap;

#[test]
fn the_largest_entry_is_listed_first() {
    assert_eq!(rank(&vec![(1, 0), (5, 0), (3, 0)], false), vec![1, 2, 0]);
    assert_eq!(rank(&vec![(1, 0), (5, 0), (3, 0)], true), vec![1, 2, 0]);
    assert_eq!(rank(&vec![(1, 1), (0, 3), (2, 2)], false), vec![2, 1, 0]);
    assert_eq!(rank(&vec![], false), Vec::<usize>::new());
    assert_eq!(rank(&vec![(7, 7)], true), vec![0]);
    assert_eq!(rank(&vec![(usize::MAX, usize::MAX), (usize::MAX, 0), (0, 1)], false), vec![0, 1, 2]);
    assert_eq!(rank(&vec![(0, 1), (usize::MAX, 0), (usize::MAX, 1)], false), vec![2, 1, 0]);
}

#[test]
fn entries_of_one_size_keep_their_order_or_reverse_it() {
    let parts = vec![(2, 0), (9, 0), (2, 0), (1, 1), (9, 0), (0, 0)];
    assert_eq!(rank(&parts, false), vec![1, 4, 0, 2, 3, 5]);
    assert_eq!(rank(&parts, true), vec![4, 1, 3, 2, 0, 5]);
    let mut expected: Vec<usize> = (0..parts.len()).collect();
    expected.sort_by(|a, b| (parts[*b].0 + parts[*b].1).cmp(&(parts[*a].0 + parts[*a].1)));
    assert_eq!(rank(&parts, false), expected);
    let mut expected: Vec<usize> = (0..parts.len()).collect();
    expected.sort_by_key(|at| parts[*at].0 + parts[*at].1);
    expected.reverse();
    assert_eq!(rank(&parts, true), expected);
}

#[test]
fn categories_and_items_are_listed_by_size() {
    let mut stats = StatsMap::new();
    for (category, item, key_len, value_len) in [
        ("System", "Account", 10usize, 90usize),
        ("System", "Events", 50, 50),
        ("System", "Number", 1, 1),
        ("Balances", "Locks", 300, 0),
        ("Aura", "Slot", 100, 102),
        ("Staking", "Ledger", 202, 0),
    ] {
        let done = stats.record(&Label::named(category), &Label::named(item), key_len, value_len, 0, 0);
        assert_eq!(done, Ok(()));
    }
    let names: Vec<String> = ranked_categories(&stats)
        .into_iter()
        .map(|at| stats.categories()[at].name().text())
        .collect();
    assert_eq!(names, vec!["Balances", "Aura", "Staking", "System"]);
    let system = stats.category(&Label::named("System")).unwrap();
    let items: Vec<String> =
        ranked_items(system).into_iter().map(|at| system.items()[at].name.text()).collect();
    assert_eq!(items, vec!["Events", "Account", "Number"]);
    assert_eq!(ranked_categories(&StatsMap::new()), Vec::<usize>::new());
}
