//! The order in which a report lists what it shows: the largest first.

use crate::stats::{CategoryStat, ItemStat, StatsMap};
use vstd::prelude::*;

verus! {

/// Whether the entry at position `a` is listed before the entry at position
/// `b`: where it is larger; where both are of one size, the entry that
/// stands first is listed first, or the one that stands last where ties are
/// reversed.
pub open spec fn listed_before(sizes: Seq<nat>, a: int, b: int, ties_reversed: bool) -> bool {
    sizes[a] > sizes[b] || (sizes[a] == sizes[b] && if ties_reversed {
        a > b
    } else {
        a < b
    })
}

/// `order` lists every position of `sizes` once, in the order of
/// [`listed_before`].
pub open spec fn ranks(sizes: Seq<nat>, order: Seq<usize>, ties_reversed: bool) -> bool {
    &&& order.len() == sizes.len()
    &&& order.no_duplicates()
    &&& forall|i: int| 0 <= i < order.len() ==> order[i] < sizes.len()
    &&& forall|i: int, j: int|
        0 <= i < j < order.len() ==> listed_before(
            sizes,
            order[i] as int,
            order[j] as int,
            ties_reversed,
        )
}

/// The size of an entry that is given as two parts.
pub open spec fn pair_size(parts: (usize, usize)) -> nat {
    (parts.0 + parts.1) as nat
}

/// The sizes of entries that are given as two parts each.
pub open spec fn pair_sizes(parts: Seq<(usize, usize)>) -> Seq<nat> {
    Seq::new(parts.len(), |i: int| pair_size(parts[i]))
}

/// Whether `a` is smaller than `b`.
fn smaller(a: (usize, usize), b: (usize, usize)) -> (less: bool)
    ensures
        less == (pair_size(a) < pair_size(b)),
{
    let left: u128 = a.0 as u128 + a.1 as u128;
    let right: u128 = b.0 as u128 + b.1 as u128;
    left < right
}

/// The positions of `parts` in the order in which a report lists them: the
/// largest entry first. Entries of one size keep their order, or are
/// listed the other way round where `ties_reversed`.
pub fn rank(parts: &Vec<(usize, usize)>, ties_reversed: bool) -> (order: Vec<usize>)
    ensures
        ranks(pair_sizes(parts@), order@, ties_reversed),
{
    let ghost sizes = pair_sizes(parts@);
    let mut order: Vec<usize> = Vec::new();
    let mut k: usize = 0;
    while k < parts.len()
        invariant
            k <= parts@.len(),
            sizes == pair_sizes(parts@),
            order@.len() == k,
            order@.no_duplicates(),
            forall|i: int| 0 <= i < order@.len() ==> order@[i] < k,
            forall|i: int, j: int|
                0 <= i < j < order@.len() ==> listed_before(
                    sizes,
                    order@[i] as int,
                    order@[j] as int,
                    ties_reversed,
                ),
        decreases parts@.len() - k,
    {
        let mut at: usize = 0;
        loop
            invariant
                at <= order@.len() == k < parts@.len(),
                sizes == pair_sizes(parts@),
                forall|i: int| 0 <= i < order@.len() ==> order@[i] < k,
                forall|i: int|
                    0 <= i < at ==> if ties_reversed {
                        sizes[order@[i] as int] > sizes[k as int]
                    } else {
                        sizes[order@[i] as int] >= sizes[k as int]
                    },
            ensures
                at <= order@.len(),
                forall|i: int|
                    0 <= i < at ==> if ties_reversed {
                        sizes[order@[i] as int] > sizes[k as int]
                    } else {
                        sizes[order@[i] as int] >= sizes[k as int]
                    },
                at < order@.len() ==> if ties_reversed {
                    sizes[order@[at as int] as int] <= sizes[k as int]
                } else {
                    sizes[order@[at as int] as int] < sizes[k as int]
                },
            decreases order@.len() - at,
        {
            if at >= order.len() {
                break;
            }
            let there = parts[order[at]];
            let here = parts[k];
            let stop = if ties_reversed {
                !smaller(here, there)
            } else {
                smaller(there, here)
            };
            if stop {
                break;
            }
            at += 1;
        }
        let ghost before = order@;
        order.insert(at, k);
        proof {
            assert(order@ =~= before.insert(at as int, k));
            assert forall|i: int, j: int| 0 <= i < order@.len() && 0 <= j < order@.len() && i
                != j implies order@[i] != order@[j] by {
                let a = if i < at {
                    i
                } else {
                    i - 1
                };
                let b = if j < at {
                    j
                } else {
                    j - 1
                };
                if i != at && j != at {
                    assert(before[a] != before[b]);
                } else if i == at {
                    assert(before[b] < k);
                } else {
                    assert(before[a] < k);
                }
            }
            assert forall|i: int, j: int| 0 <= i < j < order@.len() implies listed_before(
                sizes,
                order@[i] as int,
                order@[j] as int,
                ties_reversed,
            ) by {
                if j < at {
                    assert(listed_before(sizes, before[i] as int, before[j] as int, ties_reversed));
                } else if j == at {
                    assert(before[i] < k);
                } else if i < at {
                    assert(listed_before(
                        sizes,
                        before[i] as int,
                        before[j - 1] as int,
                        ties_reversed,
                    ));
                } else if i == at {
                    assert(before[j - 1] < k);
                    if j - 1 > at {
                        assert(listed_before(
                            sizes,
                            before[at as int] as int,
                            before[j - 1] as int,
                            ties_reversed,
                        ));
                    }
                } else {
                    assert(listed_before(
                        sizes,
                        before[i - 1] as int,
                        before[j - 1] as int,
                        ties_reversed,
                    ));
                }
            }
        }
        k += 1;
    }
    order
}

/// The size that a category is listed by: its raw size.
pub open spec fn category_sizes(categories: Seq<CategoryStat>) -> Seq<nat> {
    Seq::new(categories.len(), |i: int| categories[i].totals().raw_size)
}

/// The size that an item is listed by: the lengths of its keys and values.
pub open spec fn item_sizes(items: Seq<ItemStat>) -> Seq<nat> {
    Seq::new(items.len(), |i: int| (items[i].key_len + items[i].value_len) as nat)
}

/// The positions of the categories of `stats` in the order in which the
/// report lists them: the largest first, categories of one size in the
/// order of their labels.
pub fn ranked_categories(stats: &StatsMap) -> (order: Vec<usize>)
    ensures
        ranks(category_sizes(stats.entries()), order@, false),
{
    let categories = stats.categories();
    let mut parts: Vec<(usize, usize)> = Vec::new();
    let mut i: usize = 0;
    while i < categories.len()
        invariant
            i <= categories@.len(),
            parts@.len() == i,
            forall|j: int|
                0 <= j < i ==> pair_size(parts@[j]) == categories@[j].totals().raw_size,
        decreases categories@.len() - i,
    {
        parts.push((categories[i].raw_size(), 0));
        i += 1;
    }
    assert(pair_sizes(parts@) =~= category_sizes(stats.entries()));
    rank(&parts, false)
}

/// The positions of the items of `category` in the order in which the
/// report lists them: the largest first, items of one size in the reverse
/// of the order of their labels.
pub fn ranked_items(category: &CategoryStat) -> (order: Vec<usize>)
    ensures
        ranks(item_sizes(category.entries()), order@, true),
{
    let items = category.items();
    let mut parts: Vec<(usize, usize)> = Vec::new();
    let mut i: usize = 0;
    while i < items.len()
        invariant
            i <= items@.len(),
            parts@.len() == i,
            forall|j: int|
                0 <= j < i ==> pair_size(parts@[j]) == (items@[j].key_len + items@[j].value_len),
        decreases items@.len() - i,
    {
        parts.push((items[i].key_len, items[i].value_len));
        i += 1;
    }
    assert(pair_sizes(parts@) =~= item_sizes(category.entries()));
    rank(&parts, true)
}

} // verus!
