//! Size statistics as they are kept while a scan runs: one entry per
//! category, one entry per item inside it, every counter a `usize`.
//!
//! What the counters mean is said by the model in [`crate::totals`]; this
//! module keeps them in vectors, in the order of the labels, finds entries
//! by bisection, and refuses an addition that would not fit rather than
//! wrapping around.

use crate::assoc::{
    assoc_map, lemma_assoc_absent, lemma_assoc_at, lemma_assoc_empty, lemma_assoc_insert,
    lemma_assoc_push, lemma_assoc_update,
};
use crate::label::{
    lemma_name_irreflexive, lemma_name_transitive, lemma_sorted_distinct, lemma_sorted_insert,
    lemma_sorted_unique, name_lt, sorted_names, Label, Name,
};
use crate::lex::Side;
use crate::totals::{
    fits, merge, merge_items, record, record_category, record_item, CategoryTotals, ItemMap,
    ItemTotals, Sample, Totals,
};
use vstd::prelude::*;

verus! {

/// A sum left the range of `usize`.
#[derive(Debug, Clone, Copy, PartialEq, Eq, Structural)]
pub struct Overflow;

/// Size statistics of one item of a category.
#[derive(Debug)]
pub struct ItemStat {
    pub name: Label,
    pub key_len: usize,
    pub compressed_key_len: usize,
    pub value_len: usize,
    pub compressed_value_len: usize,
    pub num_entries: usize,
}

impl ItemStat {
    /// The item's counters as sums of the model.
    pub open spec fn totals(&self) -> ItemTotals {
        ItemTotals {
            key_len: self.key_len as nat,
            compressed_key_len: self.compressed_key_len as nat,
            value_len: self.value_len as nat,
            compressed_value_len: self.compressed_value_len as nat,
            num_entries: self.num_entries as nat,
        }
    }
}

impl Clone for ItemStat {
    fn clone(&self) -> (copy: ItemStat)
        ensures
            copy.name@ == self.name@,
            copy.totals() == self.totals(),
    {
        ItemStat {
            name: self.name.clone(),
            key_len: self.key_len,
            compressed_key_len: self.compressed_key_len,
            value_len: self.value_len,
            compressed_value_len: self.compressed_value_len,
            num_entries: self.num_entries,
        }
    }
}

/// The labels of a run of items, in its order.
pub open spec fn item_names(items: Seq<ItemStat>) -> Seq<Name> {
    Seq::new(items.len(), |i: int| items[i].name@)
}

/// The sums of a run of items, in its order.
pub open spec fn item_values(items: Seq<ItemStat>) -> Seq<ItemTotals> {
    Seq::new(items.len(), |i: int| items[i].totals())
}

/// The items of a run by label; meant for runs in which no label repeats.
pub open spec fn item_map(items: Seq<ItemStat>) -> ItemMap {
    assoc_map(item_names(items), item_values(items))
}

/// The sum of three counters, if it fits.
fn add3(a: usize, b: usize, c: usize) -> (sum: Option<usize>)
    ensures
        match sum {
            Some(total) => total == a + b + c,
            None => a + b + c > usize::MAX,
        },
{
    match a.checked_add(b) {
        Some(ab) => ab.checked_add(c),
        None => None,
    }
}

/// What looking for a label among sorted labels gives: `Ok` with the
/// position of the label, or `Err` with the position at which it would have
/// to be put.
pub open spec fn located(names: Seq<Name>, name: Name, place: Result<usize, usize>) -> bool {
    match place {
        Ok(at) => at < names.len() && names[at as int] == name,
        Err(at) => {
            &&& at <= names.len()
            &&& forall|i: int| 0 <= i < at ==> name_lt(names[i], name)
            &&& forall|i: int| at <= i < names.len() ==> name_lt(name, names[i])
        },
    }
}

/// A label that was not found stands nowhere.
proof fn lemma_not_located(names: Seq<Name>, name: Name, at: usize)
    requires
        located(names, name, Err(at)),
    ensures
        forall|i: int| 0 <= i < names.len() ==> names[i] != name,
{
    lemma_name_irreflexive(name);
}

/// Where in `items` the item called `name` stands, or would have to stand.
fn find_item(items: &Vec<ItemStat>, name: &Label) -> (place: Result<usize, usize>)
    requires
        sorted_names(item_names(items@)),
    ensures
        located(item_names(items@), name@, place),
{
    let ghost names = item_names(items@);
    let mut lo: usize = 0;
    let mut hi: usize = items.len();
    while lo < hi
        invariant
            lo <= hi <= items@.len(),
            names == item_names(items@),
            sorted_names(names),
            forall|i: int| 0 <= i < lo ==> name_lt(names[i], name@),
            forall|i: int| hi <= i < names.len() ==> name_lt(name@, names[i]),
        decreases hi - lo,
    {
        let mid: usize = lo + (hi - lo) / 2;
        proof {
            assert(names[mid as int] == items@[mid as int].name@);
        }
        match items[mid].name.side(name) {
            Side::Before => {
                proof {
                    assert forall|i: int| 0 <= i < mid + 1 implies name_lt(names[i], name@) by {
                        if i < mid {
                            assert(name_lt(names[i], names[mid as int]));
                            lemma_name_transitive(names[i], names[mid as int], name@);
                        }
                    }
                }
                lo = mid + 1;
            },
            Side::Same => {
                return Ok(mid);
            },
            Side::After => {
                proof {
                    assert forall|i: int| mid <= i < names.len() implies name_lt(
                        name@,
                        names[i],
                    ) by {
                        if i > mid {
                            assert(name_lt(names[mid as int], names[i]));
                            lemma_name_transitive(name@, names[mid as int], names[i]);
                        }
                    }
                }
                hi = mid;
            },
        }
    }
    Err(lo)
}

/// Size statistics of one category: its own two sizes and its items, each
/// under a label of its own.
#[derive(Debug)]
pub struct CategoryStat {
    name: Label,
    raw_size: usize,
    compressed_size: usize,
    items: Vec<ItemStat>,
}

impl CategoryStat {
    /// The items stand in the order of their labels, so that no two carry
    /// the same label.
    pub closed spec fn wf(&self) -> bool {
        sorted_names(item_names(self.items@))
    }

    /// The category's label as a value of the model.
    pub closed spec fn label(&self) -> Name {
        self.name@
    }

    /// The items in the order of their labels.
    pub closed spec fn entries(&self) -> Seq<ItemStat> {
        self.items@
    }

    /// The category's sums, its items by label.
    pub closed spec fn totals(&self) -> CategoryTotals {
        CategoryTotals {
            raw_size: self.raw_size as nat,
            compressed_size: self.compressed_size as nat,
            items: item_map(self.items@),
        }
    }

    /// What a category holds can be held: every sum is within `usize`.
    pub proof fn lemma_totals_fit(&self)
        requires
            self.wf(),
        ensures
            self.totals().fits(),
    {
        let names = item_names(self.items@);
        let values = item_values(self.items@);
        assert forall|k: Name| self.totals().items.contains_key(k) implies #[trigger] self.totals().items[k].fits() by {
            let at = names.index_of(k);
            assert(0 <= at < names.len() && names[at] == k);
            assert(values[at] == self.items@[at].totals());
        }
    }

    /// The sums are read off the entries, which stand in the order of their
    /// labels.
    pub proof fn lemma_totals_of_entries(&self)
        ensures
            self.totals().items == item_map(self.entries()),
            self.wf() ==> sorted_names(item_names(self.entries())),
    {
    }

    /// A category that has seen no record.
    pub fn new(name: Label) -> (category: CategoryStat)
        ensures
            category.wf(),
            category.label() == name@,
            category.totals() == CategoryTotals::empty(),
            category.entries().len() == 0,
    {
        let category = CategoryStat { name, raw_size: 0, compressed_size: 0, items: Vec::new() };
        proof {
            lemma_assoc_empty::<Name, ItemTotals>();
            assert(item_names(category.items@) =~= Seq::<Name>::empty());
            assert(item_values(category.items@) =~= Seq::<ItemTotals>::empty());
        }
        category
    }

    /// Counts one record under `item`. Where a sum would leave `usize`,
    /// nothing is counted and the category stays as it was.
    pub fn record(
        &mut self,
        item: &Label,
        key_len: usize,
        value_len: usize,
        compressed_key_len: usize,
        compressed_value_len: usize,
    ) -> (done: Result<(), Overflow>)
        requires
            old(self).wf(),
        ensures
            final(self).wf(),
            final(self).label() == old(self).label(),
            ({
                let s = Sample {
                    category: old(self).label(),
                    item: item@,
                    key_len: key_len as nat,
                    value_len: value_len as nat,
                    compressed_key_len: compressed_key_len as nat,
                    compressed_value_len: compressed_value_len as nat,
                };
                &&& done is Ok <==> record_category(old(self).totals(), s).fits()
                &&& done is Ok ==> final(self).totals() == record_category(old(self).totals(), s)
                &&& done is Err ==> *final(self) == *old(self)
            }),
    {
        let ghost s = Sample {
            category: self.name@,
            item: item@,
            key_len: key_len as nat,
            value_len: value_len as nat,
            compressed_key_len: compressed_key_len as nat,
            compressed_value_len: compressed_value_len as nat,
        };
        let ghost names = item_names(self.items@);
        let ghost values = item_values(self.items@);
        let ghost before = self.totals();
        proof {
            self.lemma_totals_fit();
            lemma_sorted_distinct(names);
        }
        let raw: usize = match add3(self.raw_size, key_len, value_len) {
            Some(raw) => raw,
            None => {
                return Err(Overflow);
            },
        };
        let compressed: usize = match add3(
            self.compressed_size,
            compressed_key_len,
            compressed_value_len,
        ) {
            Some(compressed) => compressed,
            None => {
                return Err(Overflow);
            },
        };
        match find_item(&self.items, item) {
            Ok(at) => {
                proof {
                    lemma_assoc_at(names, values, at as int);
                    assert(names[at as int] == item@);
                    assert(values[at as int] == self.items@[at as int].totals());
                }
                let seen = &self.items[at];
                let sums = (
                    seen.key_len.checked_add(key_len),
                    seen.compressed_key_len.checked_add(compressed_key_len),
                    seen.value_len.checked_add(value_len),
                    seen.compressed_value_len.checked_add(compressed_value_len),
                    seen.num_entries.checked_add(1),
                );
                match sums {
                    (Some(k), Some(ck), Some(v), Some(cv), Some(n)) => {
                        let entry = &mut self.items[at];
                        entry.key_len = k;
                        entry.compressed_key_len = ck;
                        entry.value_len = v;
                        entry.compressed_value_len = cv;
                        entry.num_entries = n;
                        self.raw_size = raw;
                        self.compressed_size = compressed;
                        proof {
                            let after = self.items@[at as int].totals();
                            assert(item_names(self.items@) =~= names);
                            assert(item_values(self.items@) =~= values.update(at as int, after));
                            lemma_assoc_update(names, values, at as int, after);
                            assert(self.totals().items =~= record_item(before.items, s));
                            assert(self.totals() == record_category(before, s));
                            self.lemma_totals_fit();
                        }
                        Ok(())
                    },
                    _ => {
                        proof {
                            let grown = record_category(before, s).items[item@];
                            assert(record_category(before, s).items.contains_key(item@));
                            assert(!grown.fits());
                        }
                        Err(Overflow)
                    },
                }
            },
            Err(at) => {
                proof {
                    lemma_not_located(names, item@, at);
                    lemma_assoc_absent(names, values, item@);
                    lemma_sorted_insert(names, at as int, item@);
                }
                let entry = ItemStat {
                    name: item.clone(),
                    key_len,
                    compressed_key_len,
                    value_len,
                    compressed_value_len,
                    num_entries: 1,
                };
                let ghost added = entry.totals();
                self.items.insert(at, entry);
                self.raw_size = raw;
                self.compressed_size = compressed;
                proof {
                    assert(item_names(self.items@) =~= names.insert(at as int, item@));
                    assert(item_values(self.items@) =~= values.insert(at as int, added));
                    lemma_assoc_insert(names, values, at as int, item@, added);
                    assert(added == ItemTotals::zero().plus(s.item_totals()));
                    assert(self.totals().items =~= record_item(before.items, s));
                    assert(self.totals() == record_category(before, s));
                    self.lemma_totals_fit();
                }
                Ok(())
            },
        }
    }
}

impl Clone for CategoryStat {
    fn clone(&self) -> (copy: CategoryStat)
        ensures
            copy.label() == self.label(),
            copy.totals() == self.totals(),
            self.wf() ==> copy.wf(),
    {
        let mut items: Vec<ItemStat> = Vec::new();
        let mut i: usize = 0;
        while i < self.items.len()
            invariant
                i <= self.items@.len(),
                items@.len() == i,
                forall|j: int|
                    0 <= j < i ==> items@[j].name@ == self.items@[j].name@ && items@[j].totals()
                        == self.items@[j].totals(),
            decreases self.items@.len() - i,
        {
            items.push(self.items[i].clone());
            i += 1;
        }
        proof {
            assert(item_names(items@) =~= item_names(self.items@));
            assert(item_values(items@) =~= item_values(self.items@));
        }
        CategoryStat {
            name: self.name.clone(),
            raw_size: self.raw_size,
            compressed_size: self.compressed_size,
            items,
        }
    }
}

/// Merging with one more entry on the right is merging and then setting
/// that entry: to the sum where the left side has the key, to the entry
/// itself where it has not.
proof fn lemma_merge_items_step(left: ItemMap, right: ItemMap, key: Name, value: ItemTotals)
    requires
        !right.contains_key(key),
    ensures
        merge_items(left, right.insert(key, value)) == merge_items(left, right).insert(
            key,
            if left.contains_key(key) {
                left[key].plus(value)
            } else {
                value
            },
        ),
{
    assert(merge_items(left, right.insert(key, value)) =~= merge_items(left, right).insert(
        key,
        if left.contains_key(key) {
            left[key].plus(value)
        } else {
            value
        },
    ));
}

impl CategoryStat {
    /// Adds the sums of `other` to this category, item by item. Where a sum
    /// would leave `usize` the merge stops half way, and what the category
    /// then holds is no longer meaningful.
    fn absorb(&mut self, other: &CategoryStat) -> (done: Result<(), Overflow>)
        requires
            old(self).wf(),
            other.wf(),
        ensures
            final(self).wf(),
            final(self).label() == old(self).label(),
            done is Ok <==> old(self).totals().plus(other.totals()).fits(),
            done is Ok ==> final(self).totals() == old(self).totals().plus(other.totals()),
    {
        let ghost before = self.totals();
        let ghost theirs = other.totals();
        let ghost their_names = item_names(other.items@);
        let ghost their_values = item_values(other.items@);
        let raw: usize = match self.raw_size.checked_add(other.raw_size) {
            Some(raw) => raw,
            None => {
                return Err(Overflow);
            },
        };
        let compressed: usize = match self.compressed_size.checked_add(other.compressed_size) {
            Some(compressed) => compressed,
            None => {
                return Err(Overflow);
            },
        };
        proof {
            lemma_assoc_empty::<Name, ItemTotals>();
            assert(their_names.take(0) =~= Seq::<Name>::empty());
            assert(their_values.take(0) =~= Seq::<ItemTotals>::empty());
            assert(merge_items(before.items, Map::empty()) =~= before.items);
        }
        let mut j: usize = 0;
        while j < other.items.len()
            invariant
                j <= other.items@.len(),
                self.wf(),
                other.wf(),
                self.name == old(self).name,
                self.raw_size == old(self).raw_size,
                self.compressed_size == old(self).compressed_size,
                before == old(self).totals(),
                theirs == other.totals(),
                their_names == item_names(other.items@),
                their_values == item_values(other.items@),
                item_map(self.items@) == merge_items(
                    before.items,
                    assoc_map(their_names.take(j as int), their_values.take(j as int)),
                ),
            decreases other.items@.len() - j,
        {
            let theirs_j = &other.items[j];
            let ghost key = theirs_j.name@;
            let ghost value = theirs_j.totals();
            let ghost seen_names = their_names.take(j as int);
            let ghost seen_values = their_values.take(j as int);
            let ghost names = item_names(self.items@);
            let ghost values = item_values(self.items@);
            proof {
                lemma_sorted_distinct(their_names);
                lemma_sorted_distinct(names);
                assert(their_names[j as int] == key);
                assert(their_values[j as int] == value);
                assert forall|i: int| 0 <= i < seen_names.len() implies seen_names[i] != key by {
                    assert(their_names[i] != their_names[j as int]);
                }
                lemma_assoc_absent(seen_names, seen_values, key);
                assert(seen_names.no_duplicates());
                lemma_assoc_push(seen_names, seen_values, key, value);
                assert(their_names.take(j + 1) =~= seen_names.push(key));
                assert(their_values.take(j + 1) =~= seen_values.push(value));
                lemma_merge_items_step(
                    before.items,
                    assoc_map(seen_names, seen_values),
                    key,
                    value,
                );
                lemma_assoc_at(their_names, their_values, j as int);
            }
            match find_item(&self.items, &theirs_j.name) {
                Ok(at) => {
                    proof {
                        lemma_assoc_at(names, values, at as int);
                        assert(names[at as int] == key);
                        assert(values[at as int] == self.items@[at as int].totals());
                    }
                    let ours = &self.items[at];
                    let sums = (
                        ours.key_len.checked_add(theirs_j.key_len),
                        ours.compressed_key_len.checked_add(theirs_j.compressed_key_len),
                        ours.value_len.checked_add(theirs_j.value_len),
                        ours.compressed_value_len.checked_add(theirs_j.compressed_value_len),
                        ours.num_entries.checked_add(theirs_j.num_entries),
                    );
                    match sums {
                        (Some(k), Some(ck), Some(v), Some(cv), Some(n)) => {
                            let entry = &mut self.items[at];
                            entry.key_len = k;
                            entry.compressed_key_len = ck;
                            entry.value_len = v;
                            entry.compressed_value_len = cv;
                            entry.num_entries = n;
                            proof {
                                let after = self.items@[at as int].totals();
                                assert(item_names(self.items@) =~= names);
                                assert(item_values(self.items@) =~= values.update(
                                    at as int,
                                    after,
                                ));
                                lemma_assoc_update(names, values, at as int, after);
                            }
                        },
                        _ => {
                            proof {
                                let merged = before.plus(theirs);
                                assert(merged.items.contains_key(key));
                                assert(merged.items[key] == before.items[key].plus(value));
                                assert(!merged.items[key].fits());
                            }
                            return Err(Overflow);
                        },
                    }
                },
                Err(at) => {
                    proof {
                        lemma_not_located(names, key, at);
                        lemma_assoc_absent(names, values, key);
                        lemma_sorted_insert(names, at as int, key);
                    }
                    let entry = theirs_j.clone();
                    self.items.insert(at, entry);
                    proof {
                        assert(item_names(self.items@) =~= names.insert(at as int, key));
                        assert(item_values(self.items@) =~= values.insert(at as int, value));
                        lemma_assoc_insert(names, values, at as int, key, value);
                    }
                },
            }
            j += 1;
        }
        self.raw_size = raw;
        self.compressed_size = compressed;
        proof {
            assert(their_names.take(j as int) =~= their_names);
            assert(their_values.take(j as int) =~= their_values);
            assert(self.totals() == before.plus(theirs));
            self.lemma_totals_fit();
        }
        Ok(())
    }
}

/// The labels of a run of categories, in its order.
pub open spec fn category_names(categories: Seq<CategoryStat>) -> Seq<Name> {
    Seq::new(categories.len(), |i: int| categories[i].label())
}

/// The sums of a run of categories, in its order.
pub open spec fn category_values(categories: Seq<CategoryStat>) -> Seq<CategoryTotals> {
    Seq::new(categories.len(), |i: int| categories[i].totals())
}

/// The categories of a run by label; meant for runs in which no label
/// repeats.
pub open spec fn category_map(categories: Seq<CategoryStat>) -> Totals {
    assoc_map(category_names(categories), category_values(categories))
}

/// Where in `categories` the category called `name` stands, or would have
/// to stand.
fn find_category(categories: &Vec<CategoryStat>, name: &Label) -> (place: Result<usize, usize>)
    requires
        sorted_names(category_names(categories@)),
    ensures
        located(category_names(categories@), name@, place),
{
    let ghost names = category_names(categories@);
    let mut lo: usize = 0;
    let mut hi: usize = categories.len();
    while lo < hi
        invariant
            lo <= hi <= categories@.len(),
            names == category_names(categories@),
            sorted_names(names),
            forall|i: int| 0 <= i < lo ==> name_lt(names[i], name@),
            forall|i: int| hi <= i < names.len() ==> name_lt(name@, names[i]),
        decreases hi - lo,
    {
        let mid: usize = lo + (hi - lo) / 2;
        proof {
            assert(names[mid as int] == categories@[mid as int].label());
        }
        match categories[mid].name.side(name) {
            Side::Before => {
                proof {
                    assert forall|i: int| 0 <= i < mid + 1 implies name_lt(names[i], name@) by {
                        if i < mid {
                            assert(name_lt(names[i], names[mid as int]));
                            lemma_name_transitive(names[i], names[mid as int], name@);
                        }
                    }
                }
                lo = mid + 1;
            },
            Side::Same => {
                return Ok(mid);
            },
            Side::After => {
                proof {
                    assert forall|i: int| mid <= i < names.len() implies name_lt(
                        name@,
                        names[i],
                    ) by {
                        if i > mid {
                            assert(name_lt(names[mid as int], names[i]));
                            lemma_name_transitive(name@, names[mid as int], names[i]);
                        }
                    }
                }
                hi = mid;
            },
        }
    }
    Err(lo)
}

/// The statistics of a scan, or of one worker's share of it.
#[derive(Debug)]
pub struct StatsMap {
    categories: Vec<CategoryStat>,
}

impl View for StatsMap {
    type V = Totals;

    closed spec fn view(&self) -> Totals {
        category_map(self.categories@)
    }
}

impl StatsMap {
    /// The categories stand in the order of their labels, so that no two
    /// carry the same label, and every category is well formed.
    pub closed spec fn wf(&self) -> bool {
        &&& sorted_names(category_names(self.categories@))
        &&& forall|i: int| 0 <= i < self.categories@.len() ==> self.categories@[i].wf()
    }

    /// The categories in the order of their labels.
    pub closed spec fn entries(&self) -> Seq<CategoryStat> {
        self.categories@
    }

    /// The view is read off the entries, which stand in the order of their
    /// labels.
    pub proof fn lemma_view_of_entries(&self)
        ensures
            self@ == category_map(self.entries()),
            self.wf() ==> sorted_names(category_names(self.entries())),
            self.wf() ==> forall|i: int| 0 <= i < self.entries().len() ==> self.entries()[i].wf(),
    {
    }

    /// What is held can be held: every sum is within `usize`.
    pub proof fn lemma_view_fits(&self)
        requires
            self.wf(),
        ensures
            fits(self@),
    {
        let names = category_names(self.categories@);
        assert forall|k: Name| self@.contains_key(k) implies #[trigger] self@[k].fits() by {
            let at = names.index_of(k);
            assert(0 <= at < names.len() && names[at] == k);
            self.categories@[at].lemma_totals_fit();
        }
    }

    /// Statistics of a scan that has seen nothing.
    pub fn new() -> (stats: StatsMap)
        ensures
            stats.wf(),
            stats@ == Map::<Name, CategoryTotals>::empty(),
    {
        let stats = StatsMap { categories: Vec::new() };
        proof {
            lemma_assoc_empty::<Name, CategoryTotals>();
            assert(category_names(stats.categories@) =~= Seq::<Name>::empty());
            assert(category_values(stats.categories@) =~= Seq::<CategoryTotals>::empty());
        }
        stats
    }

    /// Counts one record under `category` and `item`: the category's sizes
    /// grow by the record's lengths, the item's sums likewise, and the item
    /// counts one entry more. A category or an item that is met for the
    /// first time is made. Where a sum would leave `usize`, nothing is
    /// counted and the statistics stay as they were.
    pub fn record(
        &mut self,
        category: &Label,
        item: &Label,
        key_len: usize,
        value_len: usize,
        compressed_key_len: usize,
        compressed_value_len: usize,
    ) -> (done: Result<(), Overflow>)
        requires
            old(self).wf(),
        ensures
            final(self).wf(),
            ({
                let s = Sample {
                    category: category@,
                    item: item@,
                    key_len: key_len as nat,
                    value_len: value_len as nat,
                    compressed_key_len: compressed_key_len as nat,
                    compressed_value_len: compressed_value_len as nat,
                };
                &&& done is Ok <==> fits(record(old(self)@, s))
                &&& done is Ok ==> final(self)@ == record(old(self)@, s)
                &&& done is Err ==> final(self)@ == old(self)@
            }),
    {
        let ghost s = Sample {
            category: category@,
            item: item@,
            key_len: key_len as nat,
            value_len: value_len as nat,
            compressed_key_len: compressed_key_len as nat,
            compressed_value_len: compressed_value_len as nat,
        };
        let ghost names = category_names(self.categories@);
        let ghost values = category_values(self.categories@);
        let ghost before = self@;
        proof {
            self.lemma_view_fits();
            lemma_sorted_distinct(names);
        }
        match find_category(&self.categories, category) {
            Ok(at) => {
                proof {
                    lemma_assoc_at(names, values, at as int);
                }
                let done = self.categories[at].record(
                    item,
                    key_len,
                    value_len,
                    compressed_key_len,
                    compressed_value_len,
                );
                proof {
                    let after = self.categories@[at as int].totals();
                    assert(category_names(self.categories@) =~= names);
                    assert(category_values(self.categories@) =~= values.update(at as int, after));
                    lemma_assoc_update(names, values, at as int, after);
                    if done is Ok {
                        assert(self@ =~= record(before, s));
                        self.lemma_view_fits();
                    } else {
                        assert(self@ =~= before);
                        assert(record(before, s).contains_key(category@));
                        assert(!record(before, s)[category@].fits());
                    }
                }
                done
            },
            Err(at) => {
                proof {
                    lemma_not_located(names, category@, at);
                    lemma_assoc_absent(names, values, category@);
                    lemma_sorted_insert(names, at as int, category@);
                }
                let mut fresh = CategoryStat::new(category.clone());
                let done = fresh.record(
                    item,
                    key_len,
                    value_len,
                    compressed_key_len,
                    compressed_value_len,
                );
                match done {
                    Ok(()) => {
                        let ghost added = fresh.totals();
                        self.categories.insert(at, fresh);
                        proof {
                            assert(category_names(self.categories@) =~= names.insert(
                                at as int,
                                category@,
                            ));
                            assert(category_values(self.categories@) =~= values.insert(
                                at as int,
                                added,
                            ));
                            lemma_assoc_insert(names, values, at as int, category@, added);
                            assert(self@ =~= record(before, s));
                            self.lemma_view_fits();
                        }
                    },
                    Err(_) => {
                        proof {
                            assert(record(before, s).contains_key(category@));
                            assert(!record(before, s)[category@].fits());
                        }
                    },
                }
                done
            },
        }
    }
}

/// Merging with one more category on the right is merging and then setting
/// that category: to the sum where the left side has it, to the category
/// itself where it has not.
proof fn lemma_merge_step(left: Totals, right: Totals, key: Name, value: CategoryTotals)
    requires
        !right.contains_key(key),
    ensures
        merge(left, right.insert(key, value)) == merge(left, right).insert(
            key,
            if left.contains_key(key) {
                left[key].plus(value)
            } else {
                value
            },
        ),
{
    assert(merge(left, right.insert(key, value)) =~= merge(left, right).insert(
        key,
        if left.contains_key(key) {
            left[key].plus(value)
        } else {
            value
        },
    ));
}

impl StatsMap {
    /// These statistics and `other` as one: a category or an item that both
    /// hold has every counter added, one that only one of them holds is
    /// taken as it is. Fails, and gives nothing, where a sum would leave
    /// `usize`.
    pub fn merge(self, other: &StatsMap) -> (merged: Result<StatsMap, Overflow>)
        requires
            self.wf(),
            other.wf(),
        ensures
            merged is Ok <==> fits(merge(self@, other@)),
            merged matches Ok(all) ==> all.wf() && all@ == merge(self@, other@),
    {
        let ghost ours = self@;
        let ghost their_names = category_names(other.categories@);
        let ghost their_values = category_values(other.categories@);
        let mut all = self;
        proof {
            lemma_assoc_empty::<Name, CategoryTotals>();
            assert(their_names.take(0) =~= Seq::<Name>::empty());
            assert(their_values.take(0) =~= Seq::<CategoryTotals>::empty());
            assert(merge(ours, Map::empty()) =~= ours);
        }
        let mut j: usize = 0;
        while j < other.categories.len()
            invariant
                j <= other.categories@.len(),
                all.wf(),
                other.wf(),
                ours == self@,
                their_names == category_names(other.categories@),
                their_values == category_values(other.categories@),
                all@ == merge(
                    ours,
                    assoc_map(their_names.take(j as int), their_values.take(j as int)),
                ),
            decreases other.categories@.len() - j,
        {
            let theirs_j = &other.categories[j];
            let ghost key = theirs_j.label();
            let ghost value = theirs_j.totals();
            let ghost seen_names = their_names.take(j as int);
            let ghost seen_values = their_values.take(j as int);
            let ghost names = category_names(all.categories@);
            let ghost values = category_values(all.categories@);
            proof {
                lemma_sorted_distinct(their_names);
                lemma_sorted_distinct(names);
                assert(their_names[j as int] == key);
                assert(their_values[j as int] == value);
                assert forall|i: int| 0 <= i < seen_names.len() implies seen_names[i] != key by {
                    assert(their_names[i] != their_names[j as int]);
                }
                lemma_assoc_absent(seen_names, seen_values, key);
                assert(seen_names.no_duplicates());
                lemma_assoc_push(seen_names, seen_values, key, value);
                assert(their_names.take(j + 1) =~= seen_names.push(key));
                assert(their_values.take(j + 1) =~= seen_values.push(value));
                lemma_merge_step(ours, assoc_map(seen_names, seen_values), key, value);
                lemma_assoc_at(their_names, their_values, j as int);
            }
            match find_category(&all.categories, &theirs_j.name) {
                Ok(at) => {
                    proof {
                        lemma_assoc_at(names, values, at as int);
                        assert(names[at as int] == key);
                        assert(values[at as int] == all.categories@[at as int].totals());
                    }
                    let done = all.categories[at].absorb(theirs_j);
                    match done {
                        Ok(()) => {
                            proof {
                                let after = all.categories@[at as int].totals();
                                assert(category_names(all.categories@) =~= names);
                                assert(category_values(all.categories@) =~= values.update(
                                    at as int,
                                    after,
                                ));
                                lemma_assoc_update(names, values, at as int, after);
                            }
                        },
                        Err(overflow) => {
                            proof {
                                let whole = merge(ours, other@);
                                assert(whole.contains_key(key));
                                assert(whole[key] == ours[key].plus(value));
                                assert(!whole[key].fits());
                            }
                            return Err(overflow);
                        },
                    }
                },
                Err(at) => {
                    proof {
                        lemma_not_located(names, key, at);
                        lemma_assoc_absent(names, values, key);
                        lemma_sorted_insert(names, at as int, key);
                    }
                    let entry = theirs_j.clone();
                    all.categories.insert(at, entry);
                    proof {
                        assert(category_names(all.categories@) =~= names.insert(at as int, key));
                        assert(category_values(all.categories@) =~= values.insert(
                            at as int,
                            value,
                        ));
                        lemma_assoc_insert(names, values, at as int, key, value);
                    }
                },
            }
            j += 1;
        }
        proof {
            assert(their_names.take(j as int) =~= their_names);
            assert(their_values.take(j as int) =~= their_values);
            all.lemma_view_fits();
        }
        Ok(all)
    }
}

impl CategoryStat {
    /// The category's label.
    pub fn name(&self) -> (name: &Label)
        ensures
            name@ == self.label(),
    {
        &self.name
    }

    /// The bytes of all keys and values of the category.
    pub fn raw_size(&self) -> (size: usize)
        ensures
            size == self.totals().raw_size,
    {
        self.raw_size
    }

    /// The bytes of all keys and values of the category, each compressed by
    /// itself.
    pub fn compressed_size(&self) -> (size: usize)
        ensures
            size == self.totals().compressed_size,
    {
        self.compressed_size
    }

    /// The items of the category, in the order of their labels.
    pub fn items(&self) -> (items: &Vec<ItemStat>)
        ensures
            items@ == self.entries(),
    {
        &self.items
    }

    /// The item called `name`, if the category has seen one.
    pub fn item(&self, name: &Label) -> (item: Option<&ItemStat>)
        requires
            self.wf(),
        ensures
            match item {
                Some(found) => self.totals().items.contains_key(name@) && found.name@ == name@
                    && found.totals() == self.totals().items[name@],
                None => !self.totals().items.contains_key(name@),
            },
    {
        let ghost names = item_names(self.items@);
        let ghost values = item_values(self.items@);
        proof {
            lemma_sorted_distinct(names);
        }
        match find_item(&self.items, name) {
            Ok(at) => {
                proof {
                    lemma_assoc_at(names, values, at as int);
                }
                Some(&self.items[at])
            },
            Err(at) => {
                proof {
                    lemma_not_located(names, name@, at);
                    lemma_assoc_absent(names, values, name@);
                }
                None
            },
        }
    }
}

impl StatsMap {
    /// The categories, in the order of their labels.
    pub fn categories(&self) -> (categories: &Vec<CategoryStat>)
        ensures
            categories@ == self.entries(),
    {
        &self.categories
    }

    /// The category called `name`, if a record of it was seen.
    pub fn category(&self, name: &Label) -> (category: Option<&CategoryStat>)
        requires
            self.wf(),
        ensures
            match category {
                Some(found) => self@.contains_key(name@) && found.label() == name@ && found.wf()
                    && found.totals() == self@[name@],
                None => !self@.contains_key(name@),
            },
    {
        let ghost names = category_names(self.categories@);
        let ghost values = category_values(self.categories@);
        proof {
            lemma_sorted_distinct(names);
        }
        match find_category(&self.categories, name) {
            Ok(at) => {
                proof {
                    lemma_assoc_at(names, values, at as int);
                }
                Some(&self.categories[at])
            },
            Err(at) => {
                proof {
                    lemma_not_located(names, name@, at);
                    lemma_assoc_absent(names, values, name@);
                }
                None
            },
        }
    }
}

/// The keys of an association list are the keys of its map.
proof fn lemma_keys_of_map<V>(keys: Seq<Name>, values: Seq<V>, key: Name)
    ensures
        keys.contains(key) <==> assoc_map(keys, values).contains_key(key),
{
}

impl CategoryStat {
    /// Categories that hold the same keep it the same way: the same items
    /// in the same order.
    pub proof fn lemma_same_totals_same_entries(&self, other: &CategoryStat)
        requires
            self.wf(),
            other.wf(),
            self.totals() == other.totals(),
        ensures
            item_names(self.entries()) == item_names(other.entries()),
            item_values(self.entries()) == item_values(other.entries()),
    {
        let names = item_names(self.items@);
        let values = item_values(self.items@);
        let their_names = item_names(other.items@);
        let their_values = item_values(other.items@);
        assert forall|name: Name| names.contains(name) <==> their_names.contains(name) by {
            lemma_keys_of_map(names, values, name);
            lemma_keys_of_map(their_names, their_values, name);
        }
        lemma_sorted_unique(names, their_names);
        lemma_sorted_distinct(names);
        assert forall|i: int| 0 <= i < values.len() implies values[i] == their_values[i] by {
            lemma_assoc_at(names, values, i);
            lemma_assoc_at(their_names, their_values, i);
        }
        assert(values =~= their_values);
    }
}

impl StatsMap {
    /// Statistics that hold the same keep it the same way: the same
    /// categories in the same order, each with the same sums. So the order
    /// of the entries says nothing of how the statistics came about.
    pub proof fn lemma_same_view_same_entries(&self, other: &StatsMap)
        requires
            self.wf(),
            other.wf(),
            self@ == other@,
        ensures
            category_names(self.entries()) == category_names(other.entries()),
            category_values(self.entries()) == category_values(other.entries()),
    {
        let names = category_names(self.categories@);
        let values = category_values(self.categories@);
        let their_names = category_names(other.categories@);
        let their_values = category_values(other.categories@);
        assert forall|name: Name| names.contains(name) <==> their_names.contains(name) by {
            lemma_keys_of_map(names, values, name);
            lemma_keys_of_map(their_names, their_values, name);
        }
        lemma_sorted_unique(names, their_names);
        lemma_sorted_distinct(names);
        assert forall|i: int| 0 <= i < values.len() implies values[i] == their_values[i] by {
            lemma_assoc_at(names, values, i);
            lemma_assoc_at(their_names, their_values, i);
        }
        assert(values =~= their_values);
    }
}

} // verus!
