//! The model of aggregated statistics: unbounded sums kept per category and
//! per item, how one record adds to them, how two sets of sums merge, and the
//! laws that make the merged result independent of who counted what.

use crate::label::Name;
use vstd::prelude::*;

verus! {

/// The sums kept for one item of a category.
#[verifier::ext_equal]
pub struct ItemTotals {
    pub key_len: nat,
    pub compressed_key_len: nat,
    pub value_len: nat,
    pub compressed_value_len: nat,
    pub num_entries: nat,
}

impl ItemTotals {
    /// The sums before any record was seen.
    pub open spec fn zero() -> ItemTotals {
        ItemTotals {
            key_len: 0,
            compressed_key_len: 0,
            value_len: 0,
            compressed_value_len: 0,
            num_entries: 0,
        }
    }

    /// Field by field sum.
    pub open spec fn plus(self, other: ItemTotals) -> ItemTotals {
        ItemTotals {
            key_len: self.key_len + other.key_len,
            compressed_key_len: self.compressed_key_len + other.compressed_key_len,
            value_len: self.value_len + other.value_len,
            compressed_value_len: self.compressed_value_len + other.compressed_value_len,
            num_entries: self.num_entries + other.num_entries,
        }
    }

    /// Every sum can be held in a `usize`.
    pub open spec fn fits(self) -> bool {
        &&& self.key_len <= usize::MAX
        &&& self.compressed_key_len <= usize::MAX
        &&& self.value_len <= usize::MAX
        &&& self.compressed_value_len <= usize::MAX
        &&& self.num_entries <= usize::MAX
    }
}

/// The items of one category, by name.
pub type ItemMap = Map<Name, ItemTotals>;

/// Two item maps as one: an item of both has its sums added, an item of one
/// is taken as it is.
pub open spec fn merge_items(a: ItemMap, b: ItemMap) -> ItemMap {
    Map::new(
        |k: Name| a.contains_key(k) || b.contains_key(k),
        |k: Name|
            if a.contains_key(k) && b.contains_key(k) {
                a[k].plus(b[k])
            } else if a.contains_key(k) {
                a[k]
            } else {
                b[k]
            },
    )
}

/// The sums kept for one category, and its items.
#[verifier::ext_equal]
pub struct CategoryTotals {
    pub raw_size: nat,
    pub compressed_size: nat,
    pub items: ItemMap,
}

impl CategoryTotals {
    /// A category before any record was seen.
    pub open spec fn empty() -> CategoryTotals {
        CategoryTotals { raw_size: 0, compressed_size: 0, items: Map::empty() }
    }

    /// The sizes added, the items merged.
    pub open spec fn plus(self, other: CategoryTotals) -> CategoryTotals {
        CategoryTotals {
            raw_size: self.raw_size + other.raw_size,
            compressed_size: self.compressed_size + other.compressed_size,
            items: merge_items(self.items, other.items),
        }
    }

    /// Every sum of the category and of its items can be held in a `usize`.
    pub open spec fn fits(self) -> bool {
        &&& self.raw_size <= usize::MAX
        &&& self.compressed_size <= usize::MAX
        &&& forall|i: Name| self.items.contains_key(i) ==> #[trigger] self.items[i].fits()
    }
}

/// Statistics of a whole scan, or of one worker's share of it: the
/// categories by name.
pub type Totals = Map<Name, CategoryTotals>;

/// Two sets of statistics as one: a category of both has its sizes added and
/// its items merged, a category of one is taken as it is.
pub open spec fn merge(a: Totals, b: Totals) -> Totals {
    Map::new(
        |k: Name| a.contains_key(k) || b.contains_key(k),
        |k: Name|
            if a.contains_key(k) && b.contains_key(k) {
                a[k].plus(b[k])
            } else if a.contains_key(k) {
                a[k]
            } else {
                b[k]
            },
    )
}

/// Every sum in `t` can be held in a `usize`.
pub open spec fn fits(t: Totals) -> bool {
    forall|c: Name| t.contains_key(c) ==> #[trigger] t[c].fits()
}

/// What one record adds: the buckets it was classified into and its four
/// lengths.
pub struct Sample {
    pub category: Name,
    pub item: Name,
    pub key_len: nat,
    pub value_len: nat,
    pub compressed_key_len: nat,
    pub compressed_value_len: nat,
}

impl Sample {
    /// The record as the sums of an item seen once.
    pub open spec fn item_totals(self) -> ItemTotals {
        ItemTotals {
            key_len: self.key_len,
            compressed_key_len: self.compressed_key_len,
            value_len: self.value_len,
            compressed_value_len: self.compressed_value_len,
            num_entries: 1,
        }
    }

    /// The record as a category that holds nothing else.
    pub open spec fn category_totals(self) -> CategoryTotals {
        CategoryTotals {
            raw_size: self.key_len + self.value_len,
            compressed_size: self.compressed_key_len + self.compressed_value_len,
            items: Map::<Name, ItemTotals>::empty().insert(self.item, self.item_totals()),
        }
    }
}

/// The statistics of a scan that saw `s` and nothing else.
pub open spec fn single(s: Sample) -> Totals {
    Map::<Name, CategoryTotals>::empty().insert(s.category, s.category_totals())
}

/// The items of a category after one more record: the record's item, made
/// first if it is new, has the lengths added and counts one entry more.
pub open spec fn record_item(items: ItemMap, s: Sample) -> ItemMap {
    let before = if items.contains_key(s.item) {
        items[s.item]
    } else {
        ItemTotals::zero()
    };
    items.insert(s.item, before.plus(s.item_totals()))
}

/// A category after one more record: the sizes grow by the record's lengths
/// and the record is counted under its item.
pub open spec fn record_category(c: CategoryTotals, s: Sample) -> CategoryTotals {
    CategoryTotals {
        raw_size: c.raw_size + s.key_len + s.value_len,
        compressed_size: c.compressed_size + s.compressed_key_len + s.compressed_value_len,
        items: record_item(c.items, s),
    }
}

/// The statistics after one more record: the record's category, made first
/// if it is new, takes the record; every other category stays as it was.
pub open spec fn record(t: Totals, s: Sample) -> Totals {
    let before = if t.contains_key(s.category) {
        t[s.category]
    } else {
        CategoryTotals::empty()
    };
    t.insert(s.category, record_category(before, s))
}

/// The statistics of a scan that saw `samples`, in their order.
pub open spec fn aggregate(samples: Seq<Sample>) -> Totals
    decreases samples.len(),
{
    if samples.len() == 0 {
        Map::empty()
    } else {
        record(aggregate(samples.drop_last()), samples.last())
    }
}

/// The shares of several workers merged one after the other, each share
/// being the statistics of the records that worker saw.
pub open spec fn aggregate_parts(parts: Seq<Seq<Sample>>) -> Totals
    decreases parts.len(),
{
    if parts.len() == 0 {
        Map::empty()
    } else {
        merge(aggregate_parts(parts.drop_last()), aggregate(parts.last()))
    }
}

/// Merging item maps does not depend on which side is which.
pub proof fn lemma_merge_items_commutative(a: ItemMap, b: ItemMap)
    ensures
        merge_items(a, b) == merge_items(b, a),
{
    assert(merge_items(a, b) =~= merge_items(b, a));
}

/// Merging three item maps does not depend on which two are merged first.
pub proof fn lemma_merge_items_associative(a: ItemMap, b: ItemMap, c: ItemMap)
    ensures
        merge_items(merge_items(a, b), c) == merge_items(a, merge_items(b, c)),
{
    assert(merge_items(merge_items(a, b), c) =~= merge_items(a, merge_items(b, c)));
}

/// Adding categories does not depend on which side is which.
pub proof fn lemma_category_plus_commutative(a: CategoryTotals, b: CategoryTotals)
    ensures
        a.plus(b) == b.plus(a),
{
    lemma_merge_items_commutative(a.items, b.items);
}

/// Adding three categories does not depend on which two are added first.
pub proof fn lemma_category_plus_associative(
    a: CategoryTotals,
    b: CategoryTotals,
    c: CategoryTotals,
)
    ensures
        a.plus(b).plus(c) == a.plus(b.plus(c)),
{
    lemma_merge_items_associative(a.items, b.items, c.items);
}

/// Merge is commutative: which worker's share is merged into which makes no
/// difference.
pub proof fn lemma_merge_commutative(a: Totals, b: Totals)
    ensures
        merge(a, b) == merge(b, a),
{
    assert forall|k: Name| merge(a, b).contains_key(k) implies #[trigger] merge(a, b)[k] == merge(
        b,
        a,
    )[k] by {
        if a.contains_key(k) && b.contains_key(k) {
            lemma_category_plus_commutative(a[k], b[k]);
        }
    }
    assert(merge(a, b) =~= merge(b, a));
}

/// Merge is associative: shares may be merged pairwise in any grouping.
pub proof fn lemma_merge_associative(a: Totals, b: Totals, c: Totals)
    ensures
        merge(merge(a, b), c) == merge(a, merge(b, c)),
{
    let left = merge(merge(a, b), c);
    let right = merge(a, merge(b, c));
    assert forall|k: Name| left.contains_key(k) implies #[trigger] left[k] == right[k] by {
        if a.contains_key(k) && b.contains_key(k) && c.contains_key(k) {
            lemma_category_plus_associative(a[k], b[k], c[k]);
        }
    }
    assert(left =~= right);
}

/// Merging with nothing changes nothing.
pub proof fn lemma_merge_empty(a: Totals)
    ensures
        merge(a, Map::empty()) == a,
        merge(Map::empty(), a) == a,
{
    assert(merge(a, Map::empty()) =~= a);
    assert(merge(Map::empty(), a) =~= a);
}

/// Counting one record is merging with the statistics of that record alone.
pub proof fn lemma_record_is_merge(t: Totals, s: Sample)
    ensures
        record(t, s) == merge(t, single(s)),
{
    let before = if t.contains_key(s.category) {
        t[s.category]
    } else {
        CategoryTotals::empty()
    };
    let alone = Map::<Name, ItemTotals>::empty().insert(s.item, s.item_totals());
    assert(record_item(before.items, s) =~= merge_items(before.items, alone));
    assert(alone =~= merge_items(Map::empty(), alone));
    assert(record_category(before, s) == before.plus(s.category_totals()));
    assert(record(t, s) =~= merge(t, single(s)));
}

/// The statistics of two runs of records, one after the other, are the merge
/// of the statistics of each.
pub proof fn lemma_aggregate_concat(a: Seq<Sample>, b: Seq<Sample>)
    ensures
        aggregate(a + b) == merge(aggregate(a), aggregate(b)),
    decreases b.len(),
{
    if b.len() == 0 {
        assert(a + b =~= a);
        lemma_merge_empty(aggregate(a));
    } else {
        let rest = b.drop_last();
        let x = b.last();
        assert((a + b).drop_last() =~= a + rest);
        assert((a + b).last() == x);
        lemma_aggregate_concat(a, rest);
        lemma_record_is_merge(aggregate(a + rest), x);
        lemma_record_is_merge(aggregate(rest), x);
        lemma_merge_associative(aggregate(a), aggregate(rest), single(x));
    }
}

/// Taking one record out of a run and counting it last gives the same
/// statistics.
proof fn lemma_aggregate_remove(samples: Seq<Sample>, at: int)
    requires
        0 <= at < samples.len(),
    ensures
        aggregate(samples) == record(aggregate(samples.remove(at)), samples[at]),
{
    let head = samples.subrange(0, at);
    let tail = samples.subrange(at + 1, samples.len() as int);
    let x = samples[at];
    let one = Seq::<Sample>::empty().push(x);
    assert(samples =~= (head + one) + tail);
    assert(samples.remove(at) =~= head + tail);
    assert(one.drop_last() =~= Seq::<Sample>::empty());
    assert(one.last() == x);
    assert(aggregate(one.drop_last()) == Map::<Name, CategoryTotals>::empty());
    assert(aggregate(one) == record(Map::empty(), x));
    lemma_record_is_merge(Map::empty(), x);
    lemma_merge_empty(single(x));
    lemma_aggregate_concat(head, one);
    lemma_aggregate_concat(head + one, tail);
    lemma_aggregate_concat(head, tail);
    lemma_merge_associative(aggregate(head), single(x), aggregate(tail));
    lemma_merge_commutative(single(x), aggregate(tail));
    lemma_merge_associative(aggregate(head), aggregate(tail), single(x));
    lemma_record_is_merge(aggregate(head + tail), x);
}

/// The statistics of a scan do not depend on the order in which the records
/// were processed.
pub proof fn lemma_aggregate_order_independent(a: Seq<Sample>, b: Seq<Sample>)
    requires
        a.to_multiset() == b.to_multiset(),
    ensures
        aggregate(a) == aggregate(b),
    decreases a.len(),
{
    broadcast use vstd::seq_lib::group_to_multiset_ensures;

    if a.len() == 0 {
        assert(a.to_multiset().len() == a.len());
        assert(b.to_multiset().len() == b.len());
    } else {
        let x = a.last();
        assert(a.contains(x));
        assert(b.to_multiset().count(x) > 0);
        assert(b.contains(x));
        let at = b.index_of(x);
        assert(a.drop_last() =~= a.remove(a.len() - 1));
        assert(a.drop_last().to_multiset() == b.remove(at).to_multiset());
        lemma_aggregate_order_independent(a.drop_last(), b.remove(at));
        lemma_aggregate_remove(b, at);
    }
}

/// Merging the workers' shares gives the statistics of all their records
/// taken as one run.
pub proof fn lemma_aggregate_parts_flatten(parts: Seq<Seq<Sample>>)
    ensures
        aggregate_parts(parts) == aggregate(parts.flatten()),
    decreases parts.len(),
{
    if parts.len() == 0 {
    } else {
        let rest = parts.drop_last();
        lemma_aggregate_parts_flatten(rest);
        rest.lemma_flatten_push(parts.last());
        assert(rest.push(parts.last()) =~= parts);
        lemma_aggregate_concat(rest.flatten(), parts.last());
    }
}

/// However a set of records is split among workers, in whatever order each
/// worker meets its records and in whatever order the shares are merged, the
/// merged statistics are those of the whole set.
pub proof fn lemma_partition_independent(whole: Seq<Sample>, parts: Seq<Seq<Sample>>)
    requires
        parts.flatten().to_multiset() == whole.to_multiset(),
    ensures
        aggregate_parts(parts) == aggregate(whole),
{
    lemma_aggregate_parts_flatten(parts);
    lemma_aggregate_order_independent(parts.flatten(), whole);
}

impl ItemTotals {
    /// No sum is larger than the same sum of `other`.
    pub open spec fn le(self, other: ItemTotals) -> bool {
        &&& self.key_len <= other.key_len
        &&& self.compressed_key_len <= other.compressed_key_len
        &&& self.value_len <= other.value_len
        &&& self.compressed_value_len <= other.compressed_value_len
        &&& self.num_entries <= other.num_entries
    }
}

impl CategoryTotals {
    /// `other` holds every item of this category, and no sum of this
    /// category is larger than the same sum of `other`.
    pub open spec fn le(self, other: CategoryTotals) -> bool {
        &&& self.raw_size <= other.raw_size
        &&& self.compressed_size <= other.compressed_size
        &&& forall|i: Name| #[trigger]
            self.items.contains_key(i) ==> other.items.contains_key(i) && self.items[i].le(
                other.items[i],
            )
    }
}

/// `later` holds every category and item of `earlier`, and no sum of
/// `earlier` is larger than the same sum of `later`.
pub open spec fn le(earlier: Totals, later: Totals) -> bool {
    forall|c: Name| #[trigger]
        earlier.contains_key(c) ==> later.contains_key(c) && earlier[c].le(later[c])
}

/// Counting a record takes nothing away: every sum stays or grows.
pub proof fn lemma_record_grows(t: Totals, s: Sample)
    ensures
        le(t, record(t, s)),
{
}

/// Merging takes nothing away from either side: every sum stays or grows.
pub proof fn lemma_merge_grows(a: Totals, b: Totals)
    ensures
        le(a, merge(a, b)),
        le(b, merge(a, b)),
{
}

} // verus!
