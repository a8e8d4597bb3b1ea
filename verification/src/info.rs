//! The overview of a snapshot: the arguments of the command and the sums
//! over all categories that head its report.

use crate::endpoint::{meta_path_of, network_name, network_of, resolve_url, url_of};
use crate::stats::{category_values, item_values, CategoryStat, ItemStat, Overflow, StatsMap};
use crate::text::{lowercase, to_lowercase};
use crate::totals::ItemTotals;
use vstd::prelude::*;

verus! {

/// The arguments of the overview.
#[derive(Debug)]
pub struct Info {
    /// The path of the snapshot to analyze.
    pub snapshot: String,
    /// The node to ask for the schema: an address, or the name of a
    /// network.
    pub rpc: String,
    /// The one category to show.
    pub pallet: Option<String>,
    /// Whether to show the counts and sizes in full.
    pub verbose: bool,
}

/// Whether a category called `name` is shown when `only` is the category
/// asked for: every category where none is asked for, else the one whose
/// name is the same but for case.
pub open spec fn shown(only: Option<Seq<char>>, name: Seq<char>) -> bool {
    match only {
        Some(wanted) => lowercase(wanted) == lowercase(name),
        None => true,
    }
}

/// Whether a category is shown, given the name asked for and the
/// category's name, both in lower case already.
pub fn shown_lowercase(only: Option<String>, name: String) -> (shown: bool)
    ensures
        shown == match only {
            Some(wanted) => wanted@ == name@,
            None => true,
        },
{
    match only {
        Some(wanted) => wanted == name,
        None => true,
    }
}

impl Info {
    /// The category asked for, as a value of the model.
    pub open spec fn pallet_view(&self) -> Option<Seq<char>> {
        match self.pallet {
            Some(name) => Some(name@),
            None => None,
        }
    }

    /// The address of the node to ask for the schema.
    pub fn url(&self) -> (url: String)
        ensures
            url@ == url_of(self.rpc@),
    {
        resolve_url(self.rpc.as_str())
    }

    /// The name of the network, given the name of the snapshot's file as
    /// the file system has it, without the directories.
    pub fn network(&self, file_name: &str) -> (network: String)
        ensures
            network@ == network_of(file_name@),
    {
        network_name(file_name)
    }

    /// Where the schema is kept, given the name of the snapshot's file as
    /// for [`Info::network`].
    pub fn meta_path(&self, file_name: &str) -> (path: String)
        ensures
            path@ == network_of(file_name@) + ".meta"@,
    {
        meta_path_of(self.network(file_name).as_str())
    }

    /// Whether the report is the long one: where it was asked for, and
    /// whenever a single category is looked at.
    pub fn is_verbose(&self) -> (verbose: bool)
        ensures
            verbose == (self.verbose || self.pallet is Some),
    {
        self.verbose || self.pallet.is_some()
    }

    /// Whether the category called `name` is part of the report.
    pub fn shows(&self, name: &str) -> (shown: bool)
        ensures
            shown == self::shown(self.pallet_view(), name@),
    {
        let only = match &self.pallet {
            Some(wanted) => Some(to_lowercase(wanted.as_str())),
            None => None,
        };
        shown_lowercase(only, to_lowercase(name))
    }
}

/// The sums over a whole network, unbounded.
pub struct NetworkTotals {
    pub size: nat,
    pub num_keys: nat,
    pub key_size: nat,
    pub compressed_key_size: nat,
    pub num_values: nat,
    pub value_size: nat,
    pub compressed_value_size: nat,
    pub compressed_size: nat,
}

impl NetworkTotals {
    /// The sums over nothing.
    pub open spec fn zero() -> NetworkTotals {
        NetworkTotals {
            size: 0,
            num_keys: 0,
            key_size: 0,
            compressed_key_size: 0,
            num_values: 0,
            value_size: 0,
            compressed_value_size: 0,
            compressed_size: 0,
        }
    }

    /// Field by field sum.
    pub open spec fn plus(self, other: NetworkTotals) -> NetworkTotals {
        NetworkTotals {
            size: self.size + other.size,
            num_keys: self.num_keys + other.num_keys,
            key_size: self.key_size + other.key_size,
            compressed_key_size: self.compressed_key_size + other.compressed_key_size,
            num_values: self.num_values + other.num_values,
            value_size: self.value_size + other.value_size,
            compressed_value_size: self.compressed_value_size + other.compressed_value_size,
            compressed_size: self.compressed_size + other.compressed_size,
        }
    }

    /// No sum is larger than the same sum of `other`.
    pub open spec fn le(self, other: NetworkTotals) -> bool {
        &&& self.size <= other.size
        &&& self.num_keys <= other.num_keys
        &&& self.key_size <= other.key_size
        &&& self.compressed_key_size <= other.compressed_key_size
        &&& self.num_values <= other.num_values
        &&& self.value_size <= other.value_size
        &&& self.compressed_value_size <= other.compressed_value_size
        &&& self.compressed_size <= other.compressed_size
    }

    /// Every sum can be held in a `usize`.
    pub open spec fn fits(self) -> bool {
        &&& self.size <= usize::MAX
        &&& self.num_keys <= usize::MAX
        &&& self.key_size <= usize::MAX
        &&& self.compressed_key_size <= usize::MAX
        &&& self.num_values <= usize::MAX
        &&& self.value_size <= usize::MAX
        &&& self.compressed_value_size <= usize::MAX
        &&& self.compressed_size <= usize::MAX
    }
}

/// What one item adds to the sums of the network: its entries count as keys
/// and as values, its lengths as the sizes of both.
pub open spec fn item_share(item: ItemTotals) -> NetworkTotals {
    NetworkTotals {
        size: 0,
        num_keys: item.num_entries,
        key_size: item.key_len,
        compressed_key_size: item.compressed_key_len,
        num_values: item.num_entries,
        value_size: item.value_len,
        compressed_value_size: item.compressed_value_len,
        compressed_size: 0,
    }
}

/// The sum of a run of shares.
pub open spec fn sum_shares(shares: Seq<NetworkTotals>) -> NetworkTotals
    decreases shares.len(),
{
    if shares.len() == 0 {
        NetworkTotals::zero()
    } else {
        sum_shares(shares.drop_last()).plus(shares.last())
    }
}

/// What each item of a run adds to the sums of the network.
pub open spec fn item_shares(items: Seq<ItemStat>) -> Seq<NetworkTotals> {
    Seq::new(items.len(), |i: int| item_share(items[i].totals()))
}

/// What a run of items adds to the sums of the network.
pub open spec fn items_share(items: Seq<ItemStat>) -> NetworkTotals {
    sum_shares(item_shares(items))
}

/// What the two sizes of a category add to the sums of the network.
pub open spec fn sizes_share(raw_size: nat, compressed_size: nat) -> NetworkTotals {
    NetworkTotals {
        size: raw_size,
        num_keys: 0,
        key_size: 0,
        compressed_key_size: 0,
        num_values: 0,
        value_size: 0,
        compressed_value_size: 0,
        compressed_size,
    }
}

/// What one category adds to the sums of the network: its two sizes, and
/// what its items add.
pub open spec fn category_share(category: CategoryStat) -> NetworkTotals {
    sizes_share(category.totals().raw_size, category.totals().compressed_size).plus(
        items_share(category.entries()),
    )
}

/// What each category of a run adds to the sums of the network.
pub open spec fn category_shares(categories: Seq<CategoryStat>) -> Seq<NetworkTotals> {
    Seq::new(categories.len(), |i: int| category_share(categories[i]))
}

/// The sums over all categories of a network.
pub open spec fn network_totals(categories: Seq<CategoryStat>) -> NetworkTotals {
    sum_shares(category_shares(categories))
}

/// The sum of the first shares of a run is no larger than the sum of all
/// of it.
pub proof fn lemma_sum_shares_grows(shares: Seq<NetworkTotals>, upto: int)
    requires
        0 <= upto <= shares.len(),
    ensures
        sum_shares(shares.take(upto)).le(sum_shares(shares)),
    decreases shares.len(),
{
    if upto == shares.len() {
        assert(shares.take(upto) =~= shares);
    } else {
        lemma_sum_shares_grows(shares.drop_last(), upto);
        assert(shares.drop_last().take(upto) =~= shares.take(upto));
    }
}

/// What a category adds to the sums of the network depends on what it
/// holds and on nothing else.
pub proof fn lemma_category_share_by_totals(a: &CategoryStat, b: &CategoryStat)
    requires
        a.wf(),
        b.wf(),
        a.totals() == b.totals(),
    ensures
        category_share(*a) == category_share(*b),
{
    a.lemma_same_totals_same_entries(b);
    let ours = item_values(a.entries());
    let theirs = item_values(b.entries());
    assert(ours.len() == theirs.len());
    assert(a.entries().len() == b.entries().len());
    assert forall|i: int| 0 <= i < a.entries().len() implies item_shares(a.entries())[i]
        == item_shares(b.entries())[i] by {
        assert(ours[i] == a.entries()[i].totals());
        assert(theirs[i] == b.entries()[i].totals());
    }
    assert(item_shares(a.entries()) =~= item_shares(b.entries()));
}

/// The sums over a network depend on what the statistics hold and on
/// nothing else: not on the order in which the records were counted, nor on
/// how the shares were merged.
pub proof fn lemma_network_totals_by_view(a: &StatsMap, b: &StatsMap)
    requires
        a.wf(),
        b.wf(),
        a@ == b@,
    ensures
        network_totals(a.entries()) == network_totals(b.entries()),
{
    a.lemma_same_view_same_entries(b);
    a.lemma_view_of_entries();
    b.lemma_view_of_entries();
    let ours = category_values(a.entries());
    let theirs = category_values(b.entries());
    assert(ours.len() == theirs.len());
    assert(a.entries().len() == b.entries().len());
    assert forall|i: int| 0 <= i < a.entries().len() implies category_shares(a.entries())[i]
        == category_shares(b.entries())[i] by {
        assert(ours[i] == a.entries()[i].totals());
        assert(theirs[i] == b.entries()[i].totals());
        lemma_category_share_by_totals(&a.entries()[i], &b.entries()[i]);
    }
    assert(category_shares(a.entries()) =~= category_shares(b.entries()));
}

/// The sums over a whole network.
#[derive(Debug, Clone, Copy, PartialEq, Eq, Structural)]
pub struct NetworkInfo {
    pub size: usize,
    pub num_keys: usize,
    pub key_size: usize,
    pub compressed_key_size: usize,
    pub num_values: usize,
    pub value_size: usize,
    pub compressed_value_size: usize,
    pub compressed_size: usize,
}

impl View for NetworkInfo {
    type V = NetworkTotals;

    open spec fn view(&self) -> NetworkTotals {
        NetworkTotals {
            size: self.size as nat,
            num_keys: self.num_keys as nat,
            key_size: self.key_size as nat,
            compressed_key_size: self.compressed_key_size as nat,
            num_values: self.num_values as nat,
            value_size: self.value_size as nat,
            compressed_value_size: self.compressed_value_size as nat,
            compressed_size: self.compressed_size as nat,
        }
    }
}

impl Default for NetworkInfo {
    fn default() -> (info: NetworkInfo)
        ensures
            info@ == NetworkTotals::zero(),
    {
        NetworkInfo {
            size: 0,
            num_keys: 0,
            key_size: 0,
            compressed_key_size: 0,
            num_values: 0,
            value_size: 0,
            compressed_value_size: 0,
            compressed_size: 0,
        }
    }
}

impl NetworkInfo {
    /// These sums and those of `other`, if they can be held.
    pub fn checked_plus(self, other: NetworkInfo) -> (sum: Option<NetworkInfo>)
        ensures
            match sum {
                Some(info) => info@ == self@.plus(other@),
                None => !self@.plus(other@).fits(),
            },
    {
        let sums = (
            self.size.checked_add(other.size),
            self.num_keys.checked_add(other.num_keys),
            self.key_size.checked_add(other.key_size),
            self.compressed_key_size.checked_add(other.compressed_key_size),
            self.num_values.checked_add(other.num_values),
            self.value_size.checked_add(other.value_size),
            self.compressed_value_size.checked_add(other.compressed_value_size),
            self.compressed_size.checked_add(other.compressed_size),
        );
        match sums {
            (
                Some(size),
                Some(num_keys),
                Some(key_size),
                Some(compressed_key_size),
                Some(num_values),
                Some(value_size),
                Some(compressed_value_size),
                Some(compressed_size),
            ) => Some(
                NetworkInfo {
                    size,
                    num_keys,
                    key_size,
                    compressed_key_size,
                    num_values,
                    value_size,
                    compressed_value_size,
                    compressed_size,
                },
            ),
            _ => None,
        }
    }

    /// What one item adds to the sums of a network.
    pub fn of_item(item: &ItemStat) -> (share: NetworkInfo)
        ensures
            share@ == item_share(item.totals()),
    {
        NetworkInfo {
            size: 0,
            num_keys: item.num_entries,
            key_size: item.key_len,
            compressed_key_size: item.compressed_key_len,
            num_values: item.num_entries,
            value_size: item.value_len,
            compressed_value_size: item.compressed_value_len,
            compressed_size: 0,
        }
    }
}

/// What one category adds to the sums of a network: its two sizes and, from
/// its items, the number and the sizes of keys and values. Fails where a
/// sum would leave `usize`.
pub fn category_info(category: &CategoryStat) -> (info: Result<NetworkInfo, Overflow>)
    ensures
        info is Ok <==> category_share(*category).fits(),
        info matches Ok(sums) ==> sums@ == category_share(*category),
{
    let items = category.items();
    let mut sums = NetworkInfo {
        size: category.raw_size(),
        num_keys: 0,
        key_size: 0,
        compressed_key_size: 0,
        num_values: 0,
        value_size: 0,
        compressed_value_size: 0,
        compressed_size: category.compressed_size(),
    };
    let ghost sizes = sums@;
    let ghost shares = item_shares(items@);
    let mut i: usize = 0;
    proof {
        assert(shares.take(0) =~= Seq::<NetworkTotals>::empty());
    }
    while i < items.len()
        invariant
            i <= items@.len(),
            items@ == category.entries(),
            shares == item_shares(items@),
            sizes == sizes_share(category.totals().raw_size, category.totals().compressed_size),
            sums@ == sizes.plus(sum_shares(shares.take(i as int))),
        decreases items@.len() - i,
    {
        proof {
            assert(shares.take(i + 1).drop_last() =~= shares.take(i as int));
            assert(shares.take(i + 1).last() == item_share(items@[i as int].totals()));
            lemma_sum_shares_grows(shares, i + 1);
        }
        sums = match sums.checked_plus(NetworkInfo::of_item(&items[i])) {
            Some(next) => next,
            None => {
                return Err(Overflow);
            },
        };
        i += 1;
    }
    proof {
        assert(shares.take(i as int) =~= shares);
    }
    Ok(sums)
}

/// The sums over all categories of `stats`. Fails where a sum would leave
/// `usize`.
pub fn network_info(stats: &StatsMap) -> (info: Result<NetworkInfo, Overflow>)
    ensures
        info is Ok <==> network_totals(stats.entries()).fits(),
        info matches Ok(sums) ==> sums@ == network_totals(stats.entries()),
{
    let categories = stats.categories();
    let mut sums = NetworkInfo::default();
    let ghost shares = category_shares(categories@);
    let mut c: usize = 0;
    proof {
        assert(shares.take(0) =~= Seq::<NetworkTotals>::empty());
    }
    while c < categories.len()
        invariant
            c <= categories@.len(),
            categories@ == stats.entries(),
            shares == category_shares(categories@),
            sums@ == sum_shares(shares.take(c as int)),
        decreases categories@.len() - c,
    {
        proof {
            assert(shares.take(c + 1).drop_last() =~= shares.take(c as int));
            assert(shares.take(c + 1).last() == category_share(categories@[c as int]));
            lemma_sum_shares_grows(shares, c + 1);
        }
        let share = match category_info(&categories[c]) {
            Ok(share) => share,
            Err(overflow) => {
                return Err(overflow);
            },
        };
        sums = match sums.checked_plus(share) {
            Some(next) => next,
            None => {
                return Err(Overflow);
            },
        };
        c += 1;
    }
    proof {
        assert(shares.take(c as int) =~= shares);
    }
    Ok(sums)
}

} // verus!
