//! The index from hashed key prefixes to the category, and the item, that a
//! storage key belongs to, and the classification of keys by it.
//!
//! A category is found by the 16-byte digest of its name, an item by that
//! digest followed by the 16-byte digest of the item's name. The index is an
//! ordered map from such prefixes to names: its entries are kept in the
//! dictionary order of the prefixes and found by bisection.

use crate::assoc::{
    assoc_map, lemma_assoc_absent, lemma_assoc_at, lemma_assoc_empty, lemma_assoc_insert,
    lemma_assoc_len, lemma_assoc_update,
};
use crate::hashing::{twox_128_of, twox_128_vec};
use crate::label::Label;
use crate::lex::{
    lemma_lex_asymmetric, lemma_lex_irreflexive, lemma_lex_total, lemma_lex_transitive, lex_lt,
    side_of, Side,
};
use vstd::prelude::*;
use vstd::slice::slice_to_vec;
use vstd::std_specs::convert::FromSpecImpl;
use vstd::utf8::encode_utf8;

verus! {

/// What a prefix stands for: a category, or one item of a category.
pub struct Target {
    pub category: Seq<char>,
    pub item: Option<Seq<char>>,
}

/// An index as a value of the model.
pub type IndexMap = Map<Seq<u8>, Target>;

/// The prefix of every key of a category: the 16-byte digest of the name's
/// bytes.
pub open spec fn category_prefix(name: Seq<char>) -> Seq<u8> {
    twox_128_of(encode_utf8(name))
}

/// The prefix of every key of an item: the category's prefix, then the
/// 16-byte digest of the item's name.
pub open spec fn item_prefix(category: Seq<char>, item: Seq<char>) -> Seq<u8> {
    category_prefix(category) + twox_128_of(encode_utf8(item))
}

/// A category's prefix has 16 bytes, an item's has 32 and starts with the
/// prefix of its category.
pub proof fn lemma_prefix_lengths(category: Seq<char>, item: Seq<char>)
    ensures
        category_prefix(category).len() == 16,
        item_prefix(category, item).len() == 32,
        item_prefix(category, item).take(16) == category_prefix(category),
{
    assert(item_prefix(category, item).take(16) =~= category_prefix(category));
}

/// A category of the schema as a value of the model.
pub struct Schema {
    pub name: Seq<char>,
    pub items: Seq<Seq<char>>,
}

/// `index` after the items of `category` were entered in their order. An
/// item whose prefix is already there takes the entry over.
pub open spec fn with_items(index: IndexMap, category: Seq<char>, items: Seq<Seq<char>>) -> IndexMap
    decreases items.len(),
{
    if items.len() == 0 {
        index
    } else {
        with_items(index, category, items.drop_last()).insert(
            item_prefix(category, items.last()),
            Target { category, item: Some(items.last()) },
        )
    }
}

/// `index` after a category was entered: first the category itself, then
/// its items.
pub open spec fn with_category(index: IndexMap, schema: Schema) -> IndexMap {
    with_items(
        index.insert(category_prefix(schema.name), Target { category: schema.name, item: None }),
        schema.name,
        schema.items,
    )
}

/// The index of a schema: its categories entered in their order, a later
/// entry replacing an earlier one with the same prefix.
pub open spec fn index_of(schema: Seq<Schema>) -> IndexMap
    decreases schema.len(),
{
    if schema.len() == 0 {
        Map::empty()
    } else {
        with_category(index_of(schema.drop_last()), schema.last())
    }
}

/// The names of a run of strings.
pub open spec fn names_of(strings: Seq<String>) -> Seq<Seq<char>> {
    Seq::new(strings.len(), |i: int| strings[i]@)
}

/// One category of the schema: its name and the names of its items.
#[derive(Debug)]
pub struct CategoryDescriptor {
    pub name: String,
    pub items: Vec<String>,
}

impl View for CategoryDescriptor {
    type V = Schema;

    open spec fn view(&self) -> Schema {
        Schema { name: self.name@, items: names_of(self.items@) }
    }
}

/// The schemas of a run of descriptors.
pub open spec fn schemas_of(categories: Seq<CategoryDescriptor>) -> Seq<Schema> {
    Seq::new(categories.len(), |i: int| categories[i]@)
}

/// One entry of the index.
#[derive(Debug)]
pub struct PrefixEntry {
    pub prefix: Vec<u8>,
    pub category: String,
    pub item: Option<String>,
}

impl PrefixEntry {
    /// What the entry's prefix stands for.
    pub open spec fn target(&self) -> Target {
        Target {
            category: self.category@,
            item: match self.item {
                Some(item) => Some(item@),
                None => None,
            },
        }
    }
}

/// The prefixes of a run of entries, in its order.
pub open spec fn entry_keys(entries: Seq<PrefixEntry>) -> Seq<Seq<u8>> {
    Seq::new(entries.len(), |i: int| entries[i].prefix@)
}

/// The targets of a run of entries, in its order.
pub open spec fn entry_targets(entries: Seq<PrefixEntry>) -> Seq<Target> {
    Seq::new(entries.len(), |i: int| entries[i].target())
}

/// Every key comes before all keys after it.
pub open spec fn ascending(keys: Seq<Seq<u8>>) -> bool {
    forall|i: int, j: int| 0 <= i < j < keys.len() ==> lex_lt(keys[i], keys[j])
}

/// Keys in ascending order do not repeat.
pub proof fn lemma_ascending_distinct(keys: Seq<Seq<u8>>)
    requires
        ascending(keys),
    ensures
        keys.no_duplicates(),
{
    assert forall|i: int, j: int| 0 <= i < keys.len() && 0 <= j < keys.len() && i != j implies keys[i]
        != keys[j] by {
        if i < j {
            assert(lex_lt(keys[i], keys[j]));
        } else {
            assert(lex_lt(keys[j], keys[i]));
        }
        lemma_lex_irreflexive(keys[i]);
    }
}

/// The first position whose prefix does not come before `key`.
fn lower_bound(entries: &Vec<PrefixEntry>, key: &[u8]) -> (pos: usize)
    requires
        ascending(entry_keys(entries@)),
    ensures
        pos <= entries@.len(),
        forall|i: int| 0 <= i < pos ==> lex_lt(entries@[i].prefix@, key@),
        forall|i: int| pos <= i < entries@.len() ==> !lex_lt(entries@[i].prefix@, key@),
{
    let ghost keys = entry_keys(entries@);
    let mut lo: usize = 0;
    let mut hi: usize = entries.len();
    while lo < hi
        invariant
            lo <= hi <= entries@.len(),
            keys == entry_keys(entries@),
            ascending(keys),
            forall|i: int| 0 <= i < lo ==> lex_lt(entries@[i].prefix@, key@),
            forall|i: int| hi <= i < entries@.len() ==> !lex_lt(entries@[i].prefix@, key@),
        decreases hi - lo,
    {
        let mid = lo + (hi - lo) / 2;
        let side = side_of(entries[mid].prefix.as_slice(), key);
        proof {
            assert(keys[mid as int] == entries@[mid as int].prefix@);
        }
        match side {
            Side::Before => {
                proof {
                    assert forall|i: int| 0 <= i < mid + 1 implies lex_lt(
                        entries@[i].prefix@,
                        key@,
                    ) by {
                        if i < mid {
                            assert(lex_lt(keys[i], keys[mid as int]));
                            lemma_lex_transitive(keys[i], keys[mid as int], key@);
                        }
                    }
                }
                lo = mid + 1;
            },
            _ => {
                proof {
                    assert forall|i: int| mid <= i < entries@.len() implies !lex_lt(
                        entries@[i].prefix@,
                        key@,
                    ) by {
                        if lex_lt(keys[i], key@) {
                            if side == Side::After {
                                lemma_lex_transitive(keys[i], key@, keys[mid as int]);
                            }
                            if i > mid {
                                assert(lex_lt(keys[mid as int], keys[i]));
                                lemma_lex_asymmetric(keys[mid as int], keys[i]);
                            } else {
                                lemma_lex_irreflexive(keys[i]);
                            }
                        }
                    }
                }
                hi = mid;
            },
        }
    }
    lo
}

/// The index from prefixes to what they stand for.
#[derive(Debug)]
pub struct PrefixIndex {
    entries: Vec<PrefixEntry>,
}

impl View for PrefixIndex {
    type V = IndexMap;

    closed spec fn view(&self) -> IndexMap {
        assoc_map(entry_keys(self.entries@), entry_targets(self.entries@))
    }
}

impl PrefixIndex {
    /// The entries stand in the dictionary order of their prefixes.
    pub closed spec fn wf(&self) -> bool {
        ascending(entry_keys(self.entries@))
    }

    /// An index that knows no prefix.
    pub fn new() -> (index: PrefixIndex)
        ensures
            index.wf(),
            index@ == Map::<Seq<u8>, Target>::empty(),
    {
        let index = PrefixIndex { entries: Vec::new() };
        proof {
            lemma_assoc_empty::<Seq<u8>, Target>();
            assert(entry_keys(index.entries@) =~= Seq::<Seq<u8>>::empty());
            assert(entry_targets(index.entries@) =~= Seq::<Target>::empty());
        }
        index
    }

    /// How many prefixes the index knows.
    pub fn len(&self) -> (len: usize)
        requires
            self.wf(),
        ensures
            self@.dom().finite(),
            len == self@.dom().len(),
    {
        proof {
            lemma_ascending_distinct(entry_keys(self.entries@));
            lemma_assoc_len(entry_keys(self.entries@), entry_targets(self.entries@));
        }
        self.entries.len()
    }

    /// Where `key` stands among the entries, if it is the prefix of one.
    fn position(&self, key: &[u8]) -> (at: Option<usize>)
        requires
            self.wf(),
        ensures
            match at {
                Some(i) => i < self.entries@.len() && self.entries@[i as int].prefix@ == key@
                    && self@.contains_key(key@) && self@[key@] == self.entries@[i as int].target(),
                None => !self@.contains_key(key@),
            },
    {
        let ghost keys = entry_keys(self.entries@);
        let ghost targets = entry_targets(self.entries@);
        proof {
            lemma_ascending_distinct(keys);
        }
        let pos = lower_bound(&self.entries, key);
        if pos < self.entries.len() {
            match side_of(self.entries[pos].prefix.as_slice(), key) {
                Side::Same => {
                    proof {
                        lemma_assoc_at(keys, targets, pos as int);
                    }
                    return Some(pos);
                },
                _ => {},
            }
        }
        proof {
            assert forall|i: int| 0 <= i < keys.len() implies keys[i] != key@ by {
                if keys[i] == key@ {
                    lemma_lex_irreflexive(key@);
                    assert(pos <= i);
                    assert(pos < keys.len());
                    assert(keys[pos as int] == self.entries@[pos as int].prefix@);
                    assert(i != pos);
                    assert(lex_lt(keys[pos as int], keys[i]));
                }
            }
            lemma_assoc_absent(keys, targets, key@);
        }
        None
    }

    /// The entry whose prefix is exactly `key`.
    pub fn get(&self, key: &[u8]) -> (entry: Option<&PrefixEntry>)
        requires
            self.wf(),
        ensures
            match entry {
                Some(e) => self@.contains_key(key@) && self@[key@] == e.target() && e.prefix@
                    == key@,
                None => !self@.contains_key(key@),
            },
    {
        match self.position(key) {
            Some(at) => Some(&self.entries[at]),
            None => None,
        }
    }

    /// Enters `prefix` as standing for `category`, or for `item` of it. An
    /// entry with the same prefix is replaced without notice.
    pub fn insert(&mut self, prefix: Vec<u8>, category: String, item: Option<String>)
        requires
            old(self).wf(),
        ensures
            final(self).wf(),
            final(self)@ == old(self)@.insert(
                prefix@,
                (PrefixEntry { prefix, category, item }).target(),
            ),
    {
        let ghost keys = entry_keys(self.entries@);
        let ghost targets = entry_targets(self.entries@);
        let entry = PrefixEntry { prefix, category, item };
        let ghost key = entry.prefix@;
        let ghost target = entry.target();
        proof {
            lemma_ascending_distinct(keys);
        }
        let pos = lower_bound(&self.entries, entry.prefix.as_slice());
        let replaces = if pos < self.entries.len() {
            match side_of(self.entries[pos].prefix.as_slice(), entry.prefix.as_slice()) {
                Side::Same => true,
                _ => false,
            }
        } else {
            false
        };
        if replaces {
            self.entries[pos] = entry;
            proof {
                assert(entry_keys(self.entries@) =~= keys);
                assert(entry_targets(self.entries@) =~= targets.update(pos as int, target));
                lemma_assoc_update(keys, targets, pos as int, target);
            }
        } else {
            proof {
                assert forall|i: int| pos <= i < keys.len() implies lex_lt(key, keys[i]) by {
                    assert(keys[pos as int] == self.entries@[pos as int].prefix@);
                    lemma_lex_total(keys[pos as int], key);
                    if i > pos {
                        assert(lex_lt(keys[pos as int], keys[i]));
                        lemma_lex_transitive(key, keys[pos as int], keys[i]);
                    }
                }
                assert forall|i: int| 0 <= i < keys.len() implies keys[i] != key by {
                    lemma_lex_irreflexive(key);
                    if i < pos {
                        assert(lex_lt(keys[i], key));
                    }
                }
                lemma_assoc_absent(keys, targets, key);
                lemma_assoc_insert(keys, targets, pos as int, key, target);
            }
            self.entries.insert(pos, entry);
            proof {
                let keys2 = entry_keys(self.entries@);
                assert(keys2 =~= keys.insert(pos as int, key));
                assert(entry_targets(self.entries@) =~= targets.insert(pos as int, target));
                assert forall|i: int, j: int| 0 <= i < j < keys2.len() implies lex_lt(
                    keys2[i],
                    keys2[j],
                ) by {
                    if j < pos {
                        assert(lex_lt(keys[i], keys[j]));
                    } else if j == pos {
                        assert(lex_lt(keys[i], key));
                    } else if i < pos {
                        assert(lex_lt(keys[i], keys[j - 1]));
                    } else if i == pos {
                        assert(lex_lt(key, keys[j - 1]));
                    } else {
                        assert(lex_lt(keys[i - 1], keys[j - 1]));
                    }
                }
            }
        }
    }
}

/// The prefix of every key of the category called `name`: the 16-byte
/// digest of the name's bytes.
pub fn name_digest(name: &str) -> (digest: Vec<u8>)
    ensures
        digest@ == category_prefix(name@),
        digest@.len() == 16,
{
    twox_128_vec(name.as_bytes())
}

/// `head` followed by `tail`.
pub fn concat(head: &Vec<u8>, tail: &Vec<u8>) -> (all: Vec<u8>)
    ensures
        all@ == head@ + tail@,
{
    let mut all: Vec<u8> = Vec::new();
    let mut i: usize = 0;
    while i < head.len()
        invariant
            i <= head@.len(),
            all@ == head@.subrange(0, i as int),
        decreases head@.len() - i,
    {
        all.push(head[i]);
        i += 1;
    }
    assert(all@ =~= head@);
    let mut j: usize = 0;
    while j < tail.len()
        invariant
            j <= tail@.len(),
            all@ == head@ + tail@.subrange(0, j as int),
        decreases tail@.len() - j,
    {
        all.push(tail[j]);
        j += 1;
    }
    assert(all@ =~= head@ + tail@);
    all
}

/// Builds the index of a schema. The categories are entered in the order
/// given: each under the digest of its name, each of its items under that
/// digest followed by the digest of the item's name. Two names with the same
/// prefix are not told apart: the one entered later is kept.
pub fn build_prefix_lookup(categories: &[CategoryDescriptor]) -> (index: PrefixIndex)
    ensures
        index.wf(),
        index@ == index_of(schemas_of(categories@)),
{
    let ghost schemas = schemas_of(categories@);
    let mut index = PrefixIndex::new();
    let mut c: usize = 0;
    assert(schemas.take(0) =~= Seq::<Schema>::empty());
    while c < categories.len()
        invariant
            c <= categories@.len(),
            schemas == schemas_of(categories@),
            index.wf(),
            index@ == index_of(schemas.take(c as int)),
        decreases categories@.len() - c,
    {
        let category = &categories[c];
        let ghost schema = category@;
        let ghost names = names_of(category.items@);
        let category_hash = name_digest(category.name.as_str());
        index.insert(slice_to_vec(category_hash.as_slice()), category.name.clone(), None);
        let ghost base = index@;
        proof {
            assert(names.take(0) =~= Seq::<Seq<char>>::empty());
        }
        let mut e: usize = 0;
        while e < category.items.len()
            invariant
                e <= category.items@.len(),
                names == names_of(category.items@),
                category_hash@ == category_prefix(category.name@),
                index.wf(),
                index@ == with_items(base, category.name@, names.take(e as int)),
            decreases category.items@.len() - e,
        {
            let item = &category.items[e];
            let item_hash = name_digest(item.as_str());
            let full_hash = concat(&category_hash, &item_hash);
            assert(full_hash@ == item_prefix(category.name@, item@));
            index.insert(full_hash, category.name.clone(), Some(item.clone()));
            proof {
                assert(names.take(e + 1).drop_last() =~= names.take(e as int));
                assert(names.take(e + 1).last() == item@);
            }
            e += 1;
        }
        proof {
            assert(names.take(e as int) =~= names);
            assert(schemas.take(c + 1).drop_last() =~= schemas.take(c as int));
            assert(schemas.take(c + 1).last() == schema);
        }
        c += 1;
    }
    assert(schemas.take(c as int) =~= schemas);
    index
}

/// What a key was classified as, as a value of the model.
pub enum KeyClass {
    Item(Seq<char>, Seq<char>),
    Category(Seq<char>),
    Unknown,
}

/// A storage key after classification.
#[derive(Debug)]
pub enum CategorizedKey {
    /// A key of a known item of a known category.
    Item(String, String),
    /// A key of a known category, of none of its known items.
    Category(String),
    /// A key of no known category.
    Unknown,
}

impl View for CategorizedKey {
    type V = KeyClass;

    open spec fn view(&self) -> KeyClass {
        match self {
            CategorizedKey::Item(category, item) => KeyClass::Item(category@, item@),
            CategorizedKey::Category(category) => KeyClass::Category(category@),
            CategorizedKey::Unknown => KeyClass::Unknown,
        }
    }
}

impl KeyClass {
    /// The bucket of categories that the key is counted in.
    pub open spec fn category(self) -> Option<Seq<char>> {
        match self {
            KeyClass::Item(category, _) => Some(category),
            KeyClass::Category(category) => Some(category),
            KeyClass::Unknown => None,
        }
    }

    /// The bucket of items, inside its category, that the key is counted
    /// in.
    pub open spec fn item(self) -> Option<Seq<char>> {
        match self {
            KeyClass::Item(_, item) => Some(item),
            KeyClass::Category(_) => None,
            KeyClass::Unknown => None,
        }
    }
}

/// What a key with a known prefix is classified as: the item where the
/// prefix stands for one, else the category.
pub open spec fn resolve(target: Target) -> KeyClass {
    match target.item {
        Some(item) => KeyClass::Item(target.category, item),
        None => KeyClass::Category(target.category),
    }
}

/// The classification of `key`: by its first 32 bytes where it has as many
/// and the index knows them; else by its first 16 bytes where it has as
/// many and the index knows them; else unknown.
pub open spec fn classify(index: IndexMap, key: Seq<u8>) -> KeyClass {
    if key.len() >= 32 && index.contains_key(key.take(32)) {
        resolve(index[key.take(32)])
    } else if key.len() >= 16 && index.contains_key(key.take(16)) {
        resolve(index[key.take(16)])
    } else {
        KeyClass::Unknown
    }
}

/// The prefix that a target is entered under.
pub open spec fn prefix_of(target: Target) -> Seq<u8> {
    match target.item {
        Some(item) => item_prefix(target.category, item),
        None => category_prefix(target.category),
    }
}

/// Every entry stands under the prefix of what it stands for.
pub open spec fn consistent(index: IndexMap) -> bool {
    forall|key: Seq<u8>| #[trigger] index.contains_key(key) ==> key == prefix_of(index[key])
}

/// Entering items keeps what was entered before, enters every item, and
/// keeps the index consistent.
pub proof fn lemma_with_items(index: IndexMap, category: Seq<char>, items: Seq<Seq<char>>)
    ensures
        forall|key: Seq<u8>| index.contains_key(key) ==> #[trigger] with_items(
            index,
            category,
            items,
        ).contains_key(key),
        forall|j: int|
            0 <= j < items.len() ==> with_items(index, category, items).contains_key(
                #[trigger] item_prefix(category, items[j]),
            ),
        consistent(index) ==> consistent(with_items(index, category, items)),
    decreases items.len(),
{
    if items.len() > 0 {
        lemma_with_items(index, category, items.drop_last());
        let before = with_items(index, category, items.drop_last());
        assert forall|key: Seq<u8>| index.contains_key(key) implies #[trigger] with_items(
            index,
            category,
            items,
        ).contains_key(key) by {
            assert(before.contains_key(key));
        }
        assert forall|j: int| 0 <= j < items.len() implies with_items(
            index,
            category,
            items,
        ).contains_key(#[trigger] item_prefix(category, items[j])) by {
            if j < items.len() - 1 {
                assert(items.drop_last()[j] == items[j]);
            }
        }
    }
}

/// The index of a schema is consistent: whatever a prefix stands for, the
/// prefix is the one derived from its names.
pub proof fn lemma_index_of_consistent(schema: Seq<Schema>)
    ensures
        consistent(index_of(schema)),
    decreases schema.len(),
{
    if schema.len() > 0 {
        let last = schema.last();
        lemma_index_of_consistent(schema.drop_last());
        let entered = index_of(schema.drop_last()).insert(
            category_prefix(last.name),
            Target { category: last.name, item: None },
        );
        assert(consistent(entered));
        lemma_with_items(entered, last.name, last.items);
    }
}

/// The index of a schema knows the prefix of every category of the schema
/// and of every item.
pub proof fn lemma_index_of_complete(schema: Seq<Schema>, at: int)
    requires
        0 <= at < schema.len(),
    ensures
        index_of(schema).contains_key(category_prefix(schema[at].name)),
        forall|j: int|
            0 <= j < schema[at].items.len() ==> index_of(schema).contains_key(
                #[trigger] item_prefix(schema[at].name, schema[at].items[j]),
            ),
    decreases schema.len(),
{
    let last = schema.last();
    let before = index_of(schema.drop_last());
    let entered = before.insert(
        category_prefix(last.name),
        Target { category: last.name, item: None },
    );
    lemma_with_items(entered, last.name, last.items);
    if at < schema.len() - 1 {
        lemma_index_of_complete(schema.drop_last(), at);
        assert(schema.drop_last()[at] == schema[at]);
        assert(entered.contains_key(category_prefix(schema[at].name)));
        assert forall|j: int| 0 <= j < schema[at].items.len() implies index_of(
            schema,
        ).contains_key(#[trigger] item_prefix(schema[at].name, schema[at].items[j])) by {
            assert(entered.contains_key(item_prefix(schema[at].name, schema[at].items[j])));
        }
    } else {
        assert(entered.contains_key(category_prefix(last.name)));
    }
}

/// What a key is classified as under a consistent index is what its bytes
/// say: a key of an item starts with the 32 bytes derived from the names of
/// the category and the item, a key of a category with the 16 bytes derived
/// from the category's name.
pub proof fn lemma_classify_sound(index: IndexMap, key: Seq<u8>)
    requires
        consistent(index),
    ensures
        match classify(index, key) {
            KeyClass::Item(category, item) => key.len() >= 32 && key.take(32) == item_prefix(
                category,
                item,
            ),
            KeyClass::Category(category) => key.len() >= 16 && key.take(16) == category_prefix(
                category,
            ),
            KeyClass::Unknown => true,
        },
{
    if key.len() >= 32 && index.contains_key(key.take(32)) {
        let target = index[key.take(32)];
        lemma_prefix_lengths(target.category, Seq::empty());
        if target.item is Some {
            lemma_prefix_lengths(target.category, target.item->0);
        }
    } else if key.len() >= 16 && index.contains_key(key.take(16)) {
        let target = index[key.take(16)];
        lemma_prefix_lengths(target.category, Seq::empty());
        if target.item is Some {
            lemma_prefix_lengths(target.category, target.item->0);
        }
    }
}

/// A key that starts with the prefix of a category of the schema is never
/// unknown to the index of that schema.
pub proof fn lemma_known_category_is_classified(schema: Seq<Schema>, at: int, key: Seq<u8>)
    requires
        0 <= at < schema.len(),
        key.len() >= 16,
        key.take(16) == category_prefix(schema[at].name),
    ensures
        classify(index_of(schema), key) != KeyClass::Unknown,
{
    lemma_index_of_complete(schema, at);
}

/// A key that starts with the prefix of an item of the schema is classified
/// as an item.
pub proof fn lemma_known_item_is_classified(schema: Seq<Schema>, at: int, item: int, key: Seq<u8>)
    requires
        0 <= at < schema.len(),
        0 <= item < schema[at].items.len(),
        key.len() >= 32,
        key.take(32) == item_prefix(schema[at].name, schema[at].items[item]),
    ensures
        classify(index_of(schema), key) is Item,
{
    lemma_index_of_complete(schema, at);
    lemma_index_of_consistent(schema);
    lemma_classify_sound(index_of(schema), key);
    let target = index_of(schema)[key.take(32)];
    lemma_prefix_lengths(target.category, Seq::empty());
    lemma_prefix_lengths(schema[at].name, schema[at].items[item]);
}

/// A key shorter than the shortest prefix is unknown, whatever the index
/// holds.
pub proof fn lemma_short_key_unknown(index: IndexMap, key: Seq<u8>)
    requires
        key.len() < 16,
    ensures
        classify(index, key) == KeyClass::Unknown,
{
}

/// A key is unknown exactly where the index knows neither of its two
/// prefixes.
pub proof fn lemma_unknown_iff_no_prefix(index: IndexMap, key: Seq<u8>)
    ensures
        classify(index, key) == KeyClass::Unknown <==> !(key.len() >= 32 && index.contains_key(
            key.take(32),
        )) && !(key.len() >= 16 && index.contains_key(key.take(16))),
{
}

impl From<(String, Option<String>)> for CategorizedKey {
    fn from(found: (String, Option<String>)) -> (key: CategorizedKey) {
        match found.1 {
            Some(item) => CategorizedKey::Item(found.0, item),
            None => CategorizedKey::Category(found.0),
        }
    }
}

impl FromSpecImpl<(String, Option<String>)> for CategorizedKey {
    open spec fn obeys_from_spec() -> bool {
        true
    }

    open spec fn from_spec(found: (String, Option<String>)) -> CategorizedKey {
        match found.1 {
            Some(item) => CategorizedKey::Item(found.0, item),
            None => CategorizedKey::Category(found.0),
        }
    }
}

impl CategorizedKey {
    /// The label of the category that the key is counted under.
    pub fn category(&self) -> (label: Label)
        ensures
            label@ == self@.category(),
    {
        match self {
            CategorizedKey::Item(category, _) => Label::Named(category.clone()),
            CategorizedKey::Category(category) => Label::Named(category.clone()),
            CategorizedKey::Unknown => Label::Unknown,
        }
    }

    /// The label of the item that the key is counted under.
    pub fn item(&self) -> (label: Label)
        ensures
            label@ == self@.item(),
    {
        match self {
            CategorizedKey::Item(_, item) => Label::Named(item.clone()),
            CategorizedKey::Category(_) => Label::Unknown,
            CategorizedKey::Unknown => Label::Unknown,
        }
    }

    /// The name that the key's category is shown by.
    pub fn name(&self) -> (name: String)
        ensures
            name@ == match self@.category() {
                Some(category) => category,
                None => "Unknown"@,
            },
    {
        self.category().text()
    }
}

/// Classifies a storage key. Every key is classified: one that is too short
/// to hold a prefix, or whose prefixes the index does not know, is unknown.
pub fn categorize_prefix(key: &[u8], lookup: &PrefixIndex) -> (class: CategorizedKey)
    requires
        lookup.wf(),
    ensures
        class@ == classify(lookup@, key@),
{
    if key.len() >= 32 {
        let prefix = &key[0..32];
        assert(prefix@ == key@.take(32));
        if let Some(entry) = lookup.get(prefix) {
            return CategorizedKey::from((entry.category.clone(), entry.item.clone()));
        }
    }
    if key.len() >= 16 {
        let prefix = &key[0..16];
        assert(prefix@ == key@.take(16));
        if let Some(entry) = lookup.get(prefix) {
            return CategorizedKey::from((entry.category.clone(), entry.item.clone()));
        }
    }
    CategorizedKey::Unknown
}

} // verus!
