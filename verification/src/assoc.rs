//! Association lists as maps: a sequence of keys without repetition, beside
//! a sequence of values of the same length, read as the map that sends each
//! key to the value at its position.

use vstd::prelude::*;

verus! {

/// The map held by `keys` and `values`.
pub open spec fn assoc_map<K, V>(keys: Seq<K>, values: Seq<V>) -> Map<K, V> {
    Map::new(|k: K| keys.contains(k), |k: K| values[keys.index_of(k)])
}

/// A key without repetition is found at its own position.
pub proof fn lemma_index_of_position<K>(keys: Seq<K>, at: int)
    requires
        keys.no_duplicates(),
        0 <= at < keys.len(),
    ensures
        keys.contains(keys[at]),
        keys.index_of(keys[at]) == at,
{
    assert(keys.contains(keys[at]));
    let found = keys.index_of(keys[at]);
    assert(0 <= found < keys.len() && keys[found] == keys[at]);
}

/// The entry at a position is an entry of the map.
pub proof fn lemma_assoc_at<K, V>(keys: Seq<K>, values: Seq<V>, at: int)
    requires
        keys.no_duplicates(),
        keys.len() == values.len(),
        0 <= at < keys.len(),
    ensures
        assoc_map(keys, values).contains_key(keys[at]),
        assoc_map(keys, values)[keys[at]] == values[at],
{
    lemma_index_of_position(keys, at);
}

/// A key that stands at no position is no key of the map.
pub proof fn lemma_assoc_absent<K, V>(keys: Seq<K>, values: Seq<V>, key: K)
    requires
        forall|i: int| 0 <= i < keys.len() ==> keys[i] != key,
    ensures
        !keys.contains(key),
        !assoc_map(keys, values).contains_key(key),
{
}

/// Nothing is held by empty sequences.
pub proof fn lemma_assoc_empty<K, V>()
    ensures
        assoc_map(Seq::<K>::empty(), Seq::<V>::empty()) == Map::<K, V>::empty(),
{
    assert(assoc_map(Seq::<K>::empty(), Seq::<V>::empty()) =~= Map::<K, V>::empty());
}

/// Replacing the value at a position replaces the key's entry.
pub proof fn lemma_assoc_update<K, V>(keys: Seq<K>, values: Seq<V>, at: int, value: V)
    requires
        keys.no_duplicates(),
        keys.len() == values.len(),
        0 <= at < keys.len(),
    ensures
        assoc_map(keys, values.update(at, value)) == assoc_map(keys, values).insert(
            keys[at],
            value,
        ),
{
    let before = assoc_map(keys, values);
    let after = assoc_map(keys, values.update(at, value));
    lemma_index_of_position(keys, at);
    assert forall|k: K| after.contains_key(k) implies #[trigger] after[k] == before.insert(
        keys[at],
        value,
    )[k] by {
        let i = keys.index_of(k);
        assert(0 <= i < keys.len() && keys[i] == k);
        if k != keys[at] {
            assert(i != at);
        }
    }
    assert(after =~= before.insert(keys[at], value));
}

/// Appending a key that is new appends its entry and keeps the keys free of
/// repetition.
pub proof fn lemma_assoc_push<K, V>(keys: Seq<K>, values: Seq<V>, key: K, value: V)
    requires
        keys.no_duplicates(),
        keys.len() == values.len(),
        !keys.contains(key),
    ensures
        keys.push(key).no_duplicates(),
        assoc_map(keys.push(key), values.push(value)) == assoc_map(keys, values).insert(
            key,
            value,
        ),
{
    let keys2 = keys.push(key);
    let values2 = values.push(value);
    assert forall|i: int, j: int| 0 <= i < keys2.len() && 0 <= j < keys2.len() && i != j implies keys2[i]
        != keys2[j] by {
        if i < keys.len() {
            assert(keys.contains(keys[i]));
        }
        if j < keys.len() {
            assert(keys.contains(keys[j]));
        }
    }
    let before = assoc_map(keys, values);
    let after = assoc_map(keys2, values2);
    assert forall|k: K| after.contains_key(k) <==> before.insert(key, value).contains_key(k) by {
        if keys2.contains(k) {
            let i = keys2.index_of(k);
            assert(0 <= i < keys2.len() && keys2[i] == k);
            if i < keys.len() {
                assert(keys[i] == k);
                assert(keys.contains(k));
            }
        }
        if keys.contains(k) {
            let i = keys.index_of(k);
            assert(0 <= i < keys.len() && keys[i] == k);
            assert(keys2[i] == k);
        }
        if k == key {
            assert(keys2[keys.len() as int] == key);
        }
    }
    assert forall|k: K| after.contains_key(k) implies #[trigger] after[k] == before.insert(
        key,
        value,
    )[k] by {
        let i = keys2.index_of(k);
        assert(0 <= i < keys2.len() && keys2[i] == k);
        if k == key {
            assert(keys2[keys.len() as int] == key);
            assert(i == keys.len());
        } else {
            assert(i < keys.len());
            assert(keys[i] == k);
            lemma_index_of_position(keys, i);
        }
    }
    assert(after =~= before.insert(key, value));
}

/// Putting a key that is new at any position adds its entry and keeps the
/// keys free of repetition.
pub proof fn lemma_assoc_insert<K, V>(keys: Seq<K>, values: Seq<V>, at: int, key: K, value: V)
    requires
        keys.no_duplicates(),
        keys.len() == values.len(),
        0 <= at <= keys.len(),
        !keys.contains(key),
    ensures
        keys.insert(at, key).no_duplicates(),
        assoc_map(keys.insert(at, key), values.insert(at, value)) == assoc_map(
            keys,
            values,
        ).insert(key, value),
{
    let keys2 = keys.insert(at, key);
    let values2 = values.insert(at, value);
    let back = |i: int|
        if i < at {
            i
        } else {
            i - 1
        };
    assert forall|i: int| 0 <= i < keys2.len() && i != at implies keys2[i] == keys[back(i)]
        && values2[i] == values[back(i)] && keys.contains(keys2[i]) by {
        assert(keys[back(i)] == keys2[i]);
    }
    assert(keys2[at] == key && values2[at] == value);
    assert forall|i: int, j: int| 0 <= i < keys2.len() && 0 <= j < keys2.len() && i != j implies keys2[i]
        != keys2[j] by {
        if i != at && j != at {
            assert(back(i) != back(j));
        }
    }
    let before = assoc_map(keys, values);
    let after = assoc_map(keys2, values2);
    assert forall|k: K| after.contains_key(k) <==> before.insert(key, value).contains_key(k) by {
        if keys2.contains(k) {
            let i = keys2.index_of(k);
            assert(0 <= i < keys2.len() && keys2[i] == k);
        }
        if keys.contains(k) {
            let i = keys.index_of(k);
            assert(0 <= i < keys.len() && keys[i] == k);
            if i < at {
                assert(keys2[i] == k);
            } else {
                assert(keys2[i + 1] == k);
            }
        }
    }
    assert forall|k: K| after.contains_key(k) implies #[trigger] after[k] == before.insert(
        key,
        value,
    )[k] by {
        let i = keys2.index_of(k);
        assert(0 <= i < keys2.len() && keys2[i] == k);
        if k == key {
            assert(i == at);
        } else {
            assert(i != at);
            lemma_index_of_position(keys, back(i));
        }
    }
    assert(after =~= before.insert(key, value));
}

/// The map holds as many entries as there are keys.
pub proof fn lemma_assoc_len<K, V>(keys: Seq<K>, values: Seq<V>)
    requires
        keys.no_duplicates(),
    ensures
        assoc_map(keys, values).dom().finite(),
        assoc_map(keys, values).dom().len() == keys.len(),
{
    assert(assoc_map(keys, values).dom() =~= keys.to_set());
    keys.unique_seq_to_set();
    vstd::seq_lib::seq_to_set_is_finite(keys);
}

} // verus!
