//! Lists of entries with distinct keys, and the maps they stand for.
use vstd::prelude::*;

verus! {

/// No key occurs twice.
pub open spec fn distinct_keys<K, V>(entries: Seq<(K, V)>) -> bool {
    forall|i: int, j: int|
        0 <= i < entries.len() && 0 <= j < entries.len() && i != j ==> (#[trigger] entries[i]).0
            != (#[trigger] entries[j]).0
}

pub open spec fn has_key<K, V>(entries: Seq<(K, V)>, key: K) -> bool {
    exists|i: int| 0 <= i < entries.len() && (#[trigger] entries[i]).0 == key
}

pub open spec fn key_index<K, V>(entries: Seq<(K, V)>, key: K) -> int {
    choose|i: int| 0 <= i < entries.len() && (#[trigger] entries[i]).0 == key
}

/// The map that a list of entries with distinct keys stands for.
pub open spec fn map_of<K, V>(entries: Seq<(K, V)>) -> Map<K, V> {
    Map::new(
        |key: K| has_key(entries, key),
        |key: K| entries[key_index(entries, key)].1,
    )
}

pub(crate) proof fn lemma_map_of_entry<K, V>(entries: Seq<(K, V)>, i: int)
    requires
        distinct_keys(entries),
        0 <= i < entries.len(),
    ensures
        map_of(entries).dom().contains(entries[i].0),
        map_of(entries)[entries[i].0] == entries[i].1,
{
    assert(has_key(entries, entries[i].0));
    let k = key_index(entries, entries[i].0);
    assert(entries[k].0 == entries[i].0);
}

pub(crate) proof fn lemma_map_of_push<K, V>(entries: Seq<(K, V)>, key: K, value: V)
    requires
        distinct_keys(entries),
        !has_key(entries, key),
    ensures
        distinct_keys(entries.push((key, value))),
        map_of(entries.push((key, value))) == map_of(entries).insert(key, value),
{
    let longer = entries.push((key, value));
    assert forall|i: int, j: int|
        0 <= i < longer.len() && 0 <= j < longer.len() && i != j implies (#[trigger] longer[i]).0
        != (#[trigger] longer[j]).0 by {
        if i < entries.len() {
            assert(longer[i] == entries[i]);
        }
        if j < entries.len() {
            assert(longer[j] == entries[j]);
        }
    }
    assert(longer[entries.len() as int] == (key, value));
    assert forall|k: K| has_key(longer, k) == (k == key || has_key(entries, k)) by {
        if has_key(entries, k) {
            let i = key_index(entries, k);
            assert(longer[i] == entries[i]);
        }
        if has_key(longer, k) && k != key {
            let i = key_index(longer, k);
            assert(entries[i] == longer[i]);
        }
    }
    assert forall|k: K| #[trigger] has_key(longer, k) implies map_of(longer)[k] == map_of(
        entries,
    ).insert(key, value)[k] by {
        if k == key {
            lemma_map_of_entry(longer, entries.len() as int);
        } else {
            let i = key_index(entries, k);
            assert(entries[i].0 == k);
            assert(longer[i] == entries[i]);
            lemma_map_of_entry(longer, i);
            lemma_map_of_entry(entries, i);
        }
    }
    assert(map_of(longer) =~= map_of(entries).insert(key, value));
}

pub(crate) proof fn lemma_map_of_update<K, V>(entries: Seq<(K, V)>, i: int, value: V)
    requires
        distinct_keys(entries),
        0 <= i < entries.len(),
    ensures
        distinct_keys(entries.update(i, (entries[i].0, value))),
        map_of(entries.update(i, (entries[i].0, value))) == map_of(entries).insert(
            entries[i].0,
            value,
        ),
{
    let key = entries[i].0;
    let changed = entries.update(i, (key, value));
    assert forall|j: int| 0 <= j < entries.len() implies (#[trigger] changed[j]).0
        == entries[j].0 by {}
    assert forall|a: int, b: int|
        0 <= a < changed.len() && 0 <= b < changed.len() && a != b implies (#[trigger] changed[a]).0
        != (#[trigger] changed[b]).0 by {
        assert(entries[a].0 != entries[b].0);
    }
    assert forall|k: K| has_key(changed, k) == has_key(entries, k) by {
        if has_key(entries, k) {
            let j = key_index(entries, k);
            assert(changed[j].0 == k);
        }
        if has_key(changed, k) {
            let j = key_index(changed, k);
            assert(entries[j].0 == k);
        }
    }
    lemma_map_of_entry(entries, i);
    assert forall|k: K| #[trigger] has_key(changed, k) implies map_of(changed)[k] == map_of(
        entries,
    ).insert(key, value)[k] by {
        let j = key_index(changed, k);
        lemma_map_of_entry(changed, j);
        lemma_map_of_entry(entries, j);
    }
    assert(map_of(changed) =~= map_of(entries).insert(key, value));
}

pub(crate) proof fn lemma_map_of_remove<K, V>(entries: Seq<(K, V)>, i: int)
    requires
        distinct_keys(entries),
        0 <= i < entries.len(),
    ensures
        distinct_keys(entries.remove(i)),
        map_of(entries.remove(i)) == map_of(entries).remove(entries[i].0),
{
    let fewer = entries.remove(i);
    let gone = entries[i].0;
    assert forall|a: int, b: int|
        0 <= a < fewer.len() && 0 <= b < fewer.len() && a != b implies (#[trigger] fewer[a]).0 != (
    #[trigger] fewer[b]).0 by {
        let a2 = if a < i { a } else { a + 1 };
        let b2 = if b < i { b } else { b + 1 };
        assert(fewer[a] == entries[a2]);
        assert(fewer[b] == entries[b2]);
    }
    assert forall|k: K| has_key(fewer, k) == (k != gone && has_key(entries, k)) by {
        if has_key(entries, k) && k != gone {
            let j = key_index(entries, k);
            let at = if j < i { j } else { j - 1 };
            assert(fewer[at] == entries[j]);
        }
        if has_key(fewer, k) {
            let at = key_index(fewer, k);
            let j = if at < i { at } else { at + 1 };
            assert(entries[j] == fewer[at]);
        }
    }
    assert forall|k: K| #[trigger] has_key(fewer, k) implies map_of(fewer)[k] == map_of(
        entries,
    )[k] by {
        let at = key_index(fewer, k);
        let j = if at < i { at } else { at + 1 };
        assert(entries[j] == fewer[at]);
        lemma_map_of_entry(fewer, at);
        lemma_map_of_entry(entries, j);
    }
    assert(map_of(fewer) =~= map_of(entries).remove(gone));
}

/// The next entry of a list extends what comes before it by a key that does
/// not occur there.
pub(crate) proof fn lemma_next_key_is_new<K, V>(entries: Seq<(K, V)>, i: int)
    requires
        distinct_keys(entries),
        0 <= i < entries.len(),
    ensures
        entries.take(i + 1) == entries.take(i).push(entries[i]),
        distinct_keys(entries.take(i)),
        !has_key(entries.take(i), entries[i].0),
{
    let shorter = entries.take(i);
    assert(entries.take(i + 1) =~= shorter.push(entries[i]));
    if has_key(shorter, entries[i].0) {
        let j = key_index(shorter, entries[i].0);
        assert(entries[j].0 == entries[i].0);
    }
}

/// Distinct keys are as many as entries.
pub(crate) proof fn lemma_map_of_len<K, V>(entries: Seq<(K, V)>)
    requires
        distinct_keys(entries),
    ensures
        map_of(entries).dom().finite(),
        map_of(entries).dom().len() == entries.len(),
{
    let keys = entries.map_values(|entry: (K, V)| entry.0);
    assert(keys.no_duplicates()) by {
        assert forall|i: int, j: int|
            0 <= i < keys.len() && 0 <= j < keys.len() && i != j implies keys[i] != keys[j] by {
            assert(entries[i].0 != entries[j].0);
        }
    }
    keys.unique_seq_to_set();
    vstd::seq_lib::seq_to_set_is_finite(keys);
    assert forall|key: K| keys.to_set().contains(key) == map_of(entries).dom().contains(key) by {
        if keys.contains(key) {
            let k = choose|k: int| 0 <= k < keys.len() && keys[k] == key;
            assert(entries[k].0 == key);
        }
        if has_key(entries, key) {
            let k = key_index(entries, key);
            assert(keys[k] == key);
        }
    }
    assert(keys.to_set() =~= map_of(entries).dom());
}

} // verus!
