//! Finite maps kept as vectors of key/value pairs with distinct keys.

use vstd::prelude::*;

verus! {

/// Some entry of `entries` has key `k`.
pub open spec fn has_key<K, V>(entries: Seq<(K, V)>, k: K) -> bool {
    exists|i: int| 0 <= i < entries.len() && (#[trigger] entries[i]).0 == k
}

/// No two entries share a key.
pub open spec fn keys_unique<K, V>(entries: Seq<(K, V)>) -> bool {
    forall|i: int, j: int|
        0 <= i < entries.len() && 0 <= j < entries.len() && i != j ==> (#[trigger] entries[i]).0
            != (#[trigger] entries[j]).0
}

/// Position of the entry with key `k` (meaningful when `has_key(entries, k)`).
pub open spec fn key_index<K, V>(entries: Seq<(K, V)>, k: K) -> int {
    choose|i: int| 0 <= i < entries.len() && (#[trigger] entries[i]).0 == k
}

/// The map that `entries` stands for.
pub open spec fn entries_map<K, V>(entries: Seq<(K, V)>) -> Map<K, V> {
    Map::new(|k: K| has_key(entries, k), |k: K| entries[key_index(entries, k)].1)
}

/// With distinct keys, the entry at `i` is the one the map holds for its key.
pub proof fn lemma_entry_at<K, V>(entries: Seq<(K, V)>, i: int)
    requires
        keys_unique(entries),
        0 <= i < entries.len(),
    ensures
        has_key(entries, entries[i].0),
        key_index(entries, entries[i].0) == i,
        entries_map(entries).contains_key(entries[i].0),
        entries_map(entries)[entries[i].0] == entries[i].1,
{
    let k = entries[i].0;
    assert(has_key(entries, k));
    let j = key_index(entries, k);
    if j != i {
        assert(entries[j].0 != entries[i].0);
    }
}

/// Removing the entry at `i` removes its key from the map.
pub proof fn lemma_remove_entry<K, V>(entries: Seq<(K, V)>, i: int)
    requires
        keys_unique(entries),
        0 <= i < entries.len(),
    ensures
        keys_unique(entries.remove(i)),
        entries_map(entries.remove(i)) == entries_map(entries).remove(entries[i].0),
{
    let after = entries.remove(i);
    let k = entries[i].0;
    assert forall|a: int, b: int|
        0 <= a < after.len() && 0 <= b < after.len() && a != b implies (#[trigger] after[a]).0
        != (#[trigger] after[b]).0 by {
        let a0 = if a < i { a } else { a + 1 };
        let b0 = if b < i { b } else { b + 1 };
        assert(after[a] == entries[a0]);
        assert(after[b] == entries[b0]);
    }
    assert forall|key: K| #[trigger] has_key(after, key) <==> has_key(entries, key) && key != k by {
        if has_key(after, key) {
            let a = choose|a: int| 0 <= a < after.len() && (#[trigger] after[a]).0 == key;
            let a0 = if a < i { a } else { a + 1 };
            assert(after[a] == entries[a0]);
            assert(entries[a0].0 != entries[i].0);
        }
        if has_key(entries, key) && key != k {
            let a0 = choose|a: int| 0 <= a < entries.len() && (#[trigger] entries[a]).0 == key;
            let a = if a0 < i { a0 } else { a0 - 1 };
            assert(after[a] == entries[a0]);
        }
    }
    assert forall|key: K| #[trigger] has_key(after, key) implies entries_map(after)[key]
        == entries_map(entries)[key] by {
        let a = choose|a: int| 0 <= a < after.len() && (#[trigger] after[a]).0 == key;
        let a0 = if a < i { a } else { a + 1 };
        assert(after[a] == entries[a0]);
        lemma_entry_at(after, a);
        lemma_entry_at(entries, a0);
    }
    assert(entries_map(after) =~= entries_map(entries).remove(k));
}

/// Replacing the value of the entry at `i` updates the map at its key.
pub proof fn lemma_update_entry<K, V>(entries: Seq<(K, V)>, i: int, v: V)
    requires
        keys_unique(entries),
        0 <= i < entries.len(),
    ensures
        keys_unique(entries.update(i, (entries[i].0, v))),
        entries_map(entries.update(i, (entries[i].0, v))) == entries_map(entries).insert(
            entries[i].0,
            v,
        ),
{
    let k = entries[i].0;
    let after = entries.update(i, (k, v));
    assert forall|a: int, b: int|
        0 <= a < after.len() && 0 <= b < after.len() && a != b implies (#[trigger] after[a]).0
        != (#[trigger] after[b]).0 by {
        assert(after[a].0 == entries[a].0);
        assert(after[b].0 == entries[b].0);
    }
    assert forall|key: K| #[trigger] has_key(after, key) <==> has_key(entries, key) by {
        if has_key(after, key) {
            let a = choose|a: int| 0 <= a < after.len() && (#[trigger] after[a]).0 == key;
            assert(entries[a].0 == key);
        }
        if has_key(entries, key) {
            let a = choose|a: int| 0 <= a < entries.len() && (#[trigger] entries[a]).0 == key;
            assert(after[a].0 == key);
        }
    }
    assert forall|key: K| #[trigger] has_key(after, key) implies entries_map(after)[key]
        == entries_map(entries).insert(k, v)[key] by {
        let a = choose|a: int| 0 <= a < after.len() && (#[trigger] after[a]).0 == key;
        lemma_entry_at(after, a);
        lemma_entry_at(entries, a);
    }
    lemma_entry_at(entries, i);
    assert(entries_map(after) =~= entries_map(entries).insert(k, v));
}

/// Appending an entry with a new key adds it to the map.
pub proof fn lemma_push_entry<K, V>(entries: Seq<(K, V)>, k: K, v: V)
    requires
        keys_unique(entries),
        !has_key(entries, k),
    ensures
        keys_unique(entries.push((k, v))),
        entries_map(entries.push((k, v))) == entries_map(entries).insert(k, v),
{
    let after = entries.push((k, v));
    assert forall|a: int, b: int|
        0 <= a < after.len() && 0 <= b < after.len() && a != b implies (#[trigger] after[a]).0
        != (#[trigger] after[b]).0 by {
        if a < entries.len() && b < entries.len() {
            assert(after[a] == entries[a]);
            assert(after[b] == entries[b]);
        } else if a < entries.len() {
            assert(after[a] == entries[a]);
        } else if b < entries.len() {
            assert(after[b] == entries[b]);
        }
    }
    assert forall|key: K| #[trigger] has_key(after, key) <==> has_key(entries, key) || key == k by {
        if has_key(after, key) {
            let a = choose|a: int| 0 <= a < after.len() && (#[trigger] after[a]).0 == key;
            if a < entries.len() {
                assert(after[a] == entries[a]);
            }
        }
        if has_key(entries, key) {
            let a = choose|a: int| 0 <= a < entries.len() && (#[trigger] entries[a]).0 == key;
            assert(after[a] == entries[a]);
        }
        if key == k {
            assert(after[entries.len() as int].0 == k);
        }
    }
    assert forall|key: K| #[trigger] has_key(after, key) implies entries_map(after)[key]
        == entries_map(entries).insert(k, v)[key] by {
        let a = choose|a: int| 0 <= a < after.len() && (#[trigger] after[a]).0 == key;
        lemma_entry_at(after, a);
        if a < entries.len() {
            assert(after[a] == entries[a]);
            lemma_entry_at(entries, a);
        }
    }
    assert(entries_map(after) =~= entries_map(entries).insert(k, v));
}

} // verus!
