use vstd::prelude::*;

verus! {

/// `i` is the first position in `entries` whose key is `key`.
pub open spec fn first_key<K, V>(entries: Seq<(K, V)>, key: K, i: int) -> bool {
    &&& 0 <= i < entries.len()
    &&& entries[i].0 == key
    &&& forall|j: int| 0 <= j < i ==> entries[j].0 != key
}

/// Some entry has the key `key`.
pub open spec fn has_key<K, V>(entries: Seq<(K, V)>, key: K) -> bool {
    exists|i: int| 0 <= i < entries.len() && entries[i].0 == key
}

/// Position of the first entry with key `key`, or -1.
pub open spec fn key_position<K, V>(entries: Seq<(K, V)>, key: K) -> int {
    if has_key(entries, key) {
        choose|i: int| first_key(entries, key, i)
    } else {
        -1
    }
}

/// The value of the first entry with key `key`.
pub open spec fn key_lookup<K, V>(entries: Seq<(K, V)>, key: K) -> Option<V> {
    if has_key(entries, key) {
        Some(entries[key_position(entries, key)].1)
    } else {
        None
    }
}

/// `entries` with the value of the first entry with key `key` set to `value`,
/// or with the entry appended when no entry has that key.
pub open spec fn key_upsert<K, V>(entries: Seq<(K, V)>, key: K, value: V) -> Seq<(K, V)> {
    if has_key(entries, key) {
        entries.update(key_position(entries, key), (key, value))
    } else {
        entries.push((key, value))
    }
}

/// `entries` without the first entry with key `key`.
pub open spec fn key_remove<K, V>(entries: Seq<(K, V)>, key: K) -> Seq<(K, V)> {
    if has_key(entries, key) { entries.remove(key_position(entries, key)) } else { entries }
}

/// The keys of `entries` are pairwise distinct.
pub open spec fn distinct_keys<K, V>(entries: Seq<(K, V)>) -> bool {
    forall|i: int, j: int| 0 <= i < j < entries.len() ==> entries[i].0 != entries[j].0
}

proof fn lemma_first_key_exists<K, V>(entries: Seq<(K, V)>, key: K, w: int)
    requires
        0 <= w < entries.len(),
        entries[w].0 == key,
    ensures
        exists|i: int| first_key(entries, key, i),
    decreases w,
{
    if forall|j: int| 0 <= j < w ==> entries[j].0 != key {
        assert(first_key(entries, key, w));
    } else {
        let j = choose|j: int| 0 <= j < w && entries[j].0 == key;
        lemma_first_key_exists(entries, key, j);
    }
}

/// The first entry with a key exists when some entry has the key, and is unique.
pub proof fn lemma_key_position<K, V>(entries: Seq<(K, V)>, key: K)
    ensures
        has_key(entries, key) ==> first_key(entries, key, key_position(entries, key)),
        forall|i: int| #[trigger] first_key(entries, key, i) ==> i == key_position(entries, key),
        !has_key(entries, key) ==> key_position(entries, key) == -1,
{
    if has_key(entries, key) {
        let w = choose|i: int| 0 <= i < entries.len() && entries[i].0 == key;
        lemma_first_key_exists(entries, key, w);
        let p = key_position(entries, key);
        assert forall|i: int| #[trigger] first_key(entries, key, i) implies i == p by {
            if i < p {
                assert(entries[i].0 != key);
            } else if p < i {
                assert(entries[p].0 != key);
            }
        }
    }
}

/// Upserting keeps keys distinct, and the upserted key then maps to the value.
pub proof fn lemma_key_upsert<K, V>(entries: Seq<(K, V)>, key: K, value: V)
    ensures
        distinct_keys(entries) ==> distinct_keys(key_upsert(entries, key, value)),
        key_lookup(key_upsert(entries, key, value), key) == Some(value),
        forall|k: K| k != key ==> #[trigger] key_lookup(key_upsert(entries, key, value), k) == key_lookup(entries, k),
{
    lemma_key_position(entries, key);
    let u = key_upsert(entries, key, value);
    lemma_key_position(u, key);
    if has_key(entries, key) {
        let p = key_position(entries, key);
        assert(first_key(u, key, p));
    } else {
        assert(first_key(u, key, entries.len() as int));
    }
    assert forall|k: K| k != key implies #[trigger] key_lookup(u, k) == key_lookup(entries, k) by {
        lemma_key_position(entries, k);
        lemma_key_position(u, k);
        if has_key(entries, k) {
            let q = key_position(entries, k);
            assert(first_key(u, k, q));
        } else {
            if has_key(u, k) {
                let i = choose|i: int| 0 <= i < u.len() && u[i].0 == k;
                assert(entries[i].0 == k);
            }
        }
    }
}

/// Removing a key keeps the other keys distinct and their values unchanged.
pub proof fn lemma_key_remove<K, V>(entries: Seq<(K, V)>, key: K)
    ensures
        distinct_keys(entries) ==> distinct_keys(key_remove(entries, key)),
        distinct_keys(entries) ==> key_lookup(key_remove(entries, key), key) is None,
        forall|k: K| k != key ==> #[trigger] key_lookup(key_remove(entries, key), k) == key_lookup(entries, k),
{
    lemma_key_position(entries, key);
    let r = key_remove(entries, key);
    if has_key(entries, key) {
        let p = key_position(entries, key);
        if distinct_keys(entries) && has_key(r, key) {
            let i = choose|i: int| 0 <= i < r.len() && r[i].0 == key;
            if i < p {
                assert(entries[i].0 == key);
            } else {
                assert(entries[i + 1].0 == key);
            }
        }
        assert forall|k: K| k != key implies #[trigger] key_lookup(r, k) == key_lookup(entries, k) by {
            lemma_key_position(entries, k);
            lemma_key_position(r, k);
            if has_key(entries, k) {
                let q = key_position(entries, k);
                assert(q != p);
                if q < p {
                    assert(first_key(r, k, q));
                } else {
                    assert(first_key(r, k, q - 1));
                }
            } else if has_key(r, k) {
                let i = choose|i: int| 0 <= i < r.len() && r[i].0 == k;
                if i < p {
                    assert(entries[i].0 == k);
                } else {
                    assert(entries[i + 1].0 == k);
                }
            }
        }
    }
}

} // verus!
