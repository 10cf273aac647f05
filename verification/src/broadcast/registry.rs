use vstd::prelude::*;

verus! {

/// What is kept under each key, for keys and values that stand in two lists
/// side by side: the value at a key's place in `keys` is the one at the same
/// place in `vals`.
pub open spec fn paired<K, V>(keys: Seq<K>, vals: Seq<V>) -> Map<K, V> {
    Map::new(|key: K| keys.contains(key), |key: K| vals[keys.index_of(key)])
}

/// Among distinct keys, a key is found at its place, and what is kept under
/// it is the value at that place.
pub proof fn lemma_paired_at<K, V>(keys: Seq<K>, vals: Seq<V>, at: int)
    requires
        keys.no_duplicates(),
        0 <= at < keys.len(),
    ensures
        keys.contains(keys[at]),
        keys.index_of(keys[at]) == at,
        paired(keys, vals).contains_key(keys[at]),
        paired(keys, vals)[keys[at]] == vals[at],
{
    assert(keys.contains(keys[at]));
    let chosen = keys.index_of(keys[at]);
    assert(0 <= chosen < keys.len() && keys[chosen] == keys[at]);
}

/// A new value at a key's place is kept under that key, and nothing else
/// changes.
pub proof fn lemma_paired_update<K, V>(keys: Seq<K>, vals: Seq<V>, at: int, val: V)
    requires
        keys.no_duplicates(),
        keys.len() == vals.len(),
        0 <= at < keys.len(),
    ensures
        paired(keys, vals.update(at, val)) == paired(keys, vals).insert(keys[at], val),
{
    let after = vals.update(at, val);
    assert forall|key: K| keys.contains(key) implies #[trigger] paired(keys, after)[key] == paired(
        keys,
        vals,
    ).insert(keys[at], val)[key] by {
        let i = keys.index_of(key);
        assert(0 <= i < keys.len() && keys[i] == key);
        lemma_paired_at(keys, vals, i);
        lemma_paired_at(keys, after, i);
    }
    lemma_paired_at(keys, vals, at);
    assert(paired(keys, after) =~= paired(keys, vals).insert(keys[at], val));
}

/// A new key at the end, with its value, is one more entry, and nothing
/// else changes.
pub proof fn lemma_paired_push<K, V>(keys: Seq<K>, vals: Seq<V>, key: K, val: V)
    requires
        keys.no_duplicates(),
        keys.len() == vals.len(),
        !keys.contains(key),
    ensures
        keys.push(key).no_duplicates(),
        paired(keys.push(key), vals.push(val)) == paired(keys, vals).insert(key, val),
{
    let more_keys = keys.push(key);
    let more_vals = vals.push(val);
    assert forall|i: int, j: int| 0 <= i < j < more_keys.len() implies more_keys[i]
        != more_keys[j] by {
        if j < keys.len() {
            assert(keys[i] != keys[j]);
        } else {
            assert(keys[i] == more_keys[i]);
            assert(keys.contains(keys[i]));
        }
    }
    assert forall|other: K| more_keys.contains(other) <==> keys.contains(other) || other
        == key by {
        if more_keys.contains(other) {
            let i = more_keys.index_of(other);
            if i < keys.len() {
                assert(keys[i] == other);
            }
        }
        if keys.contains(other) {
            let i = keys.index_of(other);
            assert(more_keys[i] == other);
        }
        if other == key {
            assert(more_keys[keys.len() as int] == other);
        }
    }
    assert forall|other: K| more_keys.contains(other) implies #[trigger] paired(
        more_keys,
        more_vals,
    )[other] == paired(keys, vals).insert(key, val)[other] by {
        let i = more_keys.index_of(other);
        assert(0 <= i < more_keys.len() && more_keys[i] == other);
        lemma_paired_at(more_keys, more_vals, i);
        if i < keys.len() {
            assert(keys[i] == other);
            lemma_paired_at(keys, vals, i);
        }
    }
    assert(paired(more_keys, more_vals) =~= paired(keys, vals).insert(key, val));
}

/// Without a key and the value at its place, that key's entry is gone, and
/// nothing else changes.
pub proof fn lemma_paired_remove<K, V>(keys: Seq<K>, vals: Seq<V>, at: int)
    requires
        keys.no_duplicates(),
        keys.len() == vals.len(),
        0 <= at < keys.len(),
    ensures
        keys.remove(at).no_duplicates(),
        paired(keys.remove(at), vals.remove(at)) == paired(keys, vals).remove(keys[at]),
{
    let fewer_keys = keys.remove(at);
    let fewer_vals = vals.remove(at);
    assert forall|i: int, j: int| 0 <= i < j < fewer_keys.len() implies fewer_keys[i]
        != fewer_keys[j] by {
        let from_i = if i < at { i } else { i + 1 };
        let from_j = if j < at { j } else { j + 1 };
        assert(keys[from_i] != keys[from_j]);
    }
    assert forall|other: K| fewer_keys.contains(other) <==> keys.contains(other) && other
        != keys[at] by {
        if fewer_keys.contains(other) {
            let i = fewer_keys.index_of(other);
            let from = if i < at { i } else { i + 1 };
            assert(keys[from] == other);
            assert(keys[from] != keys[at]);
        }
        if keys.contains(other) && other != keys[at] {
            let i = keys.index_of(other);
            let to = if i < at { i } else { i - 1 };
            assert(fewer_keys[to] == other);
        }
    }
    assert forall|other: K| fewer_keys.contains(other) implies #[trigger] paired(
        fewer_keys,
        fewer_vals,
    )[other] == paired(keys, vals).remove(keys[at])[other] by {
        let i = fewer_keys.index_of(other);
        assert(0 <= i < fewer_keys.len() && fewer_keys[i] == other);
        let from = if i < at { i } else { i + 1 };
        assert(keys[from] == other);
        lemma_paired_at(fewer_keys, fewer_vals, i);
        lemma_paired_at(keys, vals, from);
    }
    assert(paired(fewer_keys, fewer_vals) =~= paired(keys, vals).remove(keys[at]));
}

} // verus!
