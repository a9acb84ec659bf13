//! The mathematical model of a keyed record store: a sequence of records,
//! each carrying its own key, viewed as a map from key to record.

use vstd::prelude::*;

verus! {

/// The map that a sequence of keyed records denotes. A later record with the
/// same key would shadow an earlier one, but the stores keep keys unique.
pub open spec fn keyed_map<K, V>(s: Seq<V>, key: spec_fn(V) -> K) -> Map<K, V>
    decreases s.len(),
{
    if s.len() == 0 {
        Map::empty()
    } else {
        keyed_map(s.drop_last(), key).insert(key(s.last()), s.last())
    }
}

/// No two records of the sequence share a key.
pub open spec fn keys_unique<K, V>(s: Seq<V>, key: spec_fn(V) -> K) -> bool {
    forall|i: int, j: int| 0 <= i < j < s.len() ==> key(#[trigger] s[i]) != key(#[trigger] s[j])
}

/// A key is in the map's domain exactly when some record carries it.
pub proof fn lemma_keyed_map_dom<K, V>(s: Seq<V>, key: spec_fn(V) -> K)
    ensures
        forall|k: K|
            #[trigger] keyed_map(s, key).dom().contains(k) <==> exists|i: int|
                0 <= i < s.len() && key(#[trigger] s[i]) == k,
    decreases s.len(),
{
    if s.len() > 0 {
        lemma_keyed_map_dom(s.drop_last(), key);
        assert forall|k: K| #[trigger]
            keyed_map(s, key).dom().contains(k) implies exists|i: int|
            0 <= i < s.len() && key(#[trigger] s[i]) == k by {
            if k == key(s.last()) {
                assert(key(s[s.len() - 1]) == k);
            } else {
                assert(keyed_map(s.drop_last(), key).dom().contains(k));
                let i = choose|i: int|
                    0 <= i < s.drop_last().len() && key(#[trigger] s.drop_last()[i]) == k;
                assert(s.drop_last()[i] == s[i]);
            }
        }
        assert forall|k: K|
            (exists|i: int| 0 <= i < s.len() && key(#[trigger] s[i]) == k) implies #[trigger]
            keyed_map(s, key).dom().contains(k) by {
            let i = choose|i: int| 0 <= i < s.len() && key(#[trigger] s[i]) == k;
            if i < s.len() - 1 {
                assert(s.drop_last()[i] == s[i]);
                assert(keyed_map(s.drop_last(), key).dom().contains(k));
            }
        }
    }
}

/// With unique keys, the map sends each record's key to that record.
pub proof fn lemma_keyed_map_index<K, V>(s: Seq<V>, key: spec_fn(V) -> K, i: int)
    requires
        keys_unique(s, key),
        0 <= i < s.len(),
    ensures
        keyed_map(s, key).dom().contains(key(s[i])),
        keyed_map(s, key)[key(s[i])] == s[i],
    decreases s.len(),
{
    if i == s.len() - 1 {
    } else {
        assert(s.drop_last()[i] == s[i]);
        lemma_keyed_map_index(s.drop_last(), key, i);
        assert(key(s[i]) != key(s[s.len() - 1]));
    }
}

/// Appending a record inserts it into the map.
pub proof fn lemma_keyed_map_push<K, V>(s: Seq<V>, key: spec_fn(V) -> K, v: V)
    ensures
        keyed_map(s.push(v), key) == keyed_map(s, key).insert(key(v), v),
{
    assert(s.push(v).drop_last() =~= s);
    assert(s.push(v).last() == v);
}

/// Overwriting the record at an index with one carrying the same key
/// re-inserts it into the map.
pub proof fn lemma_keyed_map_update<K, V>(s: Seq<V>, key: spec_fn(V) -> K, i: int, v: V)
    requires
        keys_unique(s, key),
        0 <= i < s.len(),
        key(v) == key(s[i]),
    ensures
        keyed_map(s.update(i, v), key) == keyed_map(s, key).insert(key(v), v),
    decreases s.len(),
{
    let t = s.update(i, v);
    if i == s.len() - 1 {
        assert(t.drop_last() =~= s.drop_last());
        assert(t.last() == v);
        assert(keyed_map(s.drop_last(), key).insert(key(s.last()), s.last()).insert(key(v), v)
            =~= keyed_map(s.drop_last(), key).insert(key(v), v));
    } else {
        assert(t.drop_last() =~= s.drop_last().update(i, v));
        assert(t.last() == s.last());
        assert(s.drop_last()[i] == s[i]);
        lemma_keyed_map_update(s.drop_last(), key, i, v);
        assert(key(s[i]) != key(s[s.len() - 1]));
        assert(keyed_map(s.drop_last(), key).insert(key(v), v).insert(key(s.last()), s.last())
            =~= keyed_map(s.drop_last(), key).insert(key(s.last()), s.last()).insert(key(v), v));
    }
}

/// Removing the record at an index removes its key from the map.
pub proof fn lemma_keyed_map_remove<K, V>(s: Seq<V>, key: spec_fn(V) -> K, i: int)
    requires
        keys_unique(s, key),
        0 <= i < s.len(),
    ensures
        keyed_map(s.remove(i), key) == keyed_map(s, key).remove(key(s[i])),
    decreases s.len(),
{
    let t = s.remove(i);
    if i == s.len() - 1 {
        assert(t =~= s.drop_last());
        lemma_keyed_map_dom(s.drop_last(), key);
        assert forall|j: int| 0 <= j < s.drop_last().len() implies key(#[trigger] s.drop_last()[j])
            != key(s.last()) by {
            assert(s.drop_last()[j] == s[j]);
        }
        assert(!keyed_map(s.drop_last(), key).dom().contains(key(s.last())));
        assert(keyed_map(s.drop_last(), key).insert(key(s.last()), s.last()).remove(key(s.last()))
            =~= keyed_map(s.drop_last(), key));
    } else {
        assert(t.drop_last() =~= s.drop_last().remove(i));
        assert(t.last() == s.last());
        assert(s.drop_last()[i] == s[i]);
        lemma_keyed_map_remove(s.drop_last(), key, i);
        assert(key(s[i]) != key(s[s.len() - 1]));
        assert(keyed_map(s.drop_last(), key).remove(key(s[i])).insert(key(s.last()), s.last())
            =~= keyed_map(s.drop_last(), key).insert(key(s.last()), s.last()).remove(key(s[i])));
    }
}

} // verus!
