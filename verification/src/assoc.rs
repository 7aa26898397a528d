//! Sequences of key and value pairs read as maps.

use vstd::prelude::*;

verus! {

/// The map that `pairs` builds when each pair is inserted in turn: of two
/// pairs with one key, the later one stays.
pub open spec fn to_map<K, V>(pairs: Seq<(K, V)>) -> Map<K, V>
    decreases pairs.len(),
{
    if pairs.len() == 0 {
        Map::empty()
    } else {
        to_map(pairs.drop_last()).insert(pairs.last().0, pairs.last().1)
    }
}

/// Whether no key stands in two pairs.
pub open spec fn distinct_keys<K, V>(pairs: Seq<(K, V)>) -> bool {
    forall|i: int, j: int| 0 <= i < j < pairs.len() ==> (#[trigger] pairs[i]).0 != (#[trigger] pairs[j]).0
}

/// Whether some pair has the key `key`.
pub open spec fn has_key<K, V>(pairs: Seq<(K, V)>, key: K) -> bool {
    exists|i: int| 0 <= i < pairs.len() && (#[trigger] pairs[i]).0 == key
}

/// The place of a pair with the key `key`, where there is one.
pub open spec fn index_of_key<K, V>(pairs: Seq<(K, V)>, key: K) -> int {
    choose|i: int| 0 <= i < pairs.len() && (#[trigger] pairs[i]).0 == key
}

/// The pairs after `value` is put under `key`: in the place of the value
/// that `key` had, or, where it had none, as a new pair at the end.
pub open spec fn put<K, V>(pairs: Seq<(K, V)>, key: K, value: V) -> Seq<(K, V)> {
    if has_key(pairs, key) {
        pairs.update(index_of_key(pairs, key), (key, value))
    } else {
        pairs.push((key, value))
    }
}

/// The value that `map` holds under `key`, or `otherwise` where it holds
/// none.
pub open spec fn value_or<K, V>(map: Map<K, V>, key: K, otherwise: V) -> V {
    if map.contains_key(key) {
        map[key]
    } else {
        otherwise
    }
}

/// The keys of the map are the keys of the pairs.
pub proof fn lemma_to_map_keys<K, V>(pairs: Seq<(K, V)>, key: K)
    ensures
        to_map(pairs).contains_key(key) <==> has_key(pairs, key),
    decreases pairs.len(),
{
    if pairs.len() > 0 {
        let front = pairs.drop_last();
        lemma_to_map_keys(front, key);
        if has_key(front, key) {
            let i = choose|i: int| 0 <= i < front.len() && (#[trigger] front[i]).0 == key;
            assert(pairs[i].0 == key);
        }
        if has_key(pairs, key) {
            let i = choose|i: int| 0 <= i < pairs.len() && (#[trigger] pairs[i]).0 == key;
            if i < front.len() {
                assert(front[i].0 == key);
            }
        }
        if pairs.last().0 == key {
            assert(pairs[pairs.len() - 1].0 == key);
        }
    }
}

/// Where the keys are distinct, the map gives each key the value that stands
/// beside it.
pub proof fn lemma_to_map_at<K, V>(pairs: Seq<(K, V)>, i: int)
    requires
        distinct_keys(pairs),
        0 <= i < pairs.len(),
    ensures
        to_map(pairs).contains_key(pairs[i].0),
        to_map(pairs)[pairs[i].0] == pairs[i].1,
    decreases pairs.len(),
{
    let front = pairs.drop_last();
    if i < pairs.len() - 1 {
        assert(distinct_keys(front)) by {
            assert forall|a: int, b: int| 0 <= a < b < front.len() implies (#[trigger] front[a]).0
                != (#[trigger] front[b]).0 by {
                assert(pairs[a].0 != pairs[b].0);
            }
        }
        lemma_to_map_at(front, i);
        assert(front[i] == pairs[i]);
        assert(pairs[i].0 != pairs[pairs.len() - 1].0);
    }
}

/// Where the keys are distinct, a new value put in the place of a pair's old
/// one is inserted into the map under that pair's key.
pub proof fn lemma_to_map_update<K, V>(pairs: Seq<(K, V)>, i: int, value: V)
    requires
        distinct_keys(pairs),
        0 <= i < pairs.len(),
    ensures
        distinct_keys(pairs.update(i, (pairs[i].0, value))),
        to_map(pairs.update(i, (pairs[i].0, value))) == to_map(pairs).insert(pairs[i].0, value),
    decreases pairs.len(),
{
    let key = pairs[i].0;
    let after = pairs.update(i, (key, value));
    assert(distinct_keys(after)) by {
        assert forall|a: int, b: int| 0 <= a < b < after.len() implies (#[trigger] after[a]).0
            != (#[trigger] after[b]).0 by {
            assert(pairs[a].0 != pairs[b].0);
        }
    }
    let front = pairs.drop_last();
    if i == pairs.len() - 1 {
        assert(after.drop_last() =~= front);
        assert(to_map(after) =~= to_map(pairs).insert(key, value));
    } else {
        assert(distinct_keys(front)) by {
            assert forall|a: int, b: int| 0 <= a < b < front.len() implies (#[trigger] front[a]).0
                != (#[trigger] front[b]).0 by {
                assert(pairs[a].0 != pairs[b].0);
            }
        }
        lemma_to_map_update(front, i, value);
        assert(front[i] == pairs[i]);
        assert(after.drop_last() =~= front.update(i, (key, value)));
        assert(after.last() == pairs.last());
        assert(pairs[i].0 != pairs[pairs.len() - 1].0);
        assert(to_map(after) =~= to_map(pairs).insert(key, value));
    }
}

/// A pair with a new key, put at the end, is inserted into the map and
/// leaves the keys distinct.
pub proof fn lemma_to_map_push<K, V>(pairs: Seq<(K, V)>, key: K, value: V)
    requires
        distinct_keys(pairs),
        !has_key(pairs, key),
    ensures
        distinct_keys(pairs.push((key, value))),
        to_map(pairs.push((key, value))) == to_map(pairs).insert(key, value),
{
    let after = pairs.push((key, value));
    assert(after.drop_last() =~= pairs);
    assert forall|a: int, b: int| 0 <= a < b < after.len() implies (#[trigger] after[a]).0 != (
    #[trigger] after[b]).0 by {
        if b < pairs.len() {
            assert(pairs[a].0 != pairs[b].0);
        } else {
            assert(pairs[a].0 != key);
        }
    }
}

/// Where the keys are distinct, a key stands at one place only.
pub proof fn lemma_index_of_key<K, V>(pairs: Seq<(K, V)>, i: int)
    requires
        distinct_keys(pairs),
        0 <= i < pairs.len(),
    ensures
        has_key(pairs, pairs[i].0),
        index_of_key(pairs, pairs[i].0) == i,
{
    let key = pairs[i].0;
    assert(has_key(pairs, key));
    let j = index_of_key(pairs, key);
    if j < i {
        assert(pairs[j].0 != pairs[i].0);
    } else if i < j {
        assert(pairs[i].0 != pairs[j].0);
    }
}

/// After a value is put under a key, each pair is that key with that value
/// or a pair that was there before.
pub proof fn lemma_put_pairs<K, V>(pairs: Seq<(K, V)>, key: K, value: V, i: int)
    requires
        0 <= i < put(pairs, key, value).len(),
    ensures
        put(pairs, key, value)[i] == (key, value) || (i < pairs.len() && put(pairs, key, value)[i]
            == pairs[i]),
{
}

/// Putting a value under a key inserts it into the map and leaves the keys
/// distinct.
pub proof fn lemma_to_map_put<K, V>(pairs: Seq<(K, V)>, key: K, value: V)
    requires
        distinct_keys(pairs),
    ensures
        distinct_keys(put(pairs, key, value)),
        to_map(put(pairs, key, value)) == to_map(pairs).insert(key, value),
{
    if has_key(pairs, key) {
        lemma_to_map_update(pairs, index_of_key(pairs, key), value);
    } else {
        lemma_to_map_push(pairs, key, value);
    }
}

} // verus!
