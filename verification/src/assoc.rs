//! Lists of key-value pairs read as maps.
//!
//! The trackers keep their records in vectors. Their contracts speak of maps; the lemmas
//! here carry each change of a list over to the map that it stands for.

use vstd::prelude::*;

verus! {

/// Some pair of the list has the key `key`.
pub open spec fn has_key<K, V>(pairs: Seq<(K, V)>, key: K) -> bool {
    exists|i: int| 0 <= i < pairs.len() && (#[trigger] pairs[i]).0 == key
}

/// A place at which the list has the key `key`, where there is one.
pub open spec fn position_of<K, V>(pairs: Seq<(K, V)>, key: K) -> int {
    choose|i: int| 0 <= i < pairs.len() && (#[trigger] pairs[i]).0 == key
}

/// No key occurs twice in the list.
pub open spec fn distinct_keys<K, V>(pairs: Seq<(K, V)>) -> bool {
    forall|i: int, j: int|
        0 <= i < j < pairs.len() ==> (#[trigger] pairs[i]).0 != (#[trigger] pairs[j]).0
}

/// The map that the list stands for.
pub open spec fn as_map<K, V>(pairs: Seq<(K, V)>) -> Map<K, V> {
    Map::new(|key: K| has_key(pairs, key), |key: K| pairs[position_of(pairs, key)].1)
}

/// The part of a map whose entries satisfy `keep`.
pub open spec fn retained<K, V>(map: Map<K, V>, keep: spec_fn(K, V) -> bool) -> Map<K, V> {
    Map::new(|key: K| map.dom().contains(key) && keep(key, map[key]), |key: K| map[key])
}

/// Each pair of a list without repeated keys is an entry of its map.
pub proof fn lemma_as_map_at<K, V>(pairs: Seq<(K, V)>, i: int)
    requires
        distinct_keys(pairs),
        0 <= i < pairs.len(),
    ensures
        as_map(pairs).dom().contains(pairs[i].0),
        as_map(pairs)[pairs[i].0] == pairs[i].1,
{
    let key = pairs[i].0;
    assert(has_key(pairs, key));
    let at = position_of(pairs, key);
    assert(0 <= at < pairs.len() && pairs[at].0 == key);
    if at < i {
        assert(pairs[at].0 != pairs[i].0);
    } else if i < at {
        assert(pairs[i].0 != pairs[at].0);
    }
}

/// A key of the map sits at some place of the list, with its value.
pub proof fn lemma_as_map_key<K, V>(pairs: Seq<(K, V)>, key: K) -> (i: int)
    requires
        as_map(pairs).dom().contains(key),
    ensures
        0 <= i < pairs.len(),
        pairs[i].0 == key,
        as_map(pairs)[key] == pairs[i].1,
{
    assert(has_key(pairs, key));
    position_of(pairs, key)
}

/// The empty list stands for the empty map.
pub proof fn lemma_as_map_empty<K, V>()
    ensures
        as_map(Seq::<(K, V)>::empty()) == Map::<K, V>::empty(),
        distinct_keys(Seq::<(K, V)>::empty()),
{
    assert(as_map(Seq::<(K, V)>::empty()) =~= Map::<K, V>::empty());
}

/// Adding a pair with a new key at the end inserts it into the map.
pub proof fn lemma_as_map_push<K, V>(pairs: Seq<(K, V)>, key: K, value: V)
    requires
        distinct_keys(pairs),
        !has_key(pairs, key),
    ensures
        distinct_keys(pairs.push((key, value))),
        as_map(pairs.push((key, value))) == as_map(pairs).insert(key, value),
{
    let longer = pairs.push((key, value));
    assert forall|i: int, j: int| 0 <= i < j < longer.len() implies (#[trigger] longer[i]).0 != (
    #[trigger] longer[j]).0 by {
        if j == pairs.len() {
            assert(pairs[i].0 != key);
        } else {
            assert(pairs[i].0 != pairs[j].0);
        }
    }
    assert forall|k: K| #[trigger]
        as_map(longer).dom().contains(k) <==> as_map(pairs).insert(key, value).dom().contains(
            k,
        ) by {
        if has_key(longer, k) {
            let at = position_of(longer, k);
            if at < pairs.len() {
                assert(pairs[at].0 == k);
            }
        }
        if has_key(pairs, k) {
            let at = position_of(pairs, k);
            assert(longer[at].0 == k);
        }
        if k == key {
            assert(longer[pairs.len() as int].0 == k);
        }
    }
    assert forall|k: K| #[trigger] as_map(longer).dom().contains(k) implies as_map(longer)[k]
        == as_map(pairs).insert(key, value)[k] by {
        let at = lemma_as_map_key(longer, k);
        if at < pairs.len() {
            assert(pairs[at].0 == k);
            lemma_as_map_at(pairs, at);
        }
    }
    assert(as_map(longer) =~= as_map(pairs).insert(key, value));
}

/// Replacing the value at a place replaces the value of that key in the map.
pub proof fn lemma_as_map_update<K, V>(pairs: Seq<(K, V)>, i: int, value: V)
    requires
        distinct_keys(pairs),
        0 <= i < pairs.len(),
    ensures
        distinct_keys(pairs.update(i, (pairs[i].0, value))),
        as_map(pairs.update(i, (pairs[i].0, value))) == as_map(pairs).insert(pairs[i].0, value),
{
    let key = pairs[i].0;
    let changed = pairs.update(i, (key, value));
    assert forall|a: int, b: int| 0 <= a < b < changed.len() implies (#[trigger] changed[a]).0 != (
    #[trigger] changed[b]).0 by {
        assert(pairs[a].0 != pairs[b].0);
    }
    assert forall|k: K| #[trigger]
        as_map(changed).dom().contains(k) <==> as_map(pairs).insert(key, value).dom().contains(
            k,
        ) by {
        if has_key(changed, k) {
            let at = position_of(changed, k);
            assert(pairs[at].0 == k);
        }
        if has_key(pairs, k) {
            let at = position_of(pairs, k);
            assert(changed[at].0 == k);
        }
        if k == key {
            assert(changed[i].0 == k);
        }
    }
    assert forall|k: K| #[trigger] as_map(changed).dom().contains(k) implies as_map(changed)[k]
        == as_map(pairs).insert(key, value)[k] by {
        let at = lemma_as_map_key(changed, k);
        lemma_as_map_at(changed, at);
        if at != i {
            assert(pairs[at].0 == k);
            lemma_as_map_at(pairs, at);
            if at < i {
                assert(pairs[at].0 != pairs[i].0);
            } else {
                assert(pairs[i].0 != pairs[at].0);
            }
        }
    }
    assert(as_map(changed) =~= as_map(pairs).insert(key, value));
}

/// Putting the last pair of a list into the place of another and dropping the last place
/// removes the key of that other pair from the map.
pub proof fn lemma_as_map_swap_remove<K, V>(pairs: Seq<(K, V)>, i: int)
    requires
        distinct_keys(pairs),
        0 <= i < pairs.len(),
    ensures
        distinct_keys(pairs.update(i, pairs.last()).drop_last()),
        as_map(pairs.update(i, pairs.last()).drop_last()) == as_map(pairs).remove(pairs[i].0),
{
    let key = pairs[i].0;
    let last = pairs.len() - 1;
    let shorter = pairs.update(i, pairs.last()).drop_last();
    assert forall|a: int, b: int| 0 <= a < b < shorter.len() implies (#[trigger] shorter[a]).0 != (
    #[trigger] shorter[b]).0 by {
        let from_a = if a == i {
            last
        } else {
            a
        };
        let from_b = if b == i {
            last
        } else {
            b
        };
        if from_a < from_b {
            assert(pairs[from_a].0 != pairs[from_b].0);
        } else {
            assert(pairs[from_b].0 != pairs[from_a].0);
        }
    }
    assert forall|k: K| #[trigger]
        as_map(shorter).dom().contains(k) <==> as_map(pairs).remove(key).dom().contains(k) by {
        if has_key(shorter, k) {
            let at = position_of(shorter, k);
            let from = if at == i {
                last
            } else {
                at
            };
            assert(pairs[from].0 == k);
            if from < i {
                assert(pairs[from].0 != pairs[i].0);
            } else {
                assert(pairs[i].0 != pairs[from].0);
            }
        }
        if has_key(pairs, k) && k != key {
            let at = position_of(pairs, k);
            let to = if at == last {
                i
            } else {
                at
            };
            assert(shorter[to].0 == k);
        }
    }
    assert forall|k: K| #[trigger] as_map(shorter).dom().contains(k) implies as_map(shorter)[k]
        == as_map(pairs).remove(key)[k] by {
        let at = lemma_as_map_key(shorter, k);
        let from = if at == i {
            last
        } else {
            at
        };
        assert(pairs[from].0 == k);
        lemma_as_map_at(pairs, from);
    }
    assert(as_map(shorter) =~= as_map(pairs).remove(key));
}

/// Removing an entry that fails `keep` leaves what is retained as it was.
pub proof fn lemma_retained_remove_dropped<K, V>(
    map: Map<K, V>,
    keep: spec_fn(K, V) -> bool,
    key: K,
)
    requires
        map.dom().contains(key) ==> !keep(key, map[key]),
    ensures
        retained(map.remove(key), keep) == retained(map, keep),
{
    assert(retained(map.remove(key), keep) =~= retained(map, keep));
}

/// Where every entry satisfies `keep`, everything is retained.
pub proof fn lemma_retained_all<K, V>(map: Map<K, V>, keep: spec_fn(K, V) -> bool)
    requires
        forall|key: K| #[trigger] map.dom().contains(key) ==> keep(key, map[key]),
    ensures
        retained(map, keep) == map,
{
    assert(retained(map, keep) =~= map);
}

} // verus!
