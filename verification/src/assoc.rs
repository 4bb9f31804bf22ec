//! Association lists and the maps that they stand for.
use vstd::prelude::*;

verus! {

/// The map that a list of pairs stands for: a key has the value of its first pair.
pub open spec fn map_of<K, V>(pairs: Seq<(K, V)>) -> Map<K, V>
    decreases pairs.len(),
{
    if pairs.len() == 0 {
        Map::empty()
    } else {
        map_of(pairs.drop_first()).insert(pairs[0].0, pairs[0].1)
    }
}

/// The pair at `at` is the first of its key.
pub open spec fn first_at<K, V>(pairs: Seq<(K, V)>, key: K, at: int) -> bool {
    &&& 0 <= at < pairs.len()
    &&& pairs[at].0 == key
    &&& forall|j: int| 0 <= j < at ==> (#[trigger] pairs[j]).0 != key
}

/// No pair has the key.
pub open spec fn lacks<K, V>(pairs: Seq<(K, V)>, key: K) -> bool {
    forall|j: int| 0 <= j < pairs.len() ==> (#[trigger] pairs[j]).0 != key
}

/// The first pair of a key gives its value.
pub proof fn lookup<K, V>(pairs: Seq<(K, V)>, key: K, at: int)
    requires
        first_at(pairs, key, at),
    ensures
        map_of(pairs).contains_key(key),
        map_of(pairs)[key] == pairs[at].1,
    decreases pairs.len(),
{
    if at > 0 {
        let rest = pairs.drop_first();
        assert forall|j: int| 0 <= j < at - 1 implies (#[trigger] rest[j]).0 != key by {
            assert(rest[j] == pairs[j + 1]);
        }
        lookup(rest, key, at - 1);
    }
}

/// A key without a pair is not in the map.
pub proof fn absent<K, V>(pairs: Seq<(K, V)>, key: K)
    requires
        lacks(pairs, key),
    ensures
        !map_of(pairs).contains_key(key),
    decreases pairs.len(),
{
    if pairs.len() > 0 {
        let rest = pairs.drop_first();
        assert forall|j: int| 0 <= j < rest.len() implies (#[trigger] rest[j]).0 != key by {
            assert(rest[j] == pairs[j + 1]);
        }
        absent(rest, key);
    }
}

/// A key in the map has a pair that gives its value.
pub proof fn found<K, V>(pairs: Seq<(K, V)>, key: K)
    requires
        map_of(pairs).contains_key(key),
    ensures
        exists|i: int|
            0 <= i < pairs.len() && #[trigger] pairs[i] == (key, map_of(pairs)[key]),
    decreases pairs.len(),
{
    if pairs[0].0 == key {
        assert(pairs[0] == (key, map_of(pairs)[key]));
    } else {
        let rest = pairs.drop_first();
        found(rest, key);
        let i = choose|i: int|
            0 <= i < rest.len() && #[trigger] rest[i] == (key, map_of(rest)[key]);
        assert(pairs[i + 1] == rest[i]);
    }
}

/// Replacing the value of a key's first pair sets the key.
pub proof fn replace<K, V>(pairs: Seq<(K, V)>, key: K, at: int, value: V)
    requires
        first_at(pairs, key, at),
    ensures
        map_of(pairs.update(at, (key, value))) == map_of(pairs).insert(key, value),
    decreases pairs.len(),
{
    let after = pairs.update(at, (key, value));
    let rest = pairs.drop_first();
    if at > 0 {
        assert forall|j: int| 0 <= j < at - 1 implies (#[trigger] rest[j]).0 != key by {
            assert(rest[j] == pairs[j + 1]);
        }
        replace(rest, key, at - 1, value);
        assert(after.drop_first() =~= rest.update(at - 1, (key, value)));
    } else {
        assert(after.drop_first() =~= rest);
    }
    assert(map_of(after) =~= map_of(pairs).insert(key, value));
}

/// Appending a pair of a new key sets the key.
pub proof fn append<K, V>(pairs: Seq<(K, V)>, key: K, value: V)
    requires
        lacks(pairs, key),
    ensures
        map_of(pairs.push((key, value))) == map_of(pairs).insert(key, value),
    decreases pairs.len(),
{
    let after = pairs.push((key, value));
    if pairs.len() > 0 {
        let rest = pairs.drop_first();
        assert forall|j: int| 0 <= j < rest.len() implies (#[trigger] rest[j]).0 != key by {
            assert(rest[j] == pairs[j + 1]);
        }
        append(rest, key, value);
        assert(after.drop_first() =~= rest.push((key, value)));
        assert(after[0] == pairs[0]);
    } else {
        assert(after.drop_first() =~= Seq::empty());
        assert(map_of(after.drop_first()) =~= Map::empty());
    }
    assert(map_of(after) =~= map_of(pairs).insert(key, value));
}

/// Removing the only pair of a key removes the key.
pub proof fn remove_only<K, V>(pairs: Seq<(K, V)>, key: K, at: int)
    requires
        first_at(pairs, key, at),
        forall|j: int| at < j < pairs.len() ==> (#[trigger] pairs[j]).0 != key,
    ensures
        map_of(pairs.remove(at)) == map_of(pairs).remove(key),
    decreases pairs.len(),
{
    let after = pairs.remove(at);
    let rest = pairs.drop_first();
    if at > 0 {
        assert forall|j: int| 0 <= j < at - 1 implies (#[trigger] rest[j]).0 != key by {
            assert(rest[j] == pairs[j + 1]);
        }
        assert forall|j: int| at - 1 < j < rest.len() implies (#[trigger] rest[j]).0 != key by {
            assert(rest[j] == pairs[j + 1]);
        }
        remove_only(rest, key, at - 1);
        assert(after.drop_first() =~= rest.remove(at - 1));
        assert(after[0] == pairs[0]);
    } else {
        assert(after =~= rest);
        assert forall|j: int| 0 <= j < rest.len() implies (#[trigger] rest[j]).0 != key by {
            assert(rest[j] == pairs[j + 1]);
        }
        absent(rest, key);
    }
    assert(map_of(after) =~= map_of(pairs).remove(key));
}

/// No two pairs have the same key.
pub open spec fn distinct_keys<K, V>(pairs: Seq<(K, V)>) -> bool {
    forall|i: int, j: int|
        0 <= i < j < pairs.len() ==> (#[trigger] pairs[i]).0 != (#[trigger] pairs[j]).0
}

} // verus!
