//! A keyed store modelled as two parallel sequences.
//!
//! The executable ledgers keep their entries in two `Vec`s of equal length:
//! one of keys, one of values. Their mathematical model is the `Map` built by
//! inserting each key's view with its value, from the first entry to the
//! last. As long as the key views are pairwise distinct, each entry is
//! faithfully reflected in the map, and updating or appending an entry is an
//! insertion into the map. This module holds that model and its lemmas.

use vstd::prelude::*;
use vstd::map::*;

verus! {

/// The map holding `vals[i]` under the view of `keys[i]` for every `i`.
pub open spec fn map_of<K: View, V>(keys: Seq<K>, vals: Seq<V>) -> Map<K::V, V>
    recommends
        keys.len() == vals.len(),
    decreases keys.len(),
{
    if keys.len() == 0 || vals.len() == 0 {
        Map::empty()
    } else {
        map_of(keys.drop_last(), vals.drop_last()).insert(keys.last()@, vals.last())
    }
}

/// The key views are pairwise distinct.
pub open spec fn distinct_keys<K: View>(keys: Seq<K>) -> bool {
    forall|i: int, j: int| 0 <= i < j < keys.len() ==> keys[i]@ != keys[j]@
}

/// The sum of a sequence of balances, as an unbounded integer.
pub open spec fn sum_of(vals: Seq<u128>) -> int
    decreases vals.len(),
{
    if vals.len() == 0 {
        0
    } else {
        sum_of(vals.drop_last()) + vals.last()
    }
}

/// A key view is in the map exactly when some entry carries it.
pub proof fn lemma_map_of_dom<K: View, V>(keys: Seq<K>, vals: Seq<V>, k: K::V)
    requires
        keys.len() == vals.len(),
    ensures
        map_of(keys, vals).dom().contains(k) <==> exists|i: int|
            0 <= i < keys.len() && keys[i]@ == k,
    decreases keys.len(),
{
    if keys.len() > 0 {
        lemma_map_of_dom(keys.drop_last(), vals.drop_last(), k);
        if map_of(keys, vals).dom().contains(k) {
            if k == keys.last()@ {
                assert(keys[keys.len() - 1]@ == k);
            } else {
                let i = choose|i: int| 0 <= i < keys.len() - 1 && keys.drop_last()[i]@ == k;
                assert(keys[i]@ == k);
            }
        }
        if exists|i: int| 0 <= i < keys.len() && keys[i]@ == k {
            let i = choose|i: int| 0 <= i < keys.len() && keys[i]@ == k;
            if i < keys.len() - 1 {
                assert(keys.drop_last()[i]@ == k);
            }
        }
    }
}

/// With distinct keys, the map holds each entry's value under its key.
pub proof fn lemma_map_of_index<K: View, V>(keys: Seq<K>, vals: Seq<V>, i: int)
    requires
        keys.len() == vals.len(),
        distinct_keys(keys),
        0 <= i < keys.len(),
    ensures
        map_of(keys, vals).dom().contains(keys[i]@),
        map_of(keys, vals)[keys[i]@] == vals[i],
    decreases keys.len(),
{
    if i == keys.len() - 1 {
    } else {
        assert(distinct_keys(keys.drop_last()));
        lemma_map_of_index(keys.drop_last(), vals.drop_last(), i);
        assert(keys[i]@ != keys.last()@);
    }
}

/// With distinct keys, replacing the value at one entry is an insertion.
pub proof fn lemma_map_of_update<K: View, V>(keys: Seq<K>, vals: Seq<V>, i: int, v: V)
    requires
        keys.len() == vals.len(),
        distinct_keys(keys),
        0 <= i < keys.len(),
    ensures
        map_of(keys, vals.update(i, v)) == map_of(keys, vals).insert(keys[i]@, v),
    decreases keys.len(),
{
    let n = keys.len() as int;
    let upd = vals.update(i, v);
    if i == n - 1 {
        assert(upd.drop_last() =~= vals.drop_last());
        assert(map_of(keys, upd)
            == map_of(keys.drop_last(), vals.drop_last()).insert(keys.last()@, v));
        assert_maps_equal!(
            map_of(keys.drop_last(), vals.drop_last()).insert(keys.last()@, v),
            map_of(keys, vals).insert(keys[i]@, v)
        );
    } else {
        assert(distinct_keys(keys.drop_last()));
        assert(upd.drop_last() =~= vals.drop_last().update(i, v));
        lemma_map_of_update(keys.drop_last(), vals.drop_last(), i, v);
        assert(map_of(keys, upd)
            == map_of(keys.drop_last(), vals.drop_last()).insert(keys[i]@, v)
                .insert(keys.last()@, vals.last()));
        assert(keys[i]@ != keys.last()@);
        assert_maps_equal!(
            map_of(keys.drop_last(), vals.drop_last()).insert(keys[i]@, v)
                .insert(keys.last()@, vals.last()),
            map_of(keys, vals).insert(keys[i]@, v)
        );
    }
}

/// Appending an entry is an insertion.
pub proof fn lemma_map_of_push<K: View, V>(keys: Seq<K>, vals: Seq<V>, k: K, v: V)
    requires
        keys.len() == vals.len(),
    ensures
        map_of(keys.push(k), vals.push(v)) == map_of(keys, vals).insert(k@, v),
{
    assert(keys.push(k).drop_last() =~= keys);
    assert(vals.push(v).drop_last() =~= vals);
}

/// Replacing the value at one entry changes the sum by the difference.
pub proof fn lemma_sum_update(vals: Seq<u128>, i: int, v: u128)
    requires
        0 <= i < vals.len(),
    ensures
        sum_of(vals.update(i, v)) == sum_of(vals) - vals[i] + v,
    decreases vals.len(),
{
    let n = vals.len() as int;
    let upd = vals.update(i, v);
    if i == n - 1 {
        assert(upd.drop_last() =~= vals.drop_last());
    } else {
        assert(upd.drop_last() =~= vals.drop_last().update(i, v));
        lemma_sum_update(vals.drop_last(), i, v);
    }
}

/// Appending a value adds it to the sum.
pub proof fn lemma_sum_push(vals: Seq<u128>, v: u128)
    ensures
        sum_of(vals.push(v)) == sum_of(vals) + v,
{
    assert(vals.push(v).drop_last() =~= vals);
}

/// Every value is bounded by the sum of all of them.
pub proof fn lemma_sum_index(vals: Seq<u128>, i: int)
    requires
        0 <= i < vals.len(),
    ensures
        vals[i] <= sum_of(vals),
        0 <= sum_of(vals),
    decreases vals.len(),
{
    if i == vals.len() - 1 {
        if vals.len() > 1 {
            lemma_sum_index(vals.drop_last(), 0);
        }
    } else {
        lemma_sum_index(vals.drop_last(), i);
    }
}

} // verus!
