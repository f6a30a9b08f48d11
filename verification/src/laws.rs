//! Laws of the cache: what holds of every state and of every sequence of
//! operations, proved over the model.

use crate::model::distinct_keys;
use crate::model::newest_keys;
use crate::model::promote;
use crate::model::CacheState;
use crate::model::Step;
use vstd::prelude::*;

verus! {

/// Using a key that is listed reorders the keys and does nothing else: the
/// key comes first, the length and the set of keys stay, and no key is
/// listed twice.
pub proof fn lemma_promote_permutes<K>(order: Seq<K>, key: K)
    requires
        order.no_duplicates(),
        order.contains(key),
    ensures
        promote(order, key).len() == order.len(),
        promote(order, key)[0] == key,
        promote(order, key).no_duplicates(),
        promote(order, key).to_set() == order.to_set(),
{
    let i = order.index_of(key);
    let after = promote(order, key);
    assert forall|k: K| after.to_set().contains(k) <==> order.to_set().contains(k) by {
        if order.contains(k) {
            // the place that `k` moves to
            let p = order.index_of(k);
            let a = if p == i { 0 } else if p < i { p + 1 } else { p };
            assert(after[a] == k);
        }
    }
}

/// A lookup keeps the invariant.
pub proof fn lemma_touch_consistent<K, V>(state: CacheState<K, V>, key: K)
    requires
        state.consistent(),
    ensures
        state.touch(key).consistent(),
{
    if state.order.contains(key) {
        lemma_promote_permutes(state.order, key);
    }
}

/// An insertion keeps the invariant.
pub proof fn lemma_insert_consistent<K, V>(state: CacheState<K, V>, key: K, value: V)
    requires
        state.consistent(),
    ensures
        state.insert(key, value).consistent(),
{
    let next = state.insert(key, value);
    if state.order.contains(key) {
        lemma_promote_permutes(state.order, key);
        assert(next.entries.dom() =~= next.order.to_set());
    } else {
        assert(next.order[0] == key);
        assert forall|k: K| next.entries.dom().contains(k) <==> next.order.to_set().contains(k) by {
            if next.entries.dom().contains(k) && k != key {
                // a key that stays moves one place back
                let p = state.order.index_of(k);
                assert(next.order[p + 1] == k);
            }
        }
        assert(next.entries.dom() =~= next.order.to_set());
    }
}

/// Every state that calls can reach from an empty cache keeps the
/// invariant: the keys with a value are the keys of the recency ordering,
/// the ordering is no longer than the capacity, and it lists no key twice.
pub proof fn lemma_reachable_consistent<K, V>(capacity: nat, calls: Seq<Step<K, V>>)
    requires
        capacity > 0,
    ensures
        CacheState::<K, V>::empty(capacity).run(calls).consistent(),
        CacheState::<K, V>::empty(capacity).run(calls).capacity == capacity,
    decreases calls.len(),
{
    let start = CacheState::<K, V>::empty(capacity);
    if calls.len() == 0 {
        assert(start.entries.dom() =~= start.order.to_set());
    } else {
        lemma_reachable_consistent::<K, V>(capacity, calls.drop_last());
        let before = start.run(calls.drop_last());
        match calls.last() {
            Step::Insert(key, value) => lemma_insert_consistent(before, key, value),
            Step::Get(key) => lemma_touch_consistent(before, key),
        }
    }
}

/// A hit moves the key to the front and changes nothing else: the stored
/// values, the capacity, the number of keys and the keys themselves stay, and
/// any two other keys keep their order relative to each other.
pub proof fn lemma_hit_refreshes<K, V>(state: CacheState<K, V>, key: K)
    requires
        state.consistent(),
        state.contains(key),
    ensures
        state.touch(key).order[0] == key,
        state.touch(key).entries == state.entries,
        state.touch(key).capacity == state.capacity,
        state.touch(key).lookup(key) == state.lookup(key),
        state.touch(key).order.len() == state.order.len(),
        state.touch(key).order.to_set() == state.order.to_set(),
        forall|a: K, b: K|
            a != key && b != key && state.contains(a) && state.contains(b) ==> (
            state.order.index_of(a) < state.order.index_of(b) <==> state.touch(key).order.index_of(
                a,
            ) < state.touch(key).order.index_of(b)),
{
    lemma_promote_permutes(state.order, key);
    let after = state.touch(key).order;
    let i = state.order.index_of(key);
    assert forall|a: K| a != key && state.contains(a) implies #[trigger] after.index_of(a) == (
    if state.order.index_of(a) < i {
        state.order.index_of(a) + 1
    } else {
        state.order.index_of(a)
    }) by {
        assert(after.to_set().contains(a));
    }
}

/// Inserting a key that is cached stores the new value, moves the key to
/// the front and keeps the size; the values of the other keys stay.
pub proof fn lemma_update_in_place<K, V>(state: CacheState<K, V>, key: K, value: V)
    requires
        state.consistent(),
        state.contains(key),
    ensures
        state.insert(key, value).lookup(key) == Some(value),
        state.insert(key, value).order == state.touch(key).order,
        state.insert(key, value).order[0] == key,
        state.insert(key, value).order.len() == state.order.len(),
        state.insert(key, value).entries.dom() == state.entries.dom(),
        forall|other: K| other != key ==> state.insert(key, value).lookup(other) == state.lookup(other),
{
    lemma_promote_permutes(state.order, key);
}

/// A lookup of a key that is not cached finds nothing and leaves the state
/// as it was.
pub proof fn lemma_miss_changes_nothing<K, V>(state: CacheState<K, V>, key: K)
    requires
        state.consistent(),
        !state.contains(key),
    ensures
        state.lookup(key) is None,
        state.touch(key) == state,
{
}

/// A second lookup of the same key, right after the first, changes nothing.
pub proof fn lemma_repeated_get<K, V>(state: CacheState<K, V>, key: K)
    requires
        state.consistent(),
    ensures
        state.touch(key).touch(key) == state.touch(key),
        state.touch(key).lookup(key) == state.lookup(key),
{
    if state.order.contains(key) {
        lemma_promote_permutes(state.order, key);
        let once = promote(state.order, key);
        assert(promote(once, key) =~= once);
    }
}

/// Inserting pairs with distinct keys into an empty cache leaves the keys of
/// the most recent pairs, as many as fit, the newest at the front, each
/// with its value.
pub proof fn lemma_fill_keeps_newest<K, V>(capacity: nat, items: Seq<(K, V)>)
    requires
        capacity > 0,
        distinct_keys(items),
    ensures
        ({
            let filled = CacheState::<K, V>::empty(capacity).insert_all(items);
            let kept = if items.len() <= capacity { items.len() } else { capacity };
            &&& filled.consistent()
            &&& filled.capacity == capacity
            &&& filled.order == newest_keys(items, kept)
            &&& forall|i: int| items.len() - kept <= i < items.len() ==> filled.lookup(items[i].0) == Some(items[i].1)
        }),
    decreases items.len(),
{
    let start = CacheState::<K, V>::empty(capacity);
    let filled = start.insert_all(items);
    let n = items.len();
    let kept: nat = if n <= capacity { n } else { capacity };
    if n == 0 {
        assert(start.entries.dom() =~= start.order.to_set());
    } else {
        let earlier = items.drop_last();
        lemma_fill_keeps_newest(capacity, earlier);
        let before = start.insert_all(earlier);
        let (key, value) = items.last();
        lemma_insert_consistent(before, key, value);
        assert forall|i: int| n - kept <= i < n implies filled.lookup(items[i].0) == Some(items[i].1) by {
            if i < n - 1 {
                assert(earlier[i] == items[i]);
            }
        }
    }
}

/// Inserting one pair more than the cache holds, all keys distinct, into an
/// empty cache evicts the first key and no other, and leaves the last key at
/// the front.
pub proof fn lemma_lru_evicted<K, V>(capacity: nat, items: Seq<(K, V)>)
    requires
        capacity > 0,
        distinct_keys(items),
        items.len() == capacity + 1,
    ensures
        ({
            let filled = CacheState::<K, V>::empty(capacity).insert_all(items);
            &&& !filled.contains(items[0].0)
            &&& filled.lookup(items[0].0) is None
            &&& forall|i: int| 1 <= i <= capacity ==> filled.contains(items[i].0)
            &&& forall|i: int| 1 <= i <= capacity ==> filled.lookup(items[i].0) == Some(items[i].1)
            &&& filled.order.len() == capacity
            &&& filled.order[0] == items[capacity as int].0
        }),
{
    lemma_fill_keeps_newest(capacity, items);
}

} // verus!
