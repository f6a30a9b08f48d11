//! The mathematical model of the cache and of its two operations.

use vstd::prelude::*;

verus! {

/// What a cache is, as a value: its keys from most recently used (index 0)
/// to least recently used, the value stored under each key, and the number
/// of entries it may hold.
#[verifier::reject_recursive_types(K)]
pub struct CacheState<K, V> {
    pub order: Seq<K>,
    pub entries: Map<K, V>,
    pub capacity: nat,
}

/// The ordering after `key`, which occurs in `order`, has been used: `key`
/// comes first and the other keys follow in the order they had.
pub open spec fn promote<K>(order: Seq<K>, key: K) -> Seq<K> {
    seq![key] + order.remove(order.index_of(key))
}

impl<K, V> CacheState<K, V> {
    /// The cache that holds nothing.
    pub open spec fn empty(capacity: nat) -> Self {
        CacheState { order: Seq::empty(), entries: Map::empty(), capacity }
    }

    /// The invariant of a cache: it can hold something, it is not over its
    /// capacity, no key is listed twice, and the keys that are listed are
    /// exactly the keys that have a value.
    pub open spec fn consistent(self) -> bool {
        &&& self.capacity > 0
        &&& self.order.len() <= self.capacity
        &&& self.order.no_duplicates()
        &&& self.entries.dom() == self.order.to_set()
    }

    /// Whether `key` is cached.
    pub open spec fn contains(self, key: K) -> bool {
        self.order.contains(key)
    }

    /// The value cached under `key`, if there is one.
    pub open spec fn lookup(self, key: K) -> Option<V> {
        if self.entries.contains_key(key) {
            Some(self.entries[key])
        } else {
            None
        }
    }

    /// The state after a lookup of `key`: a hit makes `key` the most recently
    /// used, a miss changes nothing.
    pub open spec fn touch(self, key: K) -> Self {
        if self.order.contains(key) {
            CacheState { order: promote(self.order, key), ..self }
        } else {
            self
        }
    }

    /// The state after `value` has been stored under `key`. A key that is
    /// already cached gets the new value and becomes the most recently used.
    /// A new key goes to the front, and where the cache is full the least
    /// recently used key leaves with its value to make room.
    pub open spec fn insert(self, key: K, value: V) -> Self {
        if self.order.contains(key) {
            CacheState {
                order: promote(self.order, key),
                entries: self.entries.insert(key, value),
                ..self
            }
        } else if self.order.len() == self.capacity {
            CacheState {
                order: seq![key] + self.order.drop_last(),
                entries: self.entries.remove(self.order.last()).insert(key, value),
                ..self
            }
        } else {
            CacheState {
                order: seq![key] + self.order,
                entries: self.entries.insert(key, value),
                ..self
            }
        }
    }
}

/// One call on a cache: storing a value under a key, or looking a key up.
pub enum Step<K, V> {
    Insert(K, V),
    Get(K),
}

impl<K, V> CacheState<K, V> {
    /// The state after one call.
    pub open spec fn step(self, call: Step<K, V>) -> Self {
        match call {
            Step::Insert(key, value) => self.insert(key, value),
            Step::Get(key) => self.touch(key),
        }
    }

    /// The state after the calls of `calls`, made in order.
    pub open spec fn run(self, calls: Seq<Step<K, V>>) -> Self
        decreases calls.len(),
    {
        if calls.len() == 0 {
            self
        } else {
            self.run(calls.drop_last()).step(calls.last())
        }
    }

    /// The state after each pair of `items` has been inserted, in order.
    pub open spec fn insert_all(self, items: Seq<(K, V)>) -> Self
        decreases items.len(),
    {
        if items.len() == 0 {
            self
        } else {
            self.insert_all(items.drop_last()).insert(items.last().0, items.last().1)
        }
    }
}

/// The keys of the last `count` pairs of `items`, the last one first.
pub open spec fn newest_keys<K, V>(items: Seq<(K, V)>, count: nat) -> Seq<K> {
    Seq::new(count, |j: int| items[items.len() - 1 - j].0)
}

/// Whether no key occurs in two pairs of `items`.
pub open spec fn distinct_keys<K, V>(items: Seq<(K, V)>) -> bool {
    forall|i: int, j: int| 0 <= i < items.len() && 0 <= j < items.len() && i != j ==> items[i].0 != items[j].0
}

} // verus!
