//! The executable cache: a hash map for the values and a deque for the
//! recency ordering, kept in step with each other.

use crate::laws::lemma_insert_consistent;
use crate::laws::lemma_touch_consistent;
use crate::model::CacheState;
use std::collections::HashMap;
use std::collections::VecDeque;
use std::hash::Hash;
use vstd::laws_eq::obeys_concrete_eq;
use vstd::prelude::*;
use vstd::std_specs::hash::obeys_key_model;

verus! {

/// What the cache needs of its key type: `==` on keys decides whether two
/// keys are the same value, and hashing agrees with it. The integer types
/// and `bool` are such types.
pub open spec fn lawful_key<K: PartialEq>() -> bool {
    &&& obeys_key_model::<K>()
    &&& obeys_concrete_eq::<K>()
}

/// An LRU cache using a hash map and a double-ended queue.
#[derive(Debug, Clone)]
pub struct LRUCache<K, V> where K: Eq + PartialEq + Copy + Hash {
    storage: HashMap<K, V>,
    order: VecDeque<K>,
    capacity: usize,
}

impl<K, V> View for LRUCache<K, V> where K: Eq + PartialEq + Copy + Hash {
    type V = CacheState<K, V>;

    closed spec fn view(&self) -> CacheState<K, V> {
        CacheState { order: self.order@, entries: self.storage@, capacity: self.capacity as nat }
    }
}

/// Whether `a` and `b` are the same key.
fn same_key<K: Eq + PartialEq + Copy + Hash>(a: &K, b: &K) -> (same: bool)
    requires
        lawful_key::<K>(),
    ensures
        same == (*a == *b),
{
    proof {
        reveal(obeys_concrete_eq);
    }
    *a == *b
}

impl<K, V> LRUCache<K, V> where K: Eq + PartialEq + Copy + Hash {
    /// The invariant that every cache made by [`LRUCache::new`] keeps: the
    /// key type is lawful and the contents are consistent.
    pub open spec fn well_formed(&self) -> bool {
        &&& lawful_key::<K>()
        &&& self@.consistent()
    }

    /// Creates a new `LRUCache` with specified capacity.
    /// Capacity is always a positive number.
    pub fn new(capacity: usize) -> (cache: Self)
        requires
            capacity > 0,
            lawful_key::<K>(),
        ensures
            cache.well_formed(),
            cache@ == CacheState::<K, V>::empty(capacity as nat),
    {
        let cache = LRUCache {
            storage: HashMap::with_capacity(capacity),
            order: VecDeque::new(),
            capacity,
        };
        assert(cache@.entries.dom() =~= cache@.order.to_set());
        cache
    }

    /// The number of entries the cache may hold.
    pub fn capacity(&self) -> (capacity: usize)
        ensures
            capacity == self@.capacity,
    {
        self.capacity
    }

    /// The number of entries the cache holds.
    pub fn len(&self) -> (len: usize)
        requires
            self.well_formed(),
        ensures
            len == self@.order.len(),
            len == self@.entries.dom().len(),
            len <= self@.capacity,
    {
        proof {
            self@.order.unique_seq_to_set();
        }
        self.storage.len()
    }

    /// Whether `key` is cached. The recency ordering is not touched.
    pub fn contains(&self, key: &K) -> (cached: bool)
        requires
            self.well_formed(),
        ensures
            cached == self@.contains(*key),
    {
        self.position(key).is_some()
    }

    /// The value cached under `key`, if there is one. Unlike
    /// [`LRUCache::get`] this does not count as a use of the key.
    pub fn peek(&self, key: &K) -> (found: Option<&V>)
        requires
            self.well_formed(),
        ensures
            match found {
                Some(value) => self@.lookup(*key) == Some(*value),
                None => self@.lookup(*key) is None,
            },
    {
        self.storage.get(key)
    }

    /// The cached keys, from the most recently used to the least recently
    /// used.
    pub fn order(&self) -> (keys: Vec<K>)
        ensures
            keys@ == self@.order,
    {
        let mut keys: Vec<K> = Vec::new();
        let mut i: usize = 0;
        while i < self.order.len()
            invariant
                i <= self.order@.len(),
                keys@ == self.order@.take(i as int),
            decreases self.order@.len() - i,
        {
            keys.push(self.order[i]);
            i += 1;
            assert(keys@ =~= self.order@.take(i as int));
        }
        assert(self.order@.take(i as int) =~= self.order@);
        keys
    }

    /// The place of `key` in the recency ordering, counted from the most
    /// recently used key, or `None` where `key` is not cached.
    fn position(&self, key: &K) -> (found: Option<usize>)
        requires
            self.well_formed(),
        ensures
            match found {
                Some(i) => i < self@.order.len() && self@.order[i as int] == *key
                    && i == self@.order.index_of(*key),
                None => !self@.order.contains(*key),
            },
    {
        let mut i: usize = 0;
        while i < self.order.len()
            invariant
                self.well_formed(),
                i <= self.order@.len(),
                forall|j: int| 0 <= j < i ==> self.order@[j] != *key,
            decreases self.order@.len() - i,
        {
            if same_key(&self.order[i], key) {
                return Some(i);
            }
            i += 1;
        }
        None
    }

    /// Moves the key at place `at` of the recency ordering to the front and
    /// leaves the other keys in the order they had.
    fn move_to_front(&mut self, at: usize)
        requires
            old(self).well_formed(),
            at < old(self)@.order.len(),
            at == old(self)@.order.index_of(old(self)@.order[at as int]),
        ensures
            final(self)@ == old(self)@.touch(old(self)@.order[at as int]),
            final(self).well_formed(),
    {
        let ghost before = self@;
        let removed = self.order.remove(at);
        match removed {
            Some(key) => {
                self.order.push_front(key);
            },
            None => {},
        }
        proof {
            lemma_touch_consistent(before, before.order[at as int]);
        }
    }

    /// Inserts an item into the cache.
    /// Each item is represented by a key-value pair.
    /// If the `key` already exists in the cache,
    /// its corresponding value is updated.
    ///
    /// Either way `key` becomes the most recently used. A new key that
    /// finds the cache full takes the place of the least recently used one.
    /// The key is handed back.
    pub fn insert(&mut self, key: K, value: V) -> (echoed: Option<K>)
        requires
            old(self).well_formed(),
        ensures
            final(self).well_formed(),
            final(self)@ == old(self)@.insert(key, value),
            echoed == Some(key),
    {
        let ghost before = self@;
        proof {
            lemma_insert_consistent(before, key, value);
        }
        match self.position(&key) {
            Some(at) => {
                self.move_to_front(at);
                self.storage.insert(key, value);
            },
            None => {
                if self.order.len() == self.capacity {
                    match self.order.pop_back() {
                        Some(evicted) => {
                            self.storage.remove(&evicted);
                        },
                        None => {},
                    }
                }
                self.storage.insert(key, value);
                self.order.push_front(key);
            },
        }
        assert(self@.order =~= before.insert(key, value).order);
        assert(self@.entries =~= before.insert(key, value).entries);
        Some(key)
    }

    /// Returns a reference to the value corresponding to the `key`.
    ///
    /// A hit makes `key` the most recently used and changes nothing else.
    /// A miss returns `None` and leaves the cache as it was.
    pub fn get(&mut self, key: K) -> (found: Option<&V>)
        requires
            old(self).well_formed(),
        ensures
            final(self).well_formed(),
            final(self)@ == old(self)@.touch(key),
            match found {
                Some(value) => old(self)@.lookup(key) == Some(*value),
                None => old(self)@.lookup(key) is None,
            },
    {
        match self.position(&key) {
            Some(at) => {
                self.move_to_front(at);
                self.storage.get(&key)
            },
            None => None,
        }
    }
}

} // verus!
