use lru_cache::cache::LRUCache;

#[test]
fn create_empty_cache() {
    let cache = LRUCache::<usize, &str>::new(3);
    assert_eq!(cache.capacity(), 3);
    assert_eq!(cache.order().len(), 0);
    assert_eq!(cache.len(), 0);
}

#[test]
fn insert_up_to_capacity() {
    let mut cache = LRUCache::<usize, &str>::new(3);
    let first = cache.insert(1, "Sadness");
    let second = cache.insert(2, "Depression");
    let third = cache.insert(3, "Melancholy");

    assert_eq!((first, second, third), (Some(1), Some(2), Some(3)));

    assert_eq!(cache.capacity(), 3);
    assert_eq!(cache.len(), cache.order().len());
}

#[test]
fn insert_beyond_capacity() {
    let mut cache = LRUCache::<usize, &str>::new(3);
    cache.insert(1, "Sadness");
    cache.insert(2, "Depression");
    cache.insert(3, "Melancholy");
    cache.insert(4, "Myth");

    assert_eq!(cache.peek(&4), Some(&"Myth"));

    assert_eq!(cache.order().len(), cache.capacity());
    assert_eq!(cache.len(), cache.capacity());

    // 1 should be removed
    assert_eq!(cache.contains(&1), false);
    assert_eq!(cache.contains(&2), true);
    assert_eq!(cache.contains(&3), true);
    assert_eq!(cache.contains(&4), true);

    // 4 should be at the front (most recently used)
    let mut order = cache.order().into_iter();
    assert_eq!(order.next(), Some(4));
}

#[test]
fn insert_an_already_existing_item() {
    let mut cache = LRUCache::<usize, &str>::new(5);
    cache.insert(1, "Sadness");
    cache.insert(2, "Depression");
    cache.insert(3, "Shitty life");
    assert_eq!(cache.order().len(), 3);

    cache.insert(2, "Melancholy");

    assert_eq!(cache.peek(&2), Some(&"Melancholy"));
    assert_eq!(cache.order().len(), 3);

    // Expected:
    //
    // 2        3         1
    // MRU<------------->LRU
    let mut order = cache.order().into_iter();
    assert_eq!(order.next(), Some(2));
    assert_eq!(order.next(), Some(3));
    assert_eq!(order.next(), Some(1));
}

#[test]
fn insert_integers() {
    let mut cache = LRUCache::<i32, i32>::new(2);

    assert_eq!(cache.get(2), None);

    cache.insert(2, 6);

    assert_eq!(cache.get(1), None);
    assert_eq!(cache.get(2), Some(&6));

    cache.insert(1, 5);
    cache.insert(1, 2);

    assert_eq!(cache.get(1), Some(&2));
    assert_eq!(cache.get(2), Some(&6));
    assert_eq!(cache.len(), cache.capacity());
}

#[test]
fn get_an_existing_item() {
    let mut cache = LRUCache::<usize, &str>::new(5);
    cache.insert(1, "Sadness");
    cache.insert(2, "Depression");
    cache.insert(3, "Shitty life");

    let retrieved = cache.get(2);
    assert_eq!(retrieved, Some(&"Depression"));

    // Expected:
    //
    // 2        3         1
    // MRU<------------->LRU
    let mut order = cache.order().into_iter();
    assert_eq!(order.next(), Some(2));
    assert_eq!(order.next(), Some(3));
    assert_eq!(order.next(), Some(1));
}

#[test]
fn get_a_nonexisting_item() {
    let mut cache = LRUCache::<usize, &str>::new(5);
    cache.insert(1, "Sadness");
    cache.insert(2, "Depression");
    cache.insert(3, "Shitty life");

    let retrieved = cache.get(5);
    assert_eq!(retrieved, None);

    // Expected:
    //
    // 3        2         1
    // MRU<------------->LRU
    let mut order = cache.order().into_iter();
    assert_eq!(order.next(), Some(3));
    assert_eq!(order.next(), Some(2));
    assert_eq!(order.next(), Some(1));
}
