use lfu_cache::lfu_cache::LFUCache;

fn key(name: &str) -> String {
    String::from(name)
}

#[test]
fn test_eviction() {
    let mut cache = LFUCache::new(2);

    cache.push("key1".to_string(), 1);
    cache.push("key2".to_string(), 2);

    // "key1" and "key2" have the same frequency, but "key1" was inserted first.
    cache.push("key3".to_string(), 3);

    assert_eq!(cache.get(&String::from("key1")), None);
    assert_eq!(cache.get(&String::from("key2")), Some(2).as_ref());
    assert_eq!(cache.get(&String::from("key3")), Some(3).as_ref());
}

#[test]
fn test_frequency_update() {
    let mut cache = LFUCache::new(2);

    cache.push("key1".to_string(), 1);
    cache.push("key2".to_string(), 2);

    // Access "key1" to increase its frequency
    assert_eq!(cache.get(&String::from("key1")), Some(1).as_ref());

    // "key2" is evicted because "key1" has a higher frequency.
    cache.push("key3".to_string(), 3);

    assert_eq!(cache.get(&String::from("key1")), Some(1).as_ref());
    assert_eq!(cache.get(&String::from("key2")), None);
    assert_eq!(cache.get(&String::from("key3")), Some(3).as_ref());
}

#[test]
fn end_to_end_with_capacity_three() {
    let mut cache = LFUCache::new(3);

    cache.push(key("key1"), 1);
    cache.push(key("key2"), 2);
    cache.push(key("key3"), 3);

    // all tied at frequency 1, key1 is the oldest
    cache.push(key("key4"), 4);
    assert_eq!(cache.get(&key("key1")), None);

    cache.get(&key("key2"));

    // key3 and key4 tied at frequency 1, key3 is older
    cache.push(key("key5"), 5);

    assert_eq!(cache.get(&key("key2")), Some(&2));
    assert_eq!(cache.get(&key("key3")), None);
    assert_eq!(cache.get(&key("key4")), Some(&4));
    assert_eq!(cache.get(&key("key5")), Some(&5));
}

#[test]
fn overwrite_does_not_reset_the_access_count() {
    let mut cache = LFUCache::new(2);
    cache.push(key("a"), 1);
    assert_eq!(cache.get(&key("a")), Some(&1));
    cache.push(key("a"), 2);
    cache.push(key("b"), 3);
    // "a" has been read once, "b" never: "b" makes room
    cache.push(key("c"), 4);
    assert_eq!(cache.get(&key("b")), None);
    assert_eq!(cache.get(&key("a")), Some(&2));
    assert_eq!(cache.get(&key("c")), Some(&4));
}

#[test]
fn overwrite_does_not_count_as_an_access() {
    let mut cache = LFUCache::new(2);
    cache.push(key("a"), 1);
    cache.push(key("b"), 2);
    assert_eq!(cache.get(&key("b")), Some(&2));
    // ten overwrites leave "a" at its first access count
    for i in 0..10 {
        cache.push(key("a"), 100 + i);
    }
    cache.push(key("c"), 3);
    assert_eq!(cache.get(&key("a")), None);
    assert_eq!(cache.get(&key("b")), Some(&2));
    assert_eq!(cache.get(&key("c")), Some(&3));
}

#[test]
fn overwrite_on_a_full_store_evicts_nothing() {
    let mut cache = LFUCache::new(2);
    cache.push(key("a"), 1);
    cache.push(key("b"), 2);
    cache.push(key("a"), 10);
    assert_eq!(cache.get(&key("b")), Some(&2));
    assert_eq!(cache.get(&key("a")), Some(&10));
}

#[test]
fn overwrite_does_not_move_the_key_to_the_tail() {
    let mut cache = LFUCache::new(2);
    cache.push(key("a"), 1);
    cache.push(key("b"), 2);
    cache.push(key("a"), 10);
    // "a" is still the oldest at access count one
    cache.push(key("c"), 3);
    assert_eq!(cache.get(&key("a")), None);
    assert_eq!(cache.get(&key("b")), Some(&2));
    assert_eq!(cache.get(&key("c")), Some(&3));
}

#[test]
fn ties_at_a_higher_count_go_by_promotion_order() {
    let mut cache = LFUCache::new(2);
    cache.push(key("a"), 1);
    cache.push(key("b"), 2);
    assert_eq!(cache.get(&key("b")), Some(&2));
    assert_eq!(cache.get(&key("a")), Some(&1));
    // both at access count two; "b" arrived there first
    cache.push(key("c"), 3);
    assert_eq!(cache.get(&key("b")), None);
    assert_eq!(cache.get(&key("a")), Some(&1));
    assert_eq!(cache.get(&key("c")), Some(&3));
}

#[test]
fn an_emptied_bucket_is_not_taken_for_the_smallest() {
    let mut cache = LFUCache::new(1);
    cache.push(key("a"), 1);
    // "a" moves to access count two and leaves no key at count one
    assert_eq!(cache.get(&key("a")), Some(&1));
    cache.push(key("b"), 2);
    assert_eq!(cache.get(&key("a")), None);
    assert_eq!(cache.get(&key("b")), Some(&2));
    cache.push(key("c"), 3);
    assert_eq!(cache.get(&key("b")), None);
    assert_eq!(cache.get(&key("c")), Some(&3));
}

#[test]
fn each_hit_adds_one_to_the_access_count() {
    let mut cache = LFUCache::new(3);
    cache.push(key("a"), 1);
    cache.push(key("b"), 2);
    cache.push(key("c"), 3);
    // a: 4 accesses, b: 3, c: 2
    for _ in 0..3 {
        assert_eq!(cache.get(&key("a")), Some(&1));
    }
    for _ in 0..2 {
        assert_eq!(cache.get(&key("b")), Some(&2));
    }
    assert_eq!(cache.get(&key("c")), Some(&3));
    cache.push(key("d"), 4);
    // "c" had the fewest accesses; "d" enters with one
    assert_eq!(cache.get(&key("c")), None);
    // "d" is now at two, still the fewest
    assert_eq!(cache.get(&key("d")), Some(&4));
    cache.push(key("e"), 5);
    assert_eq!(cache.get(&key("d")), None);
    // "e" at two after this hit, then at three: level with "b", which is older there
    assert_eq!(cache.get(&key("e")), Some(&5));
    assert_eq!(cache.get(&key("e")), Some(&5));
    cache.push(key("f"), 6);
    assert_eq!(cache.get(&key("b")), None);
    assert_eq!(cache.get(&key("a")), Some(&1));
    assert_eq!(cache.get(&key("e")), Some(&5));
    assert_eq!(cache.get(&key("f")), Some(&6));
}

#[test]
fn an_evicted_key_comes_back_with_access_count_one() {
    let mut cache = LFUCache::new(2);
    cache.push(key("a"), 1);
    for _ in 0..5 {
        assert_eq!(cache.get(&key("a")), Some(&1));
    }
    cache.push(key("b"), 2);
    for _ in 0..7 {
        assert_eq!(cache.get(&key("b")), Some(&2));
    }
    // "a" at six is evicted, "c" enters at one and is evicted by "a"
    cache.push(key("c"), 3);
    assert_eq!(cache.get(&key("a")), None);
    cache.push(key("a"), 11);
    assert_eq!(cache.get(&key("c")), None);
    assert_eq!(cache.get(&key("a")), Some(&11));
    // "a" is at two now, far below "b"
    cache.push(key("d"), 4);
    assert_eq!(cache.get(&key("a")), None);
    assert_eq!(cache.get(&key("b")), Some(&2));
    assert_eq!(cache.get(&key("d")), Some(&4));
}

#[test]
fn capacity_one_holds_the_latest_new_key() {
    let mut cache = LFUCache::new(1);
    for i in 0..10 {
        cache.push(format!("key{}", i), i);
        assert_eq!(cache.get(&format!("key{}", i)), Some(&i));
        if i > 0 {
            assert_eq!(cache.get(&format!("key{}", i - 1)), None);
        }
    }
}
