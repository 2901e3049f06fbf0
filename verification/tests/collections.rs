use commons::collections::LruCache;
use std::rc::Rc;

#[test]
fn test_lru_cache_basic() {
    let mut cache = LruCache::new(2);

    cache.insert(1, "one");
    cache.insert(2, "two");

    assert_eq!(cache.get(&1), Some(&"one"));
    assert_eq!(cache.get(&2), Some(&"two"));
    assert_eq!(cache.len(), 2);
}

#[test]
fn test_lru_cache_eviction() {
    let mut cache = LruCache::new(2);

    cache.insert(1, "one");
    cache.insert(2, "two");
    cache.insert(3, "three"); // Should evict key 1

    assert_eq!(cache.get(&1), None);
    assert_eq!(cache.get(&2), Some(&"two"));
    assert_eq!(cache.get(&3), Some(&"three"));
}

#[test]
fn capacity_is_never_exceeded() {
    for capacity in 0..5usize {
        let mut cache = LruCache::new(capacity);
        for step in 0..40u32 {
            cache.insert(step % 7, step);
            assert!(cache.len() <= capacity);
            cache.get(&(step % 3));
            assert!(cache.len() <= capacity);
            if step % 5 == 0 {
                cache.remove(&(step % 7));
                assert!(cache.len() <= capacity);
            }
        }
    }
}

#[test]
fn reading_a_key_protects_it_from_eviction() {
    let mut cache = LruCache::new(2);
    cache.insert("a", 1);
    cache.insert("b", 2);
    assert_eq!(cache.get(&"a"), Some(&1));
    cache.insert("c", 3);
    assert_eq!(cache.peek(&"b"), None);
    assert_eq!(cache.peek(&"a"), Some(&1));
    assert_eq!(cache.peek(&"c"), Some(&3));
}

#[test]
fn peek_does_not_promote() {
    let mut cache = LruCache::new(2);
    cache.insert(1, "a");
    cache.insert(2, "b");
    assert_eq!(cache.peek(&1), Some(&"a"));
    cache.insert(3, "c");
    assert_eq!(cache.get(&1), None);
    assert_eq!(cache.get(&3), Some(&"c"));
}

#[test]
fn update_returns_old_value_and_keeps_len() {
    let mut cache = LruCache::new(2);
    assert_eq!(cache.insert(1, "a"), None);
    assert_eq!(cache.insert(1, "b"), Some("a"));
    assert_eq!(cache.len(), 1);
    assert_eq!(cache.get(&1), Some(&"b"));
}

#[test]
fn update_makes_the_key_most_recent() {
    let mut cache = LruCache::new(2);
    cache.insert(1, "a");
    cache.insert(2, "b");
    cache.insert(1, "c");
    cache.insert(3, "d");
    assert_eq!(cache.peek(&2), None);
    assert_eq!(cache.peek(&1), Some(&"c"));
}

#[test]
fn remove_of_an_absent_key_changes_nothing() {
    let mut cache: LruCache<u32, &str> = LruCache::new(3);
    assert_eq!(cache.remove(&999), None);
    assert_eq!(cache.len(), 0);
    assert!(cache.is_empty());
    cache.insert(1, "a");
    assert_eq!(cache.remove(&999), None);
    assert_eq!(cache.len(), 1);
    assert_eq!(cache.peek(&1), Some(&"a"));
}

#[test]
fn remove_returns_the_value_and_keeps_the_order_of_the_rest() {
    let mut cache = LruCache::new(3);
    cache.insert(1, "a");
    cache.insert(2, "b");
    cache.insert(3, "c");
    assert_eq!(cache.remove(&2), Some("b"));
    assert_eq!(cache.len(), 2);
    cache.insert(4, "d");
    cache.insert(5, "e");
    assert_eq!(cache.peek(&1), None);
    assert_eq!(cache.peek(&3), Some(&"c"));
    assert_eq!(cache.peek(&4), Some(&"d"));
    assert_eq!(cache.peek(&5), Some(&"e"));
}

#[test]
fn clear_resets_fully() {
    let mut cache = LruCache::new(2);
    cache.insert(1, "a");
    cache.insert(2, "b");
    cache.insert(3, "c");
    cache.clear();
    assert_eq!(cache.len(), 0);
    assert!(cache.is_empty());
    assert_eq!(cache.get(&2), None);

    let mut fresh = LruCache::new(2);
    for (key, value) in [(7, "x"), (8, "y"), (7, "z"), (9, "w")] {
        assert_eq!(cache.insert(key, value), fresh.insert(key, value));
        assert_eq!(cache.len(), fresh.len());
    }
    for key in [7, 8, 9] {
        assert_eq!(cache.peek(&key), fresh.peek(&key));
    }
}

#[test]
fn zero_capacity_retains_nothing() {
    let mut cache = LruCache::new(0);
    assert_eq!(cache.insert(1, "a"), None);
    assert_eq!(cache.len(), 0);
    assert!(cache.is_empty());
    assert_eq!(cache.get(&1), None);
    assert_eq!(cache.insert(1, "b"), None);
    assert_eq!(cache.peek(&1), None);
}

#[test]
fn round_trip_of_a_key_that_stays() {
    let mut cache = LruCache::new(3);
    cache.insert(String::from("k"), vec![1u8, 2, 3]);
    cache.insert(String::from("other"), vec![]);
    cache.get(&String::from("other"));
    cache.remove(&String::from("other"));
    assert_eq!(cache.get(&String::from("k")), Some(&vec![1u8, 2, 3]));
}

#[test]
fn get_of_an_absent_key_does_not_touch_the_order() {
    let mut cache = LruCache::new(2);
    cache.insert(1, "a");
    cache.insert(2, "b");
    assert_eq!(cache.get(&5), None);
    cache.insert(3, "c");
    assert_eq!(cache.peek(&1), None);
    assert_eq!(cache.peek(&2), Some(&"b"));
}

/// The cache written the plain way: a list of entries, most recent first.
struct Plain {
    capacity: usize,
    entries: Vec<(u8, u32)>,
}

impl Plain {
    fn insert(&mut self, key: u8, value: u32) -> Option<u32> {
        let previous = self.remove(key);
        self.entries.insert(0, (key, value));
        self.entries.truncate(self.capacity);
        previous
    }

    fn get(&mut self, key: u8) -> Option<u32> {
        let at = self.entries.iter().position(|entry| entry.0 == key)?;
        let entry = self.entries.remove(at);
        self.entries.insert(0, entry);
        Some(entry.1)
    }

    fn peek(&self, key: u8) -> Option<u32> {
        self.entries.iter().find(|entry| entry.0 == key).map(|entry| entry.1)
    }

    fn remove(&mut self, key: u8) -> Option<u32> {
        let at = self.entries.iter().position(|entry| entry.0 == key)?;
        Some(self.entries.remove(at).1)
    }
}

#[test]
fn long_histories_match_the_plain_cache() {
    let mut state: u64 = 0x9E37_79B9_7F4A_7C15;
    let mut next = move || {
        state = state.wrapping_mul(6364136223846793005).wrapping_add(1442695040888963407);
        (state >> 33) as u32
    };
    for capacity in 0..7usize {
        let mut cache = LruCache::new(capacity);
        let mut plain = Plain { capacity, entries: Vec::new() };
        for step in 0..4000u32 {
            let key = (next() % 10) as u8;
            match next() % 16 {
                0..=6 => assert_eq!(cache.insert(key, step), plain.insert(key, step)),
                7..=10 => assert_eq!(cache.get(&key).copied(), plain.get(key)),
                11..=12 => assert_eq!(cache.peek(&key).copied(), plain.peek(key)),
                13..=14 => assert_eq!(cache.remove(&key), plain.remove(key)),
                _ => {
                    if next() % 8 == 0 {
                        cache.clear();
                        plain.entries.clear();
                    }
                }
            }
            assert_eq!(cache.len(), plain.entries.len());
            assert_eq!(cache.is_empty(), plain.entries.is_empty());
            assert!(cache.len() <= capacity);
        }
        for key in 0..10u8 {
            assert_eq!(cache.peek(&key).copied(), plain.peek(key));
        }
        for fresh in 100..110u8 {
            assert_eq!(cache.insert(fresh, 0), plain.insert(fresh, 0));
            for key in (0..10u8).chain(100..110u8) {
                assert_eq!(cache.peek(&key).copied(), plain.peek(key));
            }
        }
    }
}

#[test]
fn slots_are_reused_after_removal() {
    let mut cache = LruCache::new(3);
    for round in 0..50u32 {
        cache.insert(round % 5, round);
        if round % 3 == 0 {
            cache.remove(&((round + 1) % 5));
        }
        assert!(cache.len() <= 3);
    }
    cache.clear();
    assert_eq!(cache.insert(1, 1), None);
    assert_eq!(cache.insert(2, 2), None);
    assert_eq!(cache.insert(3, 3), None);
    assert_eq!(cache.insert(4, 4), None);
    assert_eq!(cache.peek(&1), None);
    assert_eq!(cache.get(&2), Some(&2));
}

#[test]
fn dropped_values_are_released() {
    let tracker = Rc::new(());
    let mut cache = LruCache::new(2);
    cache.insert(1, tracker.clone());
    cache.insert(2, tracker.clone());
    assert_eq!(Rc::strong_count(&tracker), 3);
    cache.insert(3, tracker.clone());
    assert_eq!(Rc::strong_count(&tracker), 3);
    drop(cache.insert(3, tracker.clone()));
    assert_eq!(Rc::strong_count(&tracker), 3);
    drop(cache.remove(&2));
    assert_eq!(Rc::strong_count(&tracker), 2);
    cache.clear();
    assert_eq!(Rc::strong_count(&tracker), 1);
}
