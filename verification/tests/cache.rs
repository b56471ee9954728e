use wene::cache::LruCache;
use wene::path::FilePath;

#[test]
fn evicts_least_recently_used_past_budget() {
    let mut cache: LruCache<&str, u32> = LruCache::new(100);
    assert!(cache.insert("a", 1, 40).is_empty());
    assert!(cache.insert("b", 2, 40).is_empty());
    // Touch a so b is now the oldest.
    assert_eq!(cache.get(&"a"), Some(&1));
    let evicted = cache.insert("c", 3, 40);
    assert_eq!(evicted, vec!["b"]);
    assert!(cache.contains(&"a"));
    assert!(cache.contains(&"c"));
    assert_eq!(cache.len(), 2);
}

#[test]
fn oversized_entry_stays_until_replaced() {
    let mut cache: LruCache<&str, u32> = LruCache::new(10);
    assert!(cache.insert("big", 1, 50).is_empty());
    assert!(cache.contains(&"big"));
    // The next insert pushes the oversized one out.
    let evicted = cache.insert("next", 2, 50);
    assert_eq!(evicted, vec!["big"]);
    assert!(cache.contains(&"next"));
}

#[test]
fn remove_and_reinsert_keep_totals_right() {
    let mut cache: LruCache<&str, u32> = LruCache::new(100);
    cache.insert("a", 1, 60);
    cache.insert("a", 2, 30); // replace: total is 30, not 90
    assert!(cache.insert("b", 3, 60).is_empty());
    assert_eq!(cache.remove(&"a"), Some(2));
    assert!(cache.insert("c", 4, 40).is_empty());
    assert_eq!(cache.len(), 2);
    cache.clear();
    assert!(cache.is_empty());
}

#[test]
fn a_miss_changes_nothing() {
    let mut cache: LruCache<u64, &str> = LruCache::new(100);
    assert_eq!(cache.get(&1), None);
    assert_eq!(cache.peek(&1), None);
    assert_eq!(cache.remove(&1), None);
    assert!(!cache.contains(&1));
    assert_eq!(cache.len(), 0);
}

#[test]
fn peek_and_contains_leave_the_use_order_alone() {
    let mut cache: LruCache<u64, &str> = LruCache::new(100);
    cache.insert(1, "one", 40);
    cache.insert(2, "two", 40);
    assert_eq!(cache.peek(&1), Some(&"one"));
    assert!(cache.contains(&1));
    assert_eq!(cache.insert(3, "three", 40), vec![1]);
}

#[test]
fn several_leave_for_one_big_entry() {
    let mut cache: LruCache<u64, u64> = LruCache::new(100);
    for key in 1..=4 {
        cache.insert(key, key * 10, 25);
    }
    assert_eq!(cache.insert(5, 50, 70), vec![1, 2, 3]);
    assert_eq!(cache.peek(&4), Some(&40));
    assert_eq!(cache.peek(&5), Some(&50));
}

#[test]
fn paths_are_keys_by_their_components() {
    let mut cache: LruCache<FilePath, u64> = LruCache::new(100);
    cache.insert(FilePath::new("/a//b.jpg"), 1, 10);
    assert_eq!(cache.get(&FilePath::new("/a/./b.jpg")), Some(&1));
    assert!(!cache.contains(&FilePath::new("/a/c.jpg")));
    cache.insert(FilePath::new("/a/b.jpg"), 2, 10);
    assert_eq!(cache.len(), 1);
}

#[test]
fn room_ends_where_the_total_would_overflow() {
    let mut cache: LruCache<u64, u64> = LruCache::new(10);
    cache.insert(1, 1, usize::MAX - 5);
    assert!(cache.has_room(&2, 5));
    assert!(!cache.has_room(&2, 6));
    // The entry that a key replaces makes room.
    assert!(cache.has_room(&1, usize::MAX));
}
