use lru_cache::LruCache;
use std::sync::Arc;

fn shareable<T: Send + Sync>(_: &T) {}

#[test]
fn smoke() {
    let cash = LruCache::with_limit(5);
    cash.insert(0u8, 0u8);
    cash.insert(1, 1);
    cash.insert(2, 2);
    cash.insert(3, 3);
    cash.insert(4, 4);
    cash.insert(5, 5);
    assert_eq!(cash.get(&0), None);
    assert_eq!(cash.get(&1).map(|a| *a), Some(1));
}

#[test]
fn smoke2() {
    let cash = LruCache::with_limit(5);
    cash.insert(0u8, 0u8);
    cash.insert(1, 1);
    cash.insert(2, 2);
    cash.insert(3, 3);
    cash.insert(4, 4);
    assert_eq!(cash.get(&0).map(|a| *a), Some(0));
    cash.insert(5, 5);
    assert_eq!(cash.get(&1).map(|a| *a), None);
}

#[test]
fn cache_misses_when_empty() {
    let cache: LruCache<u32, u32> = LruCache::with_limit(2);
    assert_eq!(cache.get(&1), None);
}

#[test]
fn cache_finds_what_was_inserted() {
    let cache = LruCache::with_limit(2);
    assert_eq!(cache.insert(1u32, 10u32), None);
    assert_eq!(cache.get(&1).map(|a| *a), Some(10));
    assert_eq!(cache.get(&2), None);
}

#[test]
fn cache_replacement_returns_previous_handle() {
    let cache = LruCache::with_limit(2);
    assert_eq!(cache.insert(1u32, 10u32), None);
    assert_eq!(cache.insert(2, 20), None);
    assert_eq!(cache.insert(1, 11).map(|a| *a), Some(10));
    assert_eq!(cache.get(&1).map(|a| *a), Some(11));
    assert_eq!(cache.get(&2).map(|a| *a), Some(20));
}

#[test]
fn cache_never_holds_more_than_its_limit() {
    let cache = LruCache::with_limit(3);
    for k in 0..20u32 {
        cache.insert(k, k);
        let present = (0..=k).filter(|probe| cache.get(probe).is_some()).count();
        assert_eq!(present, std::cmp::min(k as usize + 1, 3));
    }
}

#[test]
fn cache_lookup_by_borrowed_form() {
    let cache: LruCache<String, u32> = LruCache::with_limit(2);
    cache.insert(String::from("alpha"), 1);
    assert_eq!(cache.get("alpha").map(|a| *a), Some(1));
    assert_eq!(cache.get("beta"), None);
}

#[test]
fn cache_handle_survives_eviction() {
    let cache = LruCache::with_limit(1);
    cache.insert(1u32, String::from("first"));
    let held = cache.get(&1).unwrap();
    cache.insert(2, String::from("second"));
    assert!(cache.get(&1).is_none());
    assert_eq!(*held, "first");
}

#[test]
fn cache_works_through_a_shared_reference() {
    let cache: Arc<LruCache<u32, String>> = Arc::new(LruCache::with_limit(8));
    let other = Arc::clone(&cache);
    other.insert(1, String::from("one"));
    assert_eq!(*cache.get(&1).unwrap(), "one");
    shareable(&cache);
    shareable(&*cache);
}
