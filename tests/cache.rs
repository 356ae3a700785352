use bar::cache::{Cache, CacheEntry};
use std::collections::HashMap;

/// A store of entries by path, as the files of the cache would hold them.
struct Store<T> {
    files: HashMap<String, CacheEntry<T>>,
}

impl<T: Clone> Store<T> {
    fn new() -> Self {
        Store { files: HashMap::new() }
    }

    fn set(&mut self, cache: &Cache<T>, key: &str, data: T, now: u64) {
        let (path, entry) = cache.set(key, data, now);
        self.files.insert(path, entry);
    }

    fn get(&self, cache: &Cache<T>, key: &str, now: u64) -> Option<T> {
        let stored = self.files.get(&cache.get_path(key)).map(|e| CacheEntry {
            data: e.data.clone(),
            version: e.version,
            created_at: e.created_at,
        });
        cache.get(stored, now)
    }
}

#[test]
fn test_cache_manager() {
    let cache = Cache::new("test", 1);
    let mut store = Store::new();

    let key = "test_key";
    let value = "test_value".to_string();

    store.set(&cache, key, value.clone(), 1_000);

    assert_eq!(store.get(&cache, key, 1_001), Some(value));
}

#[test]
fn entry_path_layout() {
    let cache: Cache<String> = Cache::new("gpx_tile", 3);
    assert_eq!(cache.get_path("a.b/1/2/3.png"), ".cache/gpx_tile/a.b/1/2/3.png.json");
}

#[test]
fn absent_key_is_a_miss() {
    let cache: Cache<u32> = Cache::new("k", 1);
    let store: Store<u32> = Store::new();
    assert_eq!(store.get(&cache, "nothing", 5), None);
}

#[test]
fn round_trip_same_version_other_version_and_expiry() {
    let v1: Cache<Vec<u8>> = Cache::new("blob", 1);
    let v2: Cache<Vec<u8>> = Cache::new("blob", 2);
    let mut store = Store::new();
    store.set(&v1, "key", vec![1, 2, 3], 10_000);
    assert_eq!(store.get(&v1, "key", 10_000), Some(vec![1, 2, 3]));
    assert_eq!(store.get(&v2, "key", 10_000), None);

    let short = Cache::<Vec<u8>>::new("blob", 1).with_ttl(1);
    assert_eq!(store.get(&short, "key", 10_000), Some(vec![1, 2, 3]));
    assert_eq!(store.get(&short, "key", 10_001), None);
    assert_eq!(store.get(&short, "key", 20_000), None);
}

#[test]
fn a_write_replaces_the_entry() {
    let v1: Cache<&str> = Cache::new("kind", 1);
    let mut store = Store::new();
    store.set(&v1, "k", "old", 1);
    store.set(&v1, "k", "new", 2);
    assert_eq!(store.get(&v1, "k", 3), Some("new"));
}

#[test]
fn clock_going_back_counts_as_fresh() {
    let c: Cache<u8> = Cache::new("kind", 7).with_ttl(10);
    let entry = CacheEntry { data: 9, version: 7, created_at: 100 };
    assert_eq!(c.get(Some(entry), 50), Some(9));
    let zero: Cache<u8> = Cache::new("kind", 7).with_ttl(0);
    let entry = CacheEntry { data: 9, version: 7, created_at: 100 };
    assert_eq!(zero.get(Some(entry), 100), None);
}

#[test]
fn tile_ttl_is_thirty_one_days() {
    let c: Cache<u8> = Cache::new("gpx_tile", 1).with_ttl(bar::tiles::TILE_CACHE_TTL_MS);
    let day: u64 = 24 * 60 * 60 * 1000;
    let fresh = CacheEntry { data: 1, version: 1, created_at: 0 };
    assert_eq!(c.get(Some(fresh), 31 * day - 1), Some(1));
    let stale = CacheEntry { data: 1, version: 1, created_at: 0 };
    assert_eq!(c.get(Some(stale), 31 * day), None);
}
