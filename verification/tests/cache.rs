use valhalla_size_viz::cache::CacheKey;
use valhalla_size_viz::tiles::Encoding;
use valhalla_size_viz::SizeCache;

fn key(level: u8, tile_id: u32, encoding: Encoding) -> CacheKey {
    CacheKey {
        level,
        tile_id,
        encoding,
    }
}

fn new_cache() -> SizeCache {
    SizeCache::new()
}

#[test]
fn new_cache_is_empty() {
    let cache = new_cache();
    assert_eq!(cache.len(), 0);
    assert!(cache.get(&key(2, 818660, Encoding::Zstd)).is_none());
}

#[test]
fn insert_and_get_round_trip() {
    let mut cache = new_cache();
    let k = key(2, 818660, Encoding::Zstd);
    cache.insert(k, Some(2435));
    assert_eq!(cache.get(&k), Some(Some(2435)));
    assert_eq!(cache.len(), 1);
}

#[test]
fn insert_overwrites_existing_value() {
    let mut cache = new_cache();
    let k = key(1, 51234, Encoding::Gzip);
    assert_eq!(cache.insert(k, Some(100)), None);
    assert_eq!(cache.insert(k, Some(200)), Some(Some(100)));
    assert_eq!(cache.get(&k), Some(Some(200)));
    assert_eq!(cache.len(), 1);
}

#[test]
fn separate_entries_per_encoding() {
    let mut cache = new_cache();
    let identity_key = key(2, 818660, Encoding::Identity);
    let gzip_key = key(2, 818660, Encoding::Gzip);
    let zstd_key = key(2, 818660, Encoding::Zstd);

    cache.insert(identity_key, Some(10_000));
    cache.insert(gzip_key, Some(4_000));
    cache.insert(zstd_key, Some(2_435));

    assert_eq!(cache.get(&identity_key), Some(Some(10_000)));
    assert_eq!(cache.get(&gzip_key), Some(Some(4_000)));
    assert_eq!(cache.get(&zstd_key), Some(Some(2_435)));
    assert_eq!(cache.len(), 3);
}

#[test]
fn missing_tile_cached_as_none() {
    let mut cache = new_cache();
    let k = key(0, 529, Encoding::Identity);
    cache.insert(k, None);
    assert_eq!(cache.get(&k), Some(None));
    assert_eq!(cache.len(), 1);
}

#[test]
fn unknown_key_returns_none() {
    let mut cache = new_cache();
    cache.insert(key(0, 1, Encoding::Zstd), Some(42));
    assert!(cache.get(&key(0, 2, Encoding::Zstd)).is_none());
    assert!(cache.get(&key(1, 1, Encoding::Zstd)).is_none());
    assert!(cache.get(&key(0, 1, Encoding::Gzip)).is_none());
}

#[test]
fn many_entries_are_told_apart() {
    let mut cache = new_cache();
    for id in 0..3_000u32 {
        cache.insert(key((id % 3) as u8, id, Encoding::Gzip), Some(id as u64));
    }
    assert_eq!(cache.len(), 3_000);
    for id in 0..3_000u32 {
        assert_eq!(
            cache.get(&key((id % 3) as u8, id, Encoding::Gzip)),
            Some(Some(id as u64))
        );
    }
}
