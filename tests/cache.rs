use safe_remove::cache::{Cache, CacheError, DiskCache, LocationKind, LocationStep, MemoryCache};

#[test]
fn test_in_memory_cache() {
    let mut cache = MemoryCache::new();

    cache.store("key", vec![1, 2, 3]);
    assert_eq!(cache.load("key"), Some(vec![1, 2, 3]));
}

#[test]
fn store_then_load_and_has() {
    let mut cache = MemoryCache::new();
    cache.store("a", vec![9, 8]);
    assert!(cache.has("a"));
    assert_eq!(cache.load("a"), Some(vec![9, 8]));
}

#[test]
fn store_overwrites_previous_payload() {
    let mut cache = MemoryCache::new();
    cache.store("k", vec![1]);
    cache.store("other", vec![5]);
    cache.store("k", vec![2, 2]);
    assert_eq!(cache.load("k"), Some(vec![2, 2]));
    assert_eq!(cache.load("other"), Some(vec![5]));
}

#[test]
fn never_stored_key_is_absent() {
    let mut cache = MemoryCache::new();
    assert!(!cache.has("missing"));
    assert_eq!(cache.load("missing"), None);
    cache.store("present", vec![]);
    assert!(!cache.has("missing"));
    assert_eq!(cache.load("missing"), None);
    assert_eq!(cache.load("present"), Some(vec![]));
}

#[test]
fn disk_cache_on_regular_file_is_refused() {
    assert_eq!(DiskCache::location_step(LocationKind::File), LocationStep::Reject);
    let r = DiskCache::new("/tmp/cache".to_string(), LocationKind::File, false);
    assert!(matches!(r, Err(CacheError::InvalidLocation)));
}

#[test]
fn disk_cache_creation_failure_is_reported() {
    assert_eq!(DiskCache::location_step(LocationKind::Missing), LocationStep::Create);
    let r = DiskCache::new("/tmp/cache".to_string(), LocationKind::Missing, false);
    assert!(matches!(r, Err(CacheError::DirectoryCreateFailed)));
}

#[test]
fn disk_cache_entry_path_joins_location_and_key() {
    assert_eq!(DiskCache::location_step(LocationKind::Directory), LocationStep::Open);
    let cache = DiskCache::new("/tmp/cache".to_string(), LocationKind::Directory, false).unwrap();
    assert_eq!(cache.entry_path("key"), "/tmp/cache/key");
    let created = DiskCache::new("/var/c".to_string(), LocationKind::Missing, true).unwrap();
    assert_eq!(created.entry_path("L2E_Pg=="), "/var/c/L2E_Pg==");
}
