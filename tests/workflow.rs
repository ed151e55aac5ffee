use safe_remove::cache::{Cache, MemoryCache};
use safe_remove::codec::{decode_key, encode_file_path};
use safe_remove::workflow::{
    plan_staging, restore, stage_and_remove, Decision, EntryKind, RemoveOptions, RestoreOutcome,
    SkipReason, StageError, StageItem,
};

fn file(path: &str, content: Option<&[u8]>) -> StageItem {
    StageItem { path: path.to_string(), kind: EntryKind::File, content: content.map(|c| c.to_vec()) }
}

const CACHING: RemoveOptions = RemoveOptions { use_cache: true, include_dirs: false, recursive: false };

#[test]
fn remove_with_cache_then_restore() {
    let mut cache = MemoryCache::new();
    let items = vec![file("/work/report.txt", Some(b"hello"))];
    let plans = stage_and_remove(&mut cache, &items, CACHING);
    assert_eq!(plans.len(), 1);
    assert_eq!(plans[0].decision, Decision::CacheThenRemove);
    let key = plans[0].key.clone().unwrap();
    assert_eq!(decode_key(&key), Ok("/work/report.txt".to_string()));
    assert_eq!(cache.load(&key), Some(b"hello".to_vec()));

    let outcomes = restore(&cache, &vec![key]);
    assert_eq!(outcomes.len(), 1);
    match &outcomes[0] {
        RestoreOutcome::Write { path, content } => {
            assert_eq!(path, "/work/report.txt");
            assert_eq!(content, b"hello");
        }
        other => panic!("unexpected outcome {:?}", other),
    }
}

#[test]
fn non_empty_directory_without_recursive_is_skipped() {
    let mut cache = MemoryCache::new();
    let opts = RemoveOptions { use_cache: true, include_dirs: true, recursive: false };
    let items = vec![
        StageItem { path: "/work/dir".to_string(), kind: EntryKind::Directory, content: None },
        file("/work/b.txt", Some(b"b")),
    ];
    let plans = stage_and_remove(&mut cache, &items, opts);
    assert_eq!(plans[0].decision, Decision::Skip(SkipReason::DirectoryNotEmpty));
    assert!(plans[0].key.is_none());
    assert_eq!(plans[1].decision, Decision::CacheThenRemove);
    let dir_key = encode_file_path(Some("/work/dir")).unwrap();
    assert!(!cache.has(&dir_key));
}

#[test]
fn unreadable_file_is_kept_and_the_next_is_staged() {
    let mut cache = MemoryCache::new();
    let items = vec![file("/work/secret.txt", None), file("/work/plain.txt", Some(b"ok"))];
    let plans = stage_and_remove(&mut cache, &items, CACHING);
    assert_eq!(plans[0].decision, Decision::Fail(StageError::Unreadable));
    assert!(plans[0].key.is_none());
    assert_eq!(plans[1].decision, Decision::CacheThenRemove);
    let first = encode_file_path(Some("/work/secret.txt")).unwrap();
    let second = encode_file_path(Some("/work/plain.txt")).unwrap();
    assert!(!cache.has(&first));
    assert_eq!(cache.load(&second), Some(b"ok".to_vec()));
}

#[test]
fn directory_rules() {
    let dir = StageItem { path: "/d".to_string(), kind: EntryKind::EmptyDirectory, content: None };
    let full = StageItem { path: "/f".to_string(), kind: EntryKind::Directory, content: None };
    let no_dirs = RemoveOptions { use_cache: false, include_dirs: false, recursive: true };
    assert_eq!(plan_staging(&dir, no_dirs).decision, Decision::Skip(SkipReason::DirectoryNotIncluded));
    let dirs = RemoveOptions { use_cache: false, include_dirs: true, recursive: false };
    assert_eq!(plan_staging(&dir, dirs).decision, Decision::Remove);
    let recursive = RemoveOptions { use_cache: false, include_dirs: true, recursive: true };
    assert_eq!(plan_staging(&full, recursive).decision, Decision::Remove);
    let cached = RemoveOptions { use_cache: true, include_dirs: true, recursive: true };
    assert_eq!(plan_staging(&full, cached).decision, Decision::Fail(StageError::DirectoryNotCacheable));
}

#[test]
fn removal_without_cache_stores_nothing() {
    let mut cache = MemoryCache::new();
    let opts = RemoveOptions { use_cache: false, include_dirs: false, recursive: false };
    let items = vec![file("/work/a.txt", Some(b"a"))];
    let plans = stage_and_remove(&mut cache, &items, opts);
    assert_eq!(plans[0].decision, Decision::Remove);
    assert!(plans[0].key.is_none());
    assert!(!cache.has(&encode_file_path(Some("/work/a.txt")).unwrap()));
}

#[test]
fn restoring_unknown_key_is_not_found() {
    let cache = MemoryCache::new();
    let key = encode_file_path(Some("/nowhere.txt")).unwrap();
    let outcomes = restore(&cache, &vec![key]);
    assert!(matches!(outcomes[0], RestoreOutcome::NotFound));
}

#[test]
fn restoring_a_malformed_stored_key() {
    let mut cache = MemoryCache::new();
    cache.store("!!", vec![1]);
    let outcomes = restore(&cache, &vec!["!!".to_string()]);
    assert!(matches!(outcomes[0], RestoreOutcome::Malformed));
}

#[test]
fn restore_twice_gives_same_content_and_keeps_entry() {
    let mut cache = MemoryCache::new();
    let key = encode_file_path(Some("/work/r.txt")).unwrap();
    cache.store(&key, b"data".to_vec());
    let keys = vec![key.clone()];
    let first = restore(&cache, &keys);
    let second = restore(&cache, &keys);
    for out in [&first[0], &second[0]] {
        match out {
            RestoreOutcome::Write { path, content } => {
                assert_eq!(path, "/work/r.txt");
                assert_eq!(content, b"data");
            }
            other => panic!("unexpected outcome {:?}", other),
        }
    }
    assert!(cache.has(&key));
}
