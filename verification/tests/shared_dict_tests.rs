use candy::lua_engine::shared_dict::{SharedDict, SharedDictEntry, SharedDictError};

const MS: u64 = 1_000_000;

#[test]
fn test_shared_dict_basic() {
    let mut dict = SharedDict::new("test".to_string(), 1024);

    let result = dict.set("key1", b"value1".to_vec(), None, 0);
    assert!(result.success);
    assert!(result.err.is_none());
    assert!(!result.forcible);

    let (value, flags) = dict.get("key1").unwrap();
    assert_eq!(value, b"value1");
    assert_eq!(flags, 0);
}

#[test]
fn test_shared_dict_with_flags() {
    let mut dict = SharedDict::new("test".to_string(), 1024);

    dict.set("key1", b"value1".to_vec(), None, 42);
    let (_, flags) = dict.get("key1").unwrap();
    assert_eq!(flags, 42);
}

#[test]
fn test_shared_dict_not_found() {
    let dict = SharedDict::new("test".to_string(), 1024);

    assert!(dict.get("nonexistent").is_none());
}

#[test]
fn test_shared_dict_delete() {
    let mut dict = SharedDict::new("test".to_string(), 1024);

    dict.set("key1", b"value1".to_vec(), None, 0);
    assert!(dict.delete("key1"));
    assert!(dict.get("key1").is_none());
    assert!(!dict.delete("key1"));
}

#[test]
fn test_shared_dict_add() {
    let mut dict = SharedDict::new("test".to_string(), 1024);

    assert!(dict.add("key1", b"value1".to_vec(), None, 0).unwrap());
    assert!(!dict.add("key1", b"value2".to_vec(), None, 0).unwrap());

    let (value, _) = dict.get("key1").unwrap();
    assert_eq!(value, b"value1");
}

#[test]
fn test_shared_dict_replace() {
    let mut dict = SharedDict::new("test".to_string(), 1024);

    assert!(!dict.replace("key1", b"value1".to_vec(), None, 0).unwrap());

    dict.set("key1", b"value1".to_vec(), None, 0);
    assert!(dict.replace("key1", b"value2".to_vec(), None, 0).unwrap());

    let (value, _) = dict.get("key1").unwrap();
    assert_eq!(value, b"value2");
}

#[test]
fn test_shared_dict_incr() {
    let mut dict = SharedDict::new("test".to_string(), 1024);

    assert!(matches!(dict.incr("key1", 1, None, None), Err(SharedDictError::NotFound)));

    let result = dict.incr("key1", 5, Some(0), None).unwrap();
    assert_eq!(result, 5);

    let result = dict.incr("key1", 3, None, None).unwrap();
    assert_eq!(result, 8);

    let result = dict.incr("key1", -2, None, None).unwrap();
    assert_eq!(result, 6);
}

#[test]
fn test_shared_dict_ttl() {
    let mut dict = SharedDict::new("test".to_string(), 1024);

    // 0.1 s lifetime, read back at once and 150 ms later.
    dict.set_at("key1", b"value1".to_vec(), Some(100 * MS), 0, 1_000 * MS);
    assert!(dict.get_at("key1", 1_000 * MS).is_some());
    assert!(dict.get_at("key1", 1_150 * MS).is_none());

    let (_, _, stale) = dict.get_stale_at("key1", 1_150 * MS).unwrap();
    assert!(stale);
}

#[test]
fn test_shared_dict_flush_expired() {
    let mut dict = SharedDict::new("test".to_string(), 1024);

    dict.set_at("key1", b"value1".to_vec(), Some(50 * MS), 0, 1_000 * MS);
    dict.set_at("key2", b"value2".to_vec(), None, 0, 1_000 * MS);

    let count = dict.flush_expired_at(1_100 * MS);
    assert_eq!(count, 1);

    assert!(dict.get("key2").is_some());
}

#[test]
fn test_shared_dict_get_keys() {
    let mut dict = SharedDict::new("test".to_string(), 1024);

    dict.set("key1", b"value1".to_vec(), None, 0);
    dict.set("key2", b"value2".to_vec(), None, 0);
    dict.set("key3", b"value3".to_vec(), None, 0);

    let keys = dict.get_keys(None);
    assert_eq!(keys.len(), 3);
    assert!(keys.contains(&"key1".to_string()));
    assert!(keys.contains(&"key2".to_string()));
    assert!(keys.contains(&"key3".to_string()));

    let keys = dict.get_keys(Some(2));
    assert_eq!(keys.len(), 2);
}

#[test]
fn test_shared_dict_capacity() {
    let mut dict = SharedDict::new("test".to_string(), 100);

    let result = dict.set("key1", b"short".to_vec(), None, 0);
    assert!(result.success);

    let large_value = vec![0u8; 200];
    let result = dict.set("key2", large_value, None, 0);
    assert!(!result.success);
    assert_eq!(result.err, Some("no memory".to_string()));
}

#[test]
fn test_shared_dict_flush_all() {
    let mut dict = SharedDict::new("test".to_string(), 1024);

    dict.set("key1", b"value1".to_vec(), None, 0);
    dict.set("key2", b"value2".to_vec(), None, 0);

    dict.flush_all();

    assert!(dict.get("key1").is_none());
    assert!(dict.get("key2").is_none());
}

#[test]
fn test_shared_dict_lru_eviction() {
    let mut dict = SharedDict::new("test".to_string(), 200);

    dict.set("key1", b"value1".to_vec(), None, 0);
    dict.set("key2", b"value2".to_vec(), None, 0);
    dict.set("key3", b"value3".to_vec(), None, 0);
    dict.set("key4", b"value4".to_vec(), None, 0);
    dict.set("key5", b"value5".to_vec(), None, 0);

    dict.get("key1");
    dict.get("key2");

    let result = dict.set("big_key", "x".repeat(50).into_bytes(), None, 0);

    assert!(result.success);
    assert!(result.forcible);
}

// Behaviour at given times.

#[test]
fn shared_dict_used_capacity_counts_key_value_and_overhead() {
    let mut dict = SharedDict::new("d".to_string(), 1024);
    assert_eq!(dict.used_capacity(), 0);
    dict.set_at("abc", b"12345".to_vec(), None, 0, 10);
    assert_eq!(dict.used_capacity(), 3 + 5 + 32);
    // a key's size is its UTF-8 length
    dict.set_at("é", b"".to_vec(), None, 0, 10);
    assert_eq!(dict.used_capacity(), 40 + 2 + 32);
    assert!(dict.has_capacity(1024 - 74));
    assert!(!dict.has_capacity(1024 - 73));
}

#[test]
fn shared_dict_eviction_removes_least_recently_used_first() {
    let mut dict = SharedDict::new("d".to_string(), 130);
    // each entry counts 4 + 6 + 32 = 42
    dict.set_at("key1", b"value1".to_vec(), None, 0, 300);
    dict.set_at("key2", b"value2".to_vec(), None, 0, 100);
    dict.set_at("key3", b"value3".to_vec(), None, 0, 200);
    let r = dict.set_at("key4", b"value4".to_vec(), None, 0, 400);
    assert!(r.success);
    assert!(r.forcible);
    assert!(dict.get_at("key2", 500).is_none());
    assert!(dict.get_at("key1", 500).is_some());
    assert!(dict.get_at("key3", 500).is_some());
    assert!(dict.get_at("key4", 500).is_some());
}

#[test]
fn shared_dict_set_purges_expired_before_evicting() {
    let mut dict = SharedDict::new("d".to_string(), 90);
    dict.set_at("old1", b"value1".to_vec(), Some(10), 0, 100);
    dict.set_at("key2", b"value2".to_vec(), None, 0, 50);
    let r = dict.set_at("key3", b"value3".to_vec(), None, 0, 200);
    assert!(r.success);
    assert!(!r.forcible);
    assert!(dict.get_stale_at("old1", 200).is_none());
    assert!(dict.get_at("key2", 200).is_some());
}

#[test]
fn shared_dict_safe_set_and_safe_add_never_evict() {
    let mut dict = SharedDict::new("d".to_string(), 100);
    assert_eq!(dict.safe_set_at("key1", b"short".to_vec(), None, 0, 1), Ok(false));
    assert_eq!(dict.safe_set_at("key1", b"other".to_vec(), None, 7, 1), Ok(true));
    assert_eq!(dict.safe_set_at("key2", vec![0u8; 200], None, 0, 1), Err(SharedDictError::NoMemory));
    assert_eq!(dict.safe_add_at("key1", b"x".to_vec(), None, 0, 1), Ok(false));
    assert_eq!(dict.safe_add_at("key3", vec![0u8; 200], None, 0, 1), Err(SharedDictError::NoMemory));
    assert_eq!(dict.safe_add_at("key3", b"x".to_vec(), None, 0, 1), Ok(true));
    assert_eq!(dict.get_at("key1", 1), Some((b"other".to_vec(), 7)));
}

#[test]
fn shared_dict_add_fails_without_room() {
    let mut dict = SharedDict::new("d".to_string(), 60);
    assert_eq!(dict.add_at("key1", b"value1".to_vec(), None, 0, 1), Ok(true));
    assert_eq!(dict.add_at("key2", b"value2".to_vec(), None, 0, 1), Err(SharedDictError::NoMemory));
    assert!(dict.get_at("key1", 1).is_some());
}

#[test]
fn shared_dict_replace_counts_expired_entries_as_present() {
    let mut dict = SharedDict::new("d".to_string(), 1024);
    dict.set_at("k", b"v".to_vec(), Some(5), 0, 10);
    assert_eq!(dict.replace_at("k", b"w".to_vec(), None, 3, 100), Ok(true));
    assert_eq!(dict.get_at("k", 100), Some((b"w".to_vec(), 3)));
}

#[test]
fn shared_dict_incr_errors_and_restart() {
    let mut dict = SharedDict::new("d".to_string(), 1024);
    dict.set_at("text", b"abc".to_vec(), None, 0, 1);
    assert_eq!(dict.incr_at("text", 1, Some(0), None, 1), Err(SharedDictError::NotANumber));
    dict.set_at("spaced", b" 41 ".to_vec(), None, 9, 1);
    assert_eq!(dict.incr_at("spaced", 1, None, None, 1), Ok(42));
    assert_eq!(dict.get_at("spaced", 1), Some((b"42".to_vec(), 9)));
    dict.set_at("neg", b"-5".to_vec(), Some(10), 0, 1);
    assert_eq!(dict.incr_at("neg", -5, None, None, 2), Ok(-10));
    assert_eq!(dict.get_at("neg", 2), Some((b"-10".to_vec(), 0)));
    // expired: starts again from the initial value
    assert_eq!(dict.incr_at("neg", 1, Some(100), None, 50), Ok(101));
    assert_eq!(dict.incr_at("missing", 1, None, None, 50), Err(SharedDictError::NotFound));
    let mut tiny = SharedDict::new("t".to_string(), 10);
    assert_eq!(tiny.incr_at("k", 1, Some(0), None, 1), Err(SharedDictError::NoMemory));
}

#[test]
fn shared_dict_incr_twice_adds_both() {
    let mut dict = SharedDict::new("d".to_string(), 1024);
    assert_eq!(dict.incr_at("c", 2, Some(i64::MAX - 10), None, 1), Ok(i64::MAX - 8));
    assert_eq!(dict.incr_at("c", 8, None, None, 2), Ok(i64::MAX));
    assert_eq!(dict.get_at("c", 2).unwrap().0, i64::MAX.to_string().into_bytes());
}

#[test]
fn shared_dict_keys_and_len_skip_expired() {
    let mut dict = SharedDict::new("d".to_string(), 1024);
    dict.set_at("a", b"1".to_vec(), Some(10), 0, 0);
    dict.set_at("b", b"2".to_vec(), None, 0, 0);
    assert_eq!(dict.len_at(5), 2);
    assert_eq!(dict.len_at(20), 1);
    assert_eq!(dict.get_keys_at(None, 20), vec!["b".to_string()]);
    assert_eq!(dict.get_keys_at(Some(0), 5).len(), 2);
    assert_eq!(dict.get_keys_at(Some(1), 5).len(), 1);
    assert!(!dict.is_empty_at(20));
    dict.flush_all();
    assert!(dict.is_empty_at(20));
}

#[test]
fn shared_dict_entry_remaining_ttl() {
    let e = SharedDictEntry::full_at(b"v".to_vec(), Some(100), 0, 1_000);
    assert_eq!(e.remaining_ttl_at(1_040), Some(60));
    assert_eq!(e.remaining_ttl_at(2_000), Some(0));
    let f = SharedDictEntry::full_at(b"v".to_vec(), None, 0, 1_000);
    assert_eq!(f.remaining_ttl_at(2_000), None);
    assert!(e.is_live_at(1_100));
    assert!(!e.is_live_at(1_101));
}

#[test]
fn shared_dict_entry_constructors_and_clock_forms() {
    let e = SharedDictEntry::with_ttl(b"v".to_vec(), 60_000 * MS);
    assert!(e.expires_at.unwrap() >= e.last_access);
    assert!(!e.is_stale());
    assert!(e.remaining_ttl().unwrap() <= 60_000 * MS);
    let mut f = SharedDictEntry::with_flags(b"w".to_vec(), 9);
    assert_eq!(f.user_flags, 9);
    assert!(f.expires_at.is_none());
    assert_eq!(f.remaining_ttl(), None);
    f.touch();
    assert_eq!(f.value, b"w");

    let mut dict = SharedDict::new("d".to_string(), 1024);
    assert_eq!(dict.safe_set("a", b"1".to_vec(), None, 0), Ok(false));
    assert_eq!(dict.safe_add("a", b"2".to_vec(), None, 0), Ok(false));
    assert_eq!(dict.get_stale("a"), Some((b"1".to_vec(), 0, false)));
    assert_eq!(dict.flush_expired(), 0);
    assert_eq!(dict.len(), 1);
    assert!(!dict.is_empty());
}
