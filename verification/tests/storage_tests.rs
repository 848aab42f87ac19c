use grow_a_cache::storage::{Storage, StorageResult, ITEM_OVERHEAD};

#[test]
fn test_basic_set_get() {
    let mut storage = Storage::new(1024 * 1024, 0);

    let result = storage.set(b"key1", b"value1".to_vec(), 0, 0);
    assert_eq!(result, StorageResult::Stored);

    let item = storage.get(b"key1").unwrap();
    assert_eq!(item.value, b"value1");
    assert_eq!(item.flags, 0);
}

#[test]
fn test_get_nonexistent() {
    let mut storage = Storage::new(1024 * 1024, 0);
    assert!(storage.get(b"nonexistent").is_none());
}

#[test]
fn test_delete() {
    let mut storage = Storage::new(1024 * 1024, 0);

    storage.set(b"key1", b"value1".to_vec(), 0, 0);
    assert!(storage.get(b"key1").is_some());

    let result = storage.delete(b"key1");
    assert_eq!(result, StorageResult::Deleted);
    assert!(storage.get(b"key1").is_none());

    let result = storage.delete(b"key1");
    assert_eq!(result, StorageResult::NotFound);
}

#[test]
fn test_add_existing() {
    let mut storage = Storage::new(1024 * 1024, 0);

    storage.set(b"key1", b"value1".to_vec(), 0, 0);

    let result = storage.add(b"key1", b"value2".to_vec(), 0, 0);
    assert_eq!(result, StorageResult::NotStored);

    // Value should remain unchanged
    let item = storage.get(b"key1").unwrap();
    assert_eq!(item.value, b"value1");
}

#[test]
fn test_add_new() {
    let mut storage = Storage::new(1024 * 1024, 0);

    let result = storage.add(b"key1", b"value1".to_vec(), 0, 0);
    assert_eq!(result, StorageResult::Stored);

    let item = storage.get(b"key1").unwrap();
    assert_eq!(item.value, b"value1");
}

#[test]
fn test_replace_existing() {
    let mut storage = Storage::new(1024 * 1024, 0);

    storage.set(b"key1", b"value1".to_vec(), 0, 0);

    let result = storage.replace(b"key1", b"value2".to_vec(), 0, 0);
    assert_eq!(result, StorageResult::Stored);

    let item = storage.get(b"key1").unwrap();
    assert_eq!(item.value, b"value2");
}

#[test]
fn test_replace_nonexistent() {
    let mut storage = Storage::new(1024 * 1024, 0);

    let result = storage.replace(b"key1", b"value1".to_vec(), 0, 0);
    assert_eq!(result, StorageResult::NotStored);
}

#[test]
fn test_cas_success() {
    let mut storage = Storage::new(1024 * 1024, 0);

    storage.set(b"key1", b"value1".to_vec(), 0, 0);
    let item = storage.get(b"key1").unwrap();
    let cas = item.cas_unique;

    let result = storage.cas(b"key1", b"value2".to_vec(), 0, 0, cas);
    assert_eq!(result, StorageResult::Stored);

    let item = storage.get(b"key1").unwrap();
    assert_eq!(item.value, b"value2");
}

#[test]
fn test_cas_mismatch() {
    let mut storage = Storage::new(1024 * 1024, 0);

    storage.set(b"key1", b"value1".to_vec(), 0, 0);
    let item = storage.get(b"key1").unwrap();
    let cas = item.cas_unique;

    // Modify the item
    storage.set(b"key1", b"value2".to_vec(), 0, 0);

    // Try CAS with old token
    let result = storage.cas(b"key1", b"value3".to_vec(), 0, 0, cas);
    assert_eq!(result, StorageResult::CasMismatch);

    // Value should remain value2
    let item = storage.get(b"key1").unwrap();
    assert_eq!(item.value, b"value2");
}

#[test]
fn test_cas_not_found() {
    let mut storage = Storage::new(1024 * 1024, 0);

    let result = storage.cas(b"nonexistent", b"value".to_vec(), 0, 0, 1);
    assert_eq!(result, StorageResult::NotFound);
}

#[test]
fn test_expiration_at_instants() {
    let mut storage = Storage::new(1024 * 1024, 0);

    // Set with 1 second TTL at instant 100
    storage.set_at(b"key1", b"value1".to_vec(), 0, 1, 100);

    // Live at the same instant
    assert!(storage.get_at(b"key1", 100).is_some());

    // Expired two seconds later, and removed by the read that observed it
    assert!(storage.get_at(b"key1", 102).is_none());
    assert_eq!(storage.stats().item_count, 0);
}

#[test]
fn test_memory_limit() {
    // Create storage with 500 byte limit
    let mut storage = Storage::new(500, 0);

    // Add items until we hit the limit
    for i in 0..20 {
        let key = format!("key{i}");
        let value = vec![0u8; 50];
        storage.set(key.as_bytes(), value, 0, 0);
    }

    // Memory should be at or below limit
    let stats = storage.stats();
    assert!(stats.memory_used <= 500);
}

#[test]
fn test_get_multi() {
    let mut storage = Storage::new(1024 * 1024, 0);

    storage.set(b"key1", b"value1".to_vec(), 0, 0);
    storage.set(b"key2", b"value2".to_vec(), 0, 0);
    storage.set(b"key3", b"value3".to_vec(), 0, 0);

    let keys: Vec<Vec<u8>> = vec![b"key1".to_vec(), b"key2".to_vec(), b"nonexistent".to_vec()];
    let results = storage.get_multi(&keys);
    assert_eq!(results.len(), 2);
}

#[test]
fn test_append() {
    let mut storage = Storage::new(1024 * 1024, 0);

    storage.set(b"key1", b"Hello".to_vec(), 0, 0);

    let result = storage.append(b"key1", b" World".as_ref());
    assert_eq!(result, StorageResult::Stored);

    let item = storage.get(b"key1").unwrap();
    assert_eq!(item.value, b"Hello World");
}

#[test]
fn test_prepend() {
    let mut storage = Storage::new(1024 * 1024, 0);

    storage.set(b"key1", b"World".to_vec(), 0, 0);

    let result = storage.prepend(b"key1", b"Hello ".as_ref());
    assert_eq!(result, StorageResult::Stored);

    let item = storage.get(b"key1").unwrap();
    assert_eq!(item.value, b"Hello World");
}

#[test]
fn test_flush_all() {
    let mut storage = Storage::new(1024 * 1024, 0);

    storage.set(b"key1", b"value1".to_vec(), 0, 0);
    storage.set(b"key2", b"value2".to_vec(), 0, 0);

    storage.flush_all();

    assert!(storage.get(b"key1").is_none());
    assert!(storage.get(b"key2").is_none());

    let stats = storage.stats();
    assert_eq!(stats.item_count, 0);
    assert_eq!(stats.memory_used, 0);
}

#[test]
fn test_memory_accounting_matches_sum() {
    let mut storage = Storage::new(1024 * 1024, 0);
    storage.set(b"a", b"xy".to_vec(), 0, 0);
    storage.set(b"bb", b"z".to_vec(), 0, 0);
    let expected = (ITEM_OVERHEAD + 1 + 2) + (ITEM_OVERHEAD + 2 + 1);
    assert_eq!(storage.stats().memory_used, expected);
    storage.delete(b"a");
    assert_eq!(storage.stats().memory_used, ITEM_OVERHEAD + 2 + 1);
}

#[test]
fn test_store_then_get_returns_fresh_value() {
    let mut storage = Storage::new(1024 * 1024, 0);
    for (op, val) in [("set", b"one".to_vec()), ("add", b"two".to_vec())] {
        let key = format!("k_{op}");
        let r = if op == "set" {
            storage.set(key.as_bytes(), val.clone(), 7, 0)
        } else {
            storage.add(key.as_bytes(), val.clone(), 7, 0)
        };
        assert_eq!(r, StorageResult::Stored);
        let item = storage.get(key.as_bytes()).unwrap();
        assert_eq!(item.value, val);
        assert_eq!(item.flags, 7);
    }
    let r = storage.append(b"k_set", b"+");
    assert_eq!(r, StorageResult::Stored);
    let item = storage.get(b"k_set").unwrap();
    assert_eq!(item.value, b"one+");
}

#[test]
fn test_cas_tokens_never_repeat() {
    let mut storage = Storage::new(1024 * 1024, 0);
    let mut seen = Vec::new();
    for i in 0..10 {
        let key = format!("k{}", i % 3);
        storage.set(key.as_bytes(), vec![i as u8], 0, 0);
        let token = storage.get(key.as_bytes()).unwrap().cas_unique;
        assert!(!seen.contains(&token), "token reissued");
        seen.push(token);
    }
}

#[test]
fn test_double_set_tokens_differ() {
    let mut storage = Storage::new(1024 * 1024, 0);
    assert_eq!(storage.set(b"k", b"v".to_vec(), 0, 0), StorageResult::Stored);
    let t1 = storage.get(b"k").unwrap().cas_unique;
    assert_eq!(storage.set(b"k", b"v".to_vec(), 0, 0), StorageResult::Stored);
    let t2 = storage.get(b"k").unwrap().cas_unique;
    assert_ne!(t1, t2);
}

#[test]
fn test_expired_never_returned() {
    let mut storage = Storage::new(1024 * 1024, 0);
    storage.set_at(b"k", b"v".to_vec(), 0, 5, 100);
    assert!(storage.get_at(b"k", 105).is_none());
    storage.set_at(b"k", b"9".to_vec(), 0, 5, 200);
    assert_eq!(storage.cas_at(b"k", b"x".to_vec(), 0, 0, 1, 300), StorageResult::NotFound);
    storage.set_at(b"k", b"9".to_vec(), 0, 5, 400);
    assert_eq!(storage.append_at(b"k", b"1", 500), StorageResult::NotStored);
    storage.set_at(b"k", b"9".to_vec(), 0, 5, 600);
    assert_eq!(storage.prepend_at(b"k", b"1", 700), StorageResult::NotStored);
    let keys = vec![b"k".to_vec()];
    storage.set_at(b"k", b"9".to_vec(), 0, 5, 800);
    assert!(storage.get_multi_at(&keys, 900).is_empty());
}

#[test]
fn test_lru_eviction_order() {
    // About 80 bytes per item: 64 overhead + 3 key bytes + 13 value bytes.
    let mut storage = Storage::new(1000, 0);
    for i in 0..30 {
        let key = format!("k{:02}", i);
        storage.set(key.as_bytes(), vec![7u8; 13], 0, 0);
    }
    // The oldest item was evicted to stay within the budget.
    assert!(storage.get(b"k00").is_none());
    assert!(storage.stats().memory_used <= 1000);
    // The most recent item is still there.
    assert!(storage.get(b"k29").is_some());
}

#[test]
fn test_cleanup_expired_sweep() {
    let mut storage = Storage::new(1024 * 1024, 0);
    storage.set_at(b"a", b"1".to_vec(), 0, 5, 100);
    storage.set_at(b"b", b"2".to_vec(), 0, 0, 100);
    storage.set_at(b"c", b"3".to_vec(), 0, 5, 100);
    let removed = storage.cleanup_expired_at(200);
    assert_eq!(removed, 2);
    assert_eq!(storage.stats().item_count, 1);
    assert!(storage.get_at(b"b", 200).is_some());
}
