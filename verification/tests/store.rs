use redis_starter_rust::store::Store;

#[test]
fn set_then_get_returns_value() {
    let mut store = Store::new();
    store.set(b"key".to_vec(), b"value".to_vec(), None, 100);
    assert_eq!(store.get(&b"key".to_vec(), 100), Some(b"value".to_vec()));
}

#[test]
fn get_missing_returns_none() {
    let mut store = Store::new();
    assert_eq!(store.get(&b"never-set".to_vec(), 0), None);
    store.set(b"other".to_vec(), b"x".to_vec(), None, 0);
    assert_eq!(store.get(&b"never-set".to_vec(), 5), None);
}

#[test]
fn overwrite_replaces_value() {
    let mut store = Store::new();
    store.set(b"k".to_vec(), b"first".to_vec(), None, 0);
    store.set(b"k".to_vec(), b"second".to_vec(), None, 1);
    assert_eq!(store.get(&b"k".to_vec(), 2), Some(b"second".to_vec()));
}

#[test]
fn ttl_live_strictly_before_expiry() {
    let mut store = Store::new();
    store.set(b"k".to_vec(), b"v".to_vec(), Some(10), 0);
    assert_eq!(store.get(&b"k".to_vec(), 9), Some(b"v".to_vec()));
}

#[test]
fn ttl_boundary_still_live() {
    // The boundary this store commits to: at exactly the time-to-live the
    // entry is still returned.
    let mut store = Store::new();
    store.set(b"k".to_vec(), b"v".to_vec(), Some(10), 0);
    assert_eq!(store.get(&b"k".to_vec(), 10), Some(b"v".to_vec()));
}

#[test]
fn ttl_expired_after_expiry() {
    let mut store = Store::new();
    store.set(b"k".to_vec(), b"v".to_vec(), Some(10), 0);
    assert_eq!(store.get(&b"k".to_vec(), 11), None);
}

#[test]
fn expired_entry_is_removed() {
    let mut store = Store::new();
    store.set(b"k".to_vec(), b"v".to_vec(), Some(10), 0);
    assert_eq!(store.get(&b"k".to_vec(), 50), None);
    // The entry is gone for good, even at a time when it would have been live.
    assert_eq!(store.get(&b"k".to_vec(), 5), None);
}

#[test]
fn no_expiry_means_never_expires() {
    // "Never expires" is recorded as the largest expiry the entry can carry.
    let mut store = Store::new();
    store.set(b"k".to_vec(), b"v".to_vec(), None, 0);
    assert_eq!(store.get(&b"k".to_vec(), u32::MAX as u64), Some(b"v".to_vec()));
}

#[test]
fn keys_are_independent() {
    let mut store = Store::new();
    store.set(b"a".to_vec(), b"1".to_vec(), None, 0);
    store.set(b"b".to_vec(), b"2".to_vec(), Some(5), 0);
    assert_eq!(store.get(&b"b".to_vec(), 100), None);
    assert_eq!(store.get(&b"a".to_vec(), 100), Some(b"1".to_vec()));
}
