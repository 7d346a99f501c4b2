//! Store tests: expiry-aware lookup and overwrite semantics.

use resp_core::store::Store;

#[test]
fn set_then_get_returns_value() {
    let mut store = Store::new();
    store.set(b"k".to_vec(), b"v".to_vec(), None, 0);
    assert_eq!(store.get(&b"k".to_vec(), 0), Some(b"v".to_vec()));
    assert_eq!(store.get(&b"k".to_vec(), u64::MAX), Some(b"v".to_vec()));
}

#[test]
fn get_of_missing_key_is_absent() {
    let store = Store::new();
    assert_eq!(store.get(&b"missing".to_vec(), 0), None);
}

#[test]
fn expiry_semantics() {
    // Stored at time 0 with a 100 ms expiry: visible strictly before 100,
    // absent at and after 100.
    let mut store = Store::new();
    store.set(b"k".to_vec(), b"v".to_vec(), Some(100), 0);
    assert_eq!(store.get(&b"k".to_vec(), 0), Some(b"v".to_vec()));
    assert_eq!(store.get(&b"k".to_vec(), 99), Some(b"v".to_vec()));
    assert_eq!(store.get(&b"k".to_vec(), 100), None);
    assert_eq!(store.get(&b"k".to_vec(), 5000), None);
}

#[test]
fn overwrite_clears_expiry() {
    // A later unconditional set replaces the value and drops the earlier
    // expiry: the key stays visible after the old deadline.
    let mut store = Store::new();
    store.set(b"k".to_vec(), b"v1".to_vec(), Some(10), 0);
    store.set(b"k".to_vec(), b"v2".to_vec(), None, 5);
    assert_eq!(store.get(&b"k".to_vec(), 10), Some(b"v2".to_vec()));
    assert_eq!(store.get(&b"k".to_vec(), u64::MAX), Some(b"v2".to_vec()));
}

#[test]
fn overwrite_replaces_value_before_expiry() {
    let mut store = Store::new();
    store.set(b"k".to_vec(), b"v1".to_vec(), None, 0);
    store.set(b"k".to_vec(), b"v2".to_vec(), Some(50), 0);
    assert_eq!(store.get(&b"k".to_vec(), 0), Some(b"v2".to_vec()));
    assert_eq!(store.get(&b"k".to_vec(), 50), None);
}

#[test]
fn keys_are_independent() {
    let mut store = Store::new();
    store.set(b"a".to_vec(), b"1".to_vec(), Some(10), 0);
    store.set(b"b".to_vec(), b"2".to_vec(), None, 0);
    assert_eq!(store.get(&b"a".to_vec(), 20), None);
    assert_eq!(store.get(&b"b".to_vec(), 20), Some(b"2".to_vec()));
}
