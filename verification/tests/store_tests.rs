use aetherscope::error::AppError;
use aetherscope::store::MemObjectStore;

#[test]
fn store_round_trip() {
    let mut store = MemObjectStore::new();
    let contents = "Hello world!".as_bytes();
    let key = "test_key";

    assert_eq!(store.get(key).unwrap_err(), AppError::NotFound);

    store.put(key, contents);
    assert_eq!(store.get(key).unwrap(), contents);
    assert!(store.contains(key));

    store.delete(key);
    assert_eq!(store.get(key).unwrap_err(), AppError::NotFound);
    assert!(!store.contains(key));
}

#[test]
fn put_overwrites() {
    let mut store = MemObjectStore::new();
    store.put("k", b"one");
    store.put("k", b"two");
    assert_eq!(store.get("k").unwrap(), b"two");
}

#[test]
fn delete_of_absent_key_is_silent() {
    let mut store = MemObjectStore::new();
    store.put("other", b"x");
    store.delete("missing");
    assert_eq!(store.get("other").unwrap(), b"x");
}
