use std::collections::BTreeSet;
use url_batch::admission::Admission;
use url_batch::store::ResultStore;

fn as_set(v: Vec<(Vec<u8>, Vec<u8>)>) -> BTreeSet<(Vec<u8>, Vec<u8>)> {
    v.into_iter().collect()
}

#[test]
fn new_store_is_empty() {
    let store = ResultStore::new().unwrap();
    assert!(store.scan().unwrap().is_empty());
}

#[test]
fn put_then_scan_returns_the_entry() {
    let mut store = ResultStore::new().unwrap();
    store.put(b"k", b"v").unwrap();
    assert_eq!(store.scan().unwrap(), vec![(b"k".to_vec(), b"v".to_vec())]);
}

#[test]
fn put_overwrites_same_key() {
    let mut store = ResultStore::new().unwrap();
    store.put(b"k", b"first").unwrap();
    store.put(b"k", b"second").unwrap();
    store.put(b"j", b"other").unwrap();
    let got = as_set(store.scan().unwrap());
    let want: BTreeSet<_> = vec![
        (b"k".to_vec(), b"second".to_vec()),
        (b"j".to_vec(), b"other".to_vec()),
    ]
    .into_iter()
    .collect();
    assert_eq!(got, want);
}

#[test]
fn scan_twice_gives_same_pairs() {
    let mut store = ResultStore::new().unwrap();
    store.put(b"a", b"1").unwrap();
    store.put(b"b", b"2").unwrap();
    let first = as_set(store.scan().unwrap());
    let second = as_set(store.scan().unwrap());
    assert_eq!(first, second);
    assert_eq!(first.len(), 2);
}

#[test]
fn admission_grants_up_to_capacity() {
    let mut gate = Admission::new(2);
    assert!(gate.try_acquire());
    assert!(gate.try_acquire());
    assert!(!gate.try_acquire());
    assert_eq!(gate.held(), 2);
    gate.release();
    assert_eq!(gate.held(), 1);
    assert!(gate.try_acquire());
    assert_eq!(gate.capacity(), 2);
}
