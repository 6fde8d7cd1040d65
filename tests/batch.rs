use std::collections::BTreeSet;
use url_batch::batch::{Batch, Status};
use url_batch::store::ResultStore;

fn batch_of(urls: &[&str], limit: usize) -> Batch {
    let urls: Vec<String> = urls.iter().map(|u| u.to_string()).collect();
    Batch::new(urls, limit, ResultStore::new().unwrap())
}

fn entries(b: &Batch) -> BTreeSet<(Vec<u8>, Vec<u8>)> {
    b.scan().unwrap().into_iter().collect()
}

fn pair(k: &str, v: &str) -> (Vec<u8>, Vec<u8>) {
    (k.as_bytes().to_vec(), v.as_bytes().to_vec())
}

#[test]
fn two_successes_are_both_stored() {
    let mut b = batch_of(&["http://ok.test/a", "http://ok.test/b"], 10);
    assert_eq!(b.next_unit(), Some(0));
    assert_eq!(b.next_unit(), Some(1));
    assert_eq!(b.next_unit(), None);
    assert_eq!(b.complete(0, Some(10)).0, Status::Stored(10));
    assert_eq!(b.complete(1, Some(20)).0, Status::Stored(20));
    assert!(b.is_finished());
    let want: BTreeSet<_> = vec![
        pair("http://ok.test/a", "Length: 10"),
        pair("http://ok.test/b", "Length: 20"),
    ]
    .into_iter()
    .collect();
    assert_eq!(entries(&b), want);
}

#[test]
fn failed_fetch_stores_nothing() {
    let mut b = batch_of(&["http://fail.test"], 10);
    assert_eq!(b.next_unit(), Some(0));
    assert_eq!(b.complete(0, None).0, Status::FetchFailed);
    assert!(b.is_finished());
    assert!(entries(&b).is_empty());
    assert_eq!(b.acquired_count(), 1);
    assert_eq!(b.released_count(), 1);
}

#[test]
fn twenty_five_units_never_exceed_ten_in_flight() {
    let urls: Vec<String> = (0..25).map(|i| format!("http://ok.test/{}", i)).collect();
    let mut b = Batch::new(urls, 10, ResultStore::new().unwrap());
    let mut running: Vec<usize> = Vec::new();
    let mut peak = 0;
    let mut processed = 0;
    while !b.is_finished() {
        while let Some(i) = b.next_unit() {
            running.push(i);
            assert!(b.in_flight_now() <= 10);
            peak = peak.max(b.in_flight_now());
        }
        let i = running.remove(0);
        let outcome = if i % 3 == 0 { None } else { Some(i) };
        b.complete(i, outcome);
        processed += 1;
    }
    assert_eq!(peak, 10);
    assert_eq!(processed, 25);
    assert_eq!(b.acquired_count(), 25);
    assert_eq!(b.released_count(), 25);
    for i in 0..25 {
        let st = b.status(i);
        assert!(st != Status::Waiting && st != Status::Running);
    }
    let stored = (0..25).filter(|i| i % 3 != 0).count();
    assert_eq!(entries(&b).len(), stored);
}

#[test]
fn limit_one_runs_units_one_at_a_time() {
    let mut b = batch_of(&["a", "b"], 1);
    assert_eq!(b.limit_of(), 1);
    assert_eq!(b.next_unit(), Some(0));
    assert_eq!(b.next_unit(), None);
    assert_eq!(b.status(1), Status::Waiting);
    b.complete(0, Some(1));
    assert_eq!(b.next_unit(), Some(1));
    b.complete(1, Some(2));
    assert!(b.is_finished());
}

#[test]
fn failure_does_not_block_other_unit() {
    let mut b = batch_of(&["http://fail.test", "http://ok.test/y"], 10);
    b.next_unit();
    b.next_unit();
    assert_eq!(b.complete(0, None).0, Status::FetchFailed);
    assert_eq!(b.complete(1, Some(7)).0, Status::Stored(7));
    let want: BTreeSet<_> = vec![pair("http://ok.test/y", "Length: 7")].into_iter().collect();
    assert_eq!(entries(&b), want);
}

#[test]
fn duplicate_identifiers_overwrite() {
    let mut b = batch_of(&["u", "u", "v"], 10);
    while b.next_unit().is_some() {}
    b.complete(0, Some(1));
    b.complete(2, None);
    b.complete(1, Some(22));
    assert!(b.is_finished());
    let want: BTreeSet<_> = vec![pair("u", "Length: 22")].into_iter().collect();
    assert_eq!(entries(&b), want);
}

#[test]
fn entries_count_equals_distinct_successes() {
    let mut b = batch_of(&["a", "b", "a", "c", "d"], 2);
    let mut done = 0;
    while !b.is_finished() {
        let mut started = Vec::new();
        while let Some(i) = b.next_unit() {
            started.push(i);
        }
        for i in started {
            let outcome = if b.url(i) == "d" { None } else { Some(i) };
            b.complete(i, outcome);
            done += 1;
        }
    }
    assert_eq!(done, 5);
    assert_eq!(entries(&b).len(), 3);
}

#[test]
fn empty_batch_is_finished_at_once() {
    let mut b = batch_of(&[], 10);
    assert_eq!(b.len(), 0);
    assert!(b.is_finished());
    assert_eq!(b.next_unit(), None);
    assert!(entries(&b).is_empty());
}

#[test]
fn scan_twice_on_batch_is_stable() {
    let mut b = batch_of(&["x", "y"], 10);
    while b.next_unit().is_some() {}
    b.complete(0, Some(3));
    b.complete(1, Some(4));
    assert_eq!(entries(&b), entries(&b));
    let store = b.into_store();
    assert_eq!(store.scan().unwrap().len(), 2);
}

#[test]
fn complete_reports_no_store_error_on_success_or_fetch_failure() {
    let mut b = batch_of(&["http://ok.test/a", "http://fail.test"], 10);
    while b.next_unit().is_some() {}
    let (st, err) = b.complete(0, Some(3));
    assert_eq!(st, Status::Stored(3));
    assert!(err.is_none());
    let (st, err) = b.complete(1, None);
    assert_eq!(st, Status::FetchFailed);
    assert!(err.is_none());
}
