//! The result store: a sled tree from identifier bytes to summary bytes.

use vstd::prelude::*;

verus! {

#[verifier::external_type_specification]
#[verifier::external_body]
pub struct ExDb(sled::Db);

#[verifier::external_type_specification]
#[verifier::external_body]
pub struct ExSledError(sled::Error);

/// The key/value pairs that a sled database holds.
pub uninterp spec fn db_contents(db: sled::Db) -> Map<Seq<u8>, Seq<u8>>;

/// The store that holds nothing.
pub open spec fn no_entries() -> Map<Seq<u8>, Seq<u8>> {
    Map::empty()
}

/// `entries` lists `m` exactly: keys distinct, every pair in `m`, every key of
/// `m` present.
pub open spec fn lists(entries: Seq<(Seq<u8>, Seq<u8>)>, m: Map<Seq<u8>, Seq<u8>>) -> bool {
    &&& forall|i: int, j: int|
        0 <= i < j < entries.len() ==> #[trigger] entries[i].0 != #[trigger] entries[j].0
    &&& forall|i: int|
        0 <= i < entries.len() ==> m.contains_key(#[trigger] entries[i].0) && m[entries[i].0]
            == entries[i].1
    &&& forall|k: Seq<u8>| #[trigger] m.contains_key(k) ==> exists|i: int|
        0 <= i < entries.len() && #[trigger] entries[i].0 == k
}

/// The pairs of a listing as byte sequences.
pub open spec fn entries_view(v: Seq<(Vec<u8>, Vec<u8>)>) -> Seq<(Seq<u8>, Seq<u8>)> {
    v.map_values(|p: (Vec<u8>, Vec<u8>)| (p.0@, p.1@))
}

/// Relies on sled::Config::new, Config::temporary and Config::open: a
/// temporary database starts at a fresh path and holds nothing.
#[verifier::external_body]
fn open_temporary() -> (r: Result<sled::Db, sled::Error>)
    ensures
        r matches Ok(db) ==> db_contents(db) == no_entries(),
{
    sled::Config::new().temporary(true).open()
}

/// Relies on sled::Tree::insert: on success the key maps to the value. An
/// error can come after the new node was installed, so on failure the key may
/// or may not map to the value; nothing else changes.
#[verifier::external_body]
fn db_insert(db: &mut sled::Db, key: &[u8], value: &[u8]) -> (r: Result<(), sled::Error>)
    ensures
        r is Ok ==> db_contents(*final(db)) == db_contents(*old(db)).insert(key@, value@),
        r is Err ==> db_contents(*final(db)) == db_contents(*old(db)) || db_contents(*final(db))
            == db_contents(*old(db)).insert(key@, value@),
{
    match db.insert(key, value) {
        Ok(_) => Ok(()),
        Err(e) => Err(e),
    }
}

/// Relies on sled::Error's `Display` impl, to describe the cause of a failure.
#[verifier::external_body]
fn error_text(e: &sled::Error) -> String {
    e.to_string()
}

/// Relies on sled::Tree::iter: it walks every pair of the tree once, in key
/// order, each key once.
#[verifier::external_body]
fn db_entries(db: &sled::Db) -> (r: Result<Vec<(Vec<u8>, Vec<u8>)>, sled::Error>)
    ensures
        r matches Ok(v) ==> lists(entries_view(v@), db_contents(*db)),
{
    db.iter().map(|item| item.map(|(k, v)| (k.to_vec(), v.to_vec()))).collect()
}

/// What went wrong in the store, with the backing database's description of
/// the cause.
#[derive(Debug)]
pub enum StoreError {
    /// The backing database could not be opened.
    Open(String),
    /// A write reported failure; the entry may or may not have been written.
    Write(String),
    /// The contents could not be read back.
    Scan(String),
}

/// A key/value store from identifier bytes to summary bytes, held for one run.
/// It is not shared: every write goes through `put`.
pub struct ResultStore {
    db: sled::Db,
}

impl ResultStore {
    /// The entries the store holds.
    pub closed spec fn view(&self) -> Map<Seq<u8>, Seq<u8>> {
        db_contents(self.db)
    }

    /// A new, empty store that lasts as long as the value.
    pub fn new() -> (r: Result<ResultStore, StoreError>)
        ensures
            r matches Ok(s) ==> s.view() == no_entries(),
            r matches Err(e) ==> e is Open,
    {
        match open_temporary() {
            Ok(db) => Ok(ResultStore { db }),
            Err(e) => Err(StoreError::Open(error_text(&e))),
        }
    }

    /// Inserts the entry `key -> value`, overwriting an earlier one under `key`.
    /// On failure the entry may or may not have been written.
    pub fn put(&mut self, key: &[u8], value: &[u8]) -> (r: Result<(), StoreError>)
        ensures
            r is Ok ==> final(self).view() == old(self).view().insert(key@, value@),
            r matches Err(e) ==> e is Write && (final(self).view() == old(self).view()
                || final(self).view() == old(self).view().insert(key@, value@)),
    {
        match db_insert(&mut self.db, key, value) {
            Ok(()) => Ok(()),
            Err(e) => Err(StoreError::Write(error_text(&e))),
        }
    }

    /// Every entry of the store, each once, in no promised order.
    pub fn scan(&self) -> (r: Result<Vec<(Vec<u8>, Vec<u8>)>, StoreError>)
        ensures
            r matches Ok(v) ==> lists(entries_view(v@), self.view()),
            r matches Err(e) ==> e is Scan,
    {
        match db_entries(&self.db) {
            Ok(v) => Ok(v),
            Err(e) => Err(StoreError::Scan(error_text(&e))),
        }
    }
}

/// Two scans of one store, with no write between them, give the same set of
/// pairs.
pub proof fn scan_idempotent(
    a: Seq<(Seq<u8>, Seq<u8>)>,
    b: Seq<(Seq<u8>, Seq<u8>)>,
    m: Map<Seq<u8>, Seq<u8>>,
)
    requires
        lists(a, m),
        lists(b, m),
    ensures
        a.to_set() == b.to_set(),
{
    assert forall|p: (Seq<u8>, Seq<u8>)| a.to_set().contains(p) implies b.to_set().contains(p) by {
        let i = choose|i: int| 0 <= i < a.len() && a[i] == p;
        assert(m.contains_key(a[i].0));
        let j = choose|j: int| 0 <= j < b.len() && #[trigger] b[j].0 == p.0;
        assert(b[j] == p);
    }
    assert forall|p: (Seq<u8>, Seq<u8>)| b.to_set().contains(p) implies a.to_set().contains(p) by {
        let j = choose|j: int| 0 <= j < b.len() && b[j] == p;
        assert(m.contains_key(b[j].0));
        let i = choose|i: int| 0 <= i < a.len() && #[trigger] a[i].0 == p.0;
        assert(a[i] == p);
    }
    assert(a.to_set() =~= b.to_set());
}

} // verus!
