//! The batch orchestrator as a state machine. One unit of work per identifier;
//! a unit starts only when the admission gate grants it a slot, and finishes
//! when its fetch outcome is handed back. The caller performs the fetches.

use vstd::prelude::*;
use vstd::utf8::{decode_utf8, encode_utf8};
use crate::admission::Admission;
use crate::store::{entries_view, lists, ResultStore, StoreError};
use crate::summary::{summary_of, summary_text};

verus! {

/// Where one unit of work stands.
#[derive(Clone, Copy, Debug, PartialEq, Eq, Structural)]
pub enum Status {
    /// Not started: it holds no slot.
    Waiting,
    /// Holds a slot; its fetch is under way.
    Running,
    /// Fetched a payload of that many bytes, and its summary was stored.
    Stored(usize),
    /// Fetched a payload of that many bytes; the store reported that the write
    /// failed, so its summary may or may not be in the store.
    WriteFailed(usize),
    /// The fetch failed; nothing was stored.
    FetchFailed,
}

/// The store key of an identifier: its UTF-8 bytes.
pub open spec fn key_of(url: Seq<char>) -> Seq<u8> {
    encode_utf8(url)
}

/// How many units are running.
pub open spec fn running_count(st: Seq<Status>) -> nat
    decreases st.len(),
{
    if st.len() == 0 {
        0
    } else {
        running_count(st.drop_last()) + if st.last() is Running {
            1nat
        } else {
            0nat
        }
    }
}

/// Unit `i` stored its summary.
pub open spec fn stored_at(st: Seq<Status>, i: int) -> bool {
    0 <= i < st.len() && st[i] is Stored
}

/// Unit `i` fetched a payload and tried to write its summary.
pub open spec fn written_at(st: Seq<Status>, i: int) -> bool {
    0 <= i < st.len() && (st[i] is Stored || st[i] is WriteFailed)
}

/// The payload length of a unit that fetched one.
pub open spec fn fetched_len(s: Status) -> nat {
    match s {
        Status::Stored(n) => n as nat,
        Status::WriteFailed(n) => n as nat,
        _ => 0,
    }
}

/// Some unit whose identifier has key `k` stored its summary.
pub open spec fn holds_key(urls: Seq<Seq<char>>, st: Seq<Status>, k: Seq<u8>) -> bool {
    exists|i: int| #[trigger] stored_at(st, i) && key_of(urls[i]) == k
}

/// `v` is the summary of some unit with key `k` that tried to write it.
pub open spec fn holds_summary(
    urls: Seq<Seq<char>>,
    st: Seq<Status>,
    k: Seq<u8>,
    v: Seq<u8>,
) -> bool {
    exists|i: int|
        #[trigger] written_at(st, i) && key_of(urls[i]) == k && v == summary_text(
            fetched_len(st[i]),
        )
}

/// The key of each unit that stored is in the store, with the summary of a
/// unit of that key; every other entry is one the store started with, or the
/// summary of a unit of that key whose write reported failure; no starting
/// key is lost.
pub open spec fn records(
    urls: Seq<Seq<char>>,
    st: Seq<Status>,
    initial: Map<Seq<u8>, Seq<u8>>,
    contents: Map<Seq<u8>, Seq<u8>>,
) -> bool {
    &&& forall|k: Seq<u8>| #[trigger]
        holds_key(urls, st, k) ==> contents.contains_key(k) && holds_summary(
            urls,
            st,
            k,
            contents[k],
        )
    &&& forall|k: Seq<u8>| #[trigger]
        contents.contains_key(k) ==> (initial.contains_key(k) && contents[k] == initial[k])
            || holds_summary(urls, st, k, contents[k])
    &&& forall|k: Seq<u8>| #[trigger] initial.contains_key(k) ==> contents.contains_key(k)
}

proof fn lemma_count_update(st: Seq<Status>, i: int, x: Status)
    requires
        0 <= i < st.len(),
    ensures
        running_count(st.update(i, x)) + (if st[i] is Running {
            1nat
        } else {
            0nat
        }) == running_count(st) + (if x is Running {
            1nat
        } else {
            0nat
        }),
    decreases st.len(),
{
    let u = st.update(i, x);
    if i == st.len() - 1 {
        assert(u.drop_last() =~= st.drop_last());
    } else {
        assert(u.drop_last() =~= st.drop_last().update(i, x));
        lemma_count_update(st.drop_last(), i, x);
    }
}

proof fn lemma_count_zero(st: Seq<Status>)
    ensures
        running_count(st) == 0 <==> forall|i: int| 0 <= i < st.len() ==> !(#[trigger] st[i] is Running),
    decreases st.len(),
{
    if st.len() > 0 {
        lemma_count_zero(st.drop_last());
        if running_count(st) == 0 {
            assert forall|i: int| 0 <= i < st.len() implies !(#[trigger] st[i] is Running) by {
                if i < st.len() - 1 {
                    assert(st[i] == st.drop_last()[i]);
                }
            }
        }
        if forall|i: int| 0 <= i < st.len() ==> !(#[trigger] st[i] is Running) {
            assert forall|i: int| 0 <= i < st.drop_last().len() implies !(
            #[trigger] st.drop_last()[i] is Running) by {
                assert(st[i] == st.drop_last()[i]);
            }
        }
    }
}

/// A batch of units, one per identifier, run under an admission limit, with
/// the store their summaries go to.
pub struct Batch {
    urls: Vec<String>,
    status: Vec<Status>,
    next: usize,
    gate: Admission,
    acquired: usize,
    released: usize,
    store: ResultStore,
    initial: Ghost<Map<Seq<u8>, Seq<u8>>>,
}

impl Batch {
    /// The identifiers, one per unit.
    pub closed spec fn urls(&self) -> Seq<Seq<char>> {
        self.urls@.map_values(|s: String| s@)
    }

    /// Where each unit stands.
    pub closed spec fn statuses(&self) -> Seq<Status> {
        self.status@
    }

    /// How many units have started.
    pub closed spec fn started(&self) -> nat {
        self.next as nat
    }

    /// The admission limit.
    pub closed spec fn limit(&self) -> nat {
        self.gate.spec_capacity()
    }

    /// How many slots are held.
    pub closed spec fn in_flight(&self) -> nat {
        self.gate.spec_held()
    }

    /// How many slots were acquired so far.
    pub closed spec fn acquires(&self) -> nat {
        self.acquired as nat
    }

    /// How many slots were released so far.
    pub closed spec fn releases(&self) -> nat {
        self.released as nat
    }

    /// What the store holds.
    pub closed spec fn contents(&self) -> Map<Seq<u8>, Seq<u8>> {
        self.store.view()
    }

    /// What the store held when the batch was made.
    pub closed spec fn initial(&self) -> Map<Seq<u8>, Seq<u8>> {
        self.initial@
    }

    /// Every unit has started and none holds a slot.
    pub open spec fn finished(&self) -> bool {
        self.started() == self.urls().len() && self.in_flight() == 0
    }

    pub closed spec fn wf(&self) -> bool {
        &&& self.urls@.len() == self.status@.len()
        &&& self.gate.wf()
        &&& self.next <= self.status@.len()
        &&& forall|i: int|
            0 <= i < self.status@.len() ==> (i < self.next <==> !(#[trigger] self.status@[i] is Waiting))
        &&& self.gate.spec_held() == running_count(self.status@)
        &&& self.acquired == self.next
        &&& self.released + self.gate.spec_held() == self.next
        &&& records(self.urls(), self.status@, self.initial@, self.store.view())
    }

    /// A batch with one waiting unit per identifier, `limit` slots, and the
    /// store the summaries go to.
    pub fn new(urls: Vec<String>, limit: usize, store: ResultStore) -> (r: Batch)
        requires
            limit >= 1,
        ensures
            r.wf(),
            r.urls() == urls@.map_values(|s: String| s@),
            r.statuses().len() == urls@.len(),
            forall|i: int| 0 <= i < urls@.len() ==> #[trigger] r.statuses()[i] == Status::Waiting,
            r.started() == 0,
            r.limit() == limit,
            r.in_flight() == 0,
            r.acquires() == 0,
            r.releases() == 0,
            r.contents() == store.view(),
            r.initial() == store.view(),
    {
        let mut status: Vec<Status> = Vec::new();
        let mut i: usize = 0;
        while i < urls.len()
            invariant
                i <= urls@.len(),
                status@.len() == i,
                forall|j: int| 0 <= j < i ==> #[trigger] status@[j] == Status::Waiting,
            decreases urls@.len() - i,
        {
            status.push(Status::Waiting);
            i = i + 1;
        }
        proof {
            lemma_count_zero(status@);
        }
        let ghost initial = store.view();
        let r = Batch {
            urls,
            status,
            next: 0,
            gate: Admission::new(limit),
            acquired: 0,
            released: 0,
            store,
            initial: Ghost(initial),
        };
        assert forall|j: int| !(#[trigger] written_at(r.status@, j)) by {
            if 0 <= j < r.status@.len() {
                assert(r.status@[j] == Status::Waiting);
            }
        }
        assert forall|k: Seq<u8>| !holds_key(r.urls(), r.status@, k) by {
            assert forall|j: int| !(#[trigger] stored_at(r.status@, j)) by {
                assert(!written_at(r.status@, j));
            }
        }
        r
    }

    /// How many units the batch has.
    pub fn len(&self) -> (r: usize)
        ensures
            r == self.urls().len(),
    {
        self.urls.len()
    }

    /// The identifier of unit `i`.
    pub fn url(&self, i: usize) -> (r: &str)
        requires
            i < self.urls().len(),
        ensures
            r@ == self.urls()[i as int],
    {
        self.urls[i].as_str()
    }

    /// Where unit `i` stands.
    pub fn status(&self, i: usize) -> (r: Status)
        requires
            self.wf(),
            i < self.urls().len(),
        ensures
            r == self.statuses()[i as int],
    {
        self.status[i]
    }

    /// The admission limit.
    pub fn limit_of(&self) -> (r: usize)
        ensures
            r == self.limit(),
    {
        self.gate.capacity()
    }

    /// How many units hold a slot now.
    pub fn in_flight_now(&self) -> (r: usize)
        ensures
            r == self.in_flight(),
    {
        self.gate.held()
    }

    /// How many slots were acquired so far.
    pub fn acquired_count(&self) -> (r: usize)
        ensures
            r == self.acquires(),
    {
        self.acquired
    }

    /// How many slots were released so far.
    pub fn released_count(&self) -> (r: usize)
        ensures
            r == self.releases(),
    {
        self.released
    }

    /// Whether every unit has started and released its slot.
    pub fn is_finished(&self) -> (r: bool)
        requires
            self.wf(),
        ensures
            r == self.finished(),
    {
        self.next == self.urls.len() && self.gate.held() == 0
    }

    /// Starts the next waiting unit when a slot is free, and returns its index.
    /// Units start in the order of their identifiers.
    pub fn next_unit(&mut self) -> (r: Option<usize>)
        requires
            old(self).wf(),
        ensures
            final(self).wf(),
            r is Some <==> old(self).started() < old(self).urls().len() && old(self).in_flight()
                < old(self).limit(),
            r matches Some(i) ==> {
                &&& i == old(self).started()
                &&& final(self).statuses() == old(self).statuses().update(i as int, Status::Running)
                &&& final(self).started() == old(self).started() + 1
                &&& final(self).in_flight() == old(self).in_flight() + 1
                &&& final(self).acquires() == old(self).acquires() + 1
            },
            r is None ==> {
                &&& final(self).statuses() == old(self).statuses()
                &&& final(self).started() == old(self).started()
                &&& final(self).in_flight() == old(self).in_flight()
                &&& final(self).acquires() == old(self).acquires()
            },
            final(self).urls() == old(self).urls(),
            final(self).limit() == old(self).limit(),
            final(self).releases() == old(self).releases(),
            final(self).contents() == old(self).contents(),
            final(self).initial() == old(self).initial(),
    {
        if self.next >= self.urls.len() {
            return None;
        }
        if !self.gate.try_acquire() {
            return None;
        }
        let i = self.next;
        let ghost st0 = self.status@;
        proof {
            lemma_count_update(st0, i as int, Status::Running);
        }
        self.status.set(i, Status::Running);
        self.next = self.next + 1;
        self.acquired = self.acquired + 1;
        let ghost st1 = self.status@;
        assert forall|j: int| #[trigger] stored_at(st1, j) == stored_at(st0, j) && written_at(st1, j)
            == written_at(st0, j) && (written_at(st0, j) ==> st1[j] == st0[j]) by {}
        assert forall|k: Seq<u8>| holds_key(self.urls(), st1, k) == holds_key(self.urls(), st0, k) by {
            if holds_key(self.urls(), st1, k) {
                let j = choose|j: int| #[trigger] stored_at(st1, j) && key_of(self.urls()[j]) == k;
                assert(stored_at(st0, j));
            }
            if holds_key(self.urls(), st0, k) {
                let j = choose|j: int| #[trigger] stored_at(st0, j) && key_of(self.urls()[j]) == k;
                assert(stored_at(st1, j));
            }
        }
        assert forall|k: Seq<u8>, v: Seq<u8>|
            holds_summary(self.urls(), st0, k, v) implies holds_summary(self.urls(), st1, k, v) by {
            let j = choose|j: int|
                #[trigger] written_at(st0, j) && key_of(self.urls()[j]) == k && v == summary_text(
                    fetched_len(st0[j]),
                );
            assert(written_at(st1, j));
        }
        Some(i)
    }

    /// Finishes running unit `i` with the outcome of its fetch: the payload
    /// length on success, `None` on failure. On success the summary is written
    /// under the identifier's key; when the store reports that the write
    /// failed, the entry may or may not have been written, and the store's
    /// error comes back beside the status. Either way the unit's slot is
    /// released. Returns the unit's new status.
    pub fn complete(&mut self, i: usize, fetched: Option<usize>) -> (r: (Status, Option<StoreError>))
        requires
            old(self).wf(),
            i < old(self).urls().len(),
            old(self).statuses()[i as int] == Status::Running,
        ensures
            final(self).wf(),
            final(self).statuses() == old(self).statuses().update(i as int, r.0),
            fetched is None ==> r.0 == Status::FetchFailed,
            fetched matches Some(n) ==> r.0 == Status::Stored(n) || r.0 == Status::WriteFailed(n),
            r.1 is Some <==> r.0 is WriteFailed,
            r.1 matches Some(e) ==> e is Write,
            r.0 is Stored ==> final(self).contents() == old(self).contents().insert(
                key_of(old(self).urls()[i as int]),
                summary_text(fetched_len(r.0)),
            ),
            r.0 is WriteFailed ==> final(self).contents() == old(self).contents()
                || final(self).contents() == old(self).contents().insert(
                key_of(old(self).urls()[i as int]),
                summary_text(fetched_len(r.0)),
            ),
            r.0 is FetchFailed ==> final(self).contents() == old(self).contents(),
            final(self).in_flight() + 1 == old(self).in_flight(),
            final(self).releases() == old(self).releases() + 1,
            final(self).urls() == old(self).urls(),
            final(self).limit() == old(self).limit(),
            final(self).started() == old(self).started(),
            final(self).acquires() == old(self).acquires(),
            final(self).initial() == old(self).initial(),
    {
        let ghost st0 = self.status@;
        let ghost c0 = self.store.view();
        let ghost urls = self.urls();
        let (st, err) = match fetched {
            None => (Status::FetchFailed, None),
            Some(n) => {
                let summary = summary_of(n);
                assert(self.urls@[i as int]@ == urls[i as int]);
                match self.store.put(self.urls[i].as_str().as_bytes(), summary.as_slice()) {
                    Ok(()) => (Status::Stored(n), None),
                    Err(e) => (Status::WriteFailed(n), Some(e)),
                }
            },
        };
        proof {
            lemma_count_update(st0, i as int, st);
        }
        assert(self.gate.spec_held() > 0) by {
            if self.gate.spec_held() == 0 {
                lemma_count_zero(st0);
            }
        }
        self.status.set(i, st);
        self.gate.release();
        self.released = self.released + 1;
        let ghost st1 = self.status@;
        let ghost c1 = self.store.view();
        let ghost ki = key_of(urls[i as int]);
        let ghost vi = summary_text(fetched_len(st));
        assert(urls == self.urls());
        assert forall|j: int| j != i implies #[trigger] stored_at(st1, j) == stored_at(st0, j)
            && written_at(st1, j) == written_at(st0, j) && (0 <= j < st0.len() ==> st1[j] == st0[j]) by {}
        assert(!written_at(st0, i as int));
        assert(!(st is FetchFailed) ==> written_at(st1, i as int));
        assert forall|k: Seq<u8>, v: Seq<u8>|
            holds_summary(urls, st0, k, v) implies holds_summary(urls, st1, k, v) by {
            let j = choose|j: int|
                #[trigger] written_at(st0, j) && key_of(urls[j]) == k && v == summary_text(
                    fetched_len(st0[j]),
                );
            assert(written_at(st1, j));
        }
        assert(!(st is FetchFailed) ==> holds_summary(urls, st1, ki, vi));
        assert forall|k: Seq<u8>| holds_key(urls, st1, k) implies holds_key(urls, st0, k) || (k
            == ki && st is Stored) by {
            let j = choose|j: int| #[trigger] stored_at(st1, j) && key_of(urls[j]) == k;
            if j != i {
                assert(stored_at(st0, j));
            }
        }
        assert(c1 == c0 || (!(st is FetchFailed) && c1 == c0.insert(ki, vi)));
        assert(st is Stored ==> c1 == c0.insert(ki, vi));
        (st, err)
    }

    /// Every entry of the store, each once, in no promised order.
    pub fn scan(&self) -> (r: Result<Vec<(Vec<u8>, Vec<u8>)>, StoreError>)
        ensures
            r matches Ok(v) ==> lists(entries_view(v@), self.contents()),
            r matches Err(e) ==> e is Scan,
    {
        self.store.scan()
    }

    /// Ends the batch and hands back its store.
    pub fn into_store(self) -> (r: ResultStore)
        ensures
            r.view() == self.contents(),
    {
        self.store
    }
}

/// At every moment the units that hold a slot are exactly the running ones,
/// and there are never more of them than the limit.
pub proof fn in_flight_within_limit(b: &Batch)
    requires
        b.wf(),
    ensures
        b.in_flight() == running_count(b.statuses()),
        b.in_flight() <= b.limit(),
{
}

/// When the batch has finished, every slot acquired has been released, one
/// per unit, and no unit is waiting or running.
pub proof fn finish_releases_every_slot(b: &Batch)
    requires
        b.wf(),
        b.finished(),
    ensures
        b.acquires() == b.urls().len(),
        b.releases() == b.urls().len(),
        forall|i: int|
            0 <= i < b.statuses().len() ==> !(#[trigger] b.statuses()[i] is Waiting) && !(
            b.statuses()[i] is Running),
{
    lemma_count_zero(b.status@);
}

/// The store holds the key of every unit that stored, with the summary of a
/// unit of that key; beyond what it started with it holds no other key but
/// that of a unit whose write reported failure. When no write failed, its keys
/// are exactly the starting keys and those of the units that stored.
pub proof fn store_holds_stored_units(b: &Batch)
    requires
        b.wf(),
    ensures
        b.statuses().len() == b.urls().len(),
        records(b.urls(), b.statuses(), b.initial(), b.contents()),
        Set::new(|k: Seq<u8>| holds_key(b.urls(), b.statuses(), k)).subset_of(b.contents().dom()),
        b.contents().dom().subset_of(
            b.initial().dom().union(
                Set::new(
                    |k: Seq<u8>|
                        exists|i: int| #[trigger] written_at(b.statuses(), i) && key_of(b.urls()[i]) == k,
                ),
            ),
        ),
        (forall|i: int| 0 <= i < b.statuses().len() ==> !(#[trigger] b.statuses()[i] is WriteFailed))
            ==> b.contents().dom() == b.initial().dom().union(
            Set::new(|k: Seq<u8>| holds_key(b.urls(), b.statuses(), k)),
        ),
{
    let urls = b.urls();
    let st = b.statuses();
    if forall|i: int| 0 <= i < st.len() ==> !(#[trigger] st[i] is WriteFailed) {
        assert forall|k: Seq<u8>| #[trigger] b.contents().contains_key(k) && !b.initial().contains_key(k)
            implies holds_key(urls, st, k) by {
            let i = choose|i: int|
                #[trigger] written_at(st, i) && key_of(urls[i]) == k && b.contents()[k]
                    == summary_text(fetched_len(st[i]));
            assert(stored_at(st, i));
        }
        assert(b.contents().dom() =~= b.initial().dom().union(
            Set::new(|k: Seq<u8>| holds_key(urls, st, k)),
        ));
    }
}

/// The units that stored their summary, by index.
pub open spec fn stored_units(st: Seq<Status>) -> Set<int> {
    Set::new(|i: int| stored_at(st, i))
}

/// On a store that started empty, when no write failed and the identifiers of
/// the units that stored are distinct, the store holds one entry per unit that
/// stored.
pub proof fn one_entry_per_success(b: &Batch)
    requires
        b.wf(),
        b.initial().dom().is_empty(),
        forall|i: int| 0 <= i < b.statuses().len() ==> !(#[trigger] b.statuses()[i] is WriteFailed),
        forall|i: int, j: int|
            #[trigger] stored_at(b.statuses(), i) && #[trigger] stored_at(b.statuses(), j) && i != j
                ==> b.urls()[i] != b.urls()[j],
    ensures
        stored_units(b.statuses()).finite(),
        b.contents().dom().len() == stored_units(b.statuses()).len(),
{
    broadcast use vstd::utf8::encode_utf8_decode_utf8;

    let urls = b.urls();
    let st = b.statuses();
    store_holds_stored_units(b);
    let idx = stored_units(st);
    let f = |i: int| key_of(urls[i]);
    vstd::set_lib::lemma_int_range(0, st.len() as int);
    assert(idx.subset_of(vstd::set_lib::set_int_range(0, st.len() as int)));
    vstd::set_lib::lemma_len_subset(idx, vstd::set_lib::set_int_range(0, st.len() as int));
    assert(vstd::relations::injective_on(f, idx)) by {
        assert forall|i: int, j: int| idx.contains(i) && idx.contains(j) && #[trigger] f(i)
            == #[trigger] f(j) implies i == j by {
            if i != j {
                assert(stored_at(st, i) && stored_at(st, j));
                assert(decode_utf8(encode_utf8(urls[i])) == urls[i]);
                assert(decode_utf8(encode_utf8(urls[j])) == urls[j]);
            }
        }
    }
    assert forall|k: Seq<u8>| b.contents().dom().contains(k) implies idx.map(f).contains(k) by {
        assert(!b.initial().contains_key(k));
        let i = choose|i: int|
            #[trigger] written_at(st, i) && key_of(urls[i]) == k && b.contents()[k]
                == summary_text(fetched_len(st[i]));
        assert(idx.contains(i));
        assert(f(i) == k);
    }
    assert forall|k: Seq<u8>| idx.map(f).contains(k) implies b.contents().dom().contains(k) by {
        let i = choose|i: int| idx.contains(i) && f(i) == k;
        assert(stored_at(st, i));
        assert(holds_key(urls, st, k));
    }
    assert(idx.map(f) =~= b.contents().dom());
    vstd::set_lib::lemma_map_size(idx, b.contents().dom(), f);
}

/// A unit whose fetch failed does not keep another unit's summary out of the
/// store.
pub proof fn failure_does_not_block(b: &Batch, x: int, y: int)
    requires
        b.wf(),
        0 <= x < b.statuses().len(),
        0 <= y < b.statuses().len(),
        b.statuses()[x] == Status::FetchFailed,
        b.statuses()[y] is Stored,
    ensures
        b.contents().contains_key(key_of(b.urls()[y])),
{
    assert(stored_at(b.statuses(), y));
    assert(holds_key(b.urls(), b.statuses(), key_of(b.urls()[y])));
}

} // verus!
