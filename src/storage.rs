//! The bounded partial-view cache with checkpoint persistence.
use vstd::prelude::*;

use crate::codec::{decode, decode_spec, encode, encode_spec, Checkpoint, CheckpointView, DecodeError};
use crate::database::{Database, StoreError};
use crate::model::{
    lemma_persistence_survival, lemma_store_valid, next_sequence, queue_of, snapshot_bytes, store_entry,
    contains_address, index_of, lemma_index_of, load_outcome, map_of, restore, snapshot_label,
    snapshot_record, start_state, unique_addresses, valid_entries, CheckpointError,
};
use crate::snapshot::{encode_entries, entries_bytes, lemma_entries_bytes_len, parse_entries};
use crate::types::{Address, Entry, Value};

verus! {

/// The abstract state of a cache.
pub ghost struct CacheView {
    /// Cached accounts in admission order, oldest first.
    pub entries: Seq<Entry>,
    /// The most entries the cache keeps.
    pub capacity: nat,
    /// Generation number of the last checkpoint written or read.
    pub sequence: u64,
}

/// A capacity-bounded, first-in-first-out cache of account values that
/// saves a checkpoint to its backend after every change.
pub struct PartialViewDataStorage<D: Database> {
    partial_view_data: Vec<Entry>,
    max_queue_capacity: usize,
    sequence: u64,
    database: D,
}

impl<D: Database> View for PartialViewDataStorage<D> {
    type V = CacheView;

    closed spec fn view(&self) -> CacheView {
        CacheView {
            entries: self.partial_view_data@,
            capacity: self.max_queue_capacity as nat,
            sequence: self.sequence,
        }
    }
}

/// The view of what a load returned.
pub open spec fn loaded_view(r: Result<Vec<u8>, StoreError>) -> Result<Seq<u8>, StoreError> {
    match r {
        Ok(b) => Ok(b@),
        Err(e) => Err(e),
    }
}

/// The label bytes of [`snapshot_label`].
fn label_bytes() -> (r: Vec<u8>)
    ensures
        r@ == snapshot_label(),
{
    let mut r: Vec<u8> = Vec::new();
    r.push(112u8);
    r.push(97u8);
    r.push(114u8);
    r.push(116u8);
    r.push(105u8);
    r.push(97u8);
    r.push(108u8);
    r.push(45u8);
    r.push(118u8);
    r.push(105u8);
    r.push(101u8);
    r.push(119u8);
    assert(r@ =~= snapshot_label());
    r
}

/// Whether no identifier occurs twice among `es`.
fn has_unique_addresses(es: &Vec<Entry>) -> (r: bool)
    ensures
        r == unique_addresses(es@),
{
    let n = es.len();
    let mut j: usize = 0;
    while j < n
        invariant
            n == es@.len(),
            0 <= j <= n,
            forall|a: int, b: int| 0 <= a < b < j ==> es@[a].address != es@[b].address,
        decreases n - j,
    {
        let mut i: usize = 0;
        while i < j
            invariant
                n == es@.len(),
                0 <= i <= j < n,
                forall|a: int, b: int| 0 <= a < b < j ==> es@[a].address != es@[b].address,
                forall|a: int| 0 <= a < i ==> es@[a].address != es@[j as int].address,
            decreases j - i,
        {
            if es[i].address.same_as(&es[j].address) {
                return false;
            }
            i = i + 1;
        }
        j = j + 1;
    }
    true
}

/// The generation number and entries held by stored bytes.
fn restore_entries(b: &[u8], cap: usize) -> (r: Result<(u64, Vec<Entry>), CheckpointError>)
    ensures
        match r {
            Ok((s, es)) => restore(b@, cap as nat) == Ok::<(u64, Seq<Entry>), CheckpointError>((s, es@)),
            Err(e) => restore(b@, cap as nat) == Err::<(u64, Seq<Entry>), CheckpointError>(e),
        },
{
    let record = match decode(b) {
        Ok(c) => c,
        Err(e) => {
            return Err(CheckpointError::Decode(e));
        },
    };
    let es = match parse_entries(record.payload.as_slice()) {
        Some(es) => es,
        None => {
            return Err(CheckpointError::Decode(DecodeError::Malformed));
        },
    };
    if !has_unique_addresses(&es) {
        return Err(CheckpointError::Decode(DecodeError::Malformed));
    }
    if es.len() > cap {
        return Err(CheckpointError::OverCapacity);
    }
    Ok((record.sequence, es))
}

impl<D: Database> PartialViewDataStorage<D> {
    /// Validity: identifiers unique and no more entries than the capacity.
    pub open spec fn wf(&self) -> bool {
        valid_entries(self@.entries, self@.capacity)
    }

    /// The backend this cache owns.
    pub closed spec fn backend(&self) -> D {
        self.database
    }

    /// Builds a cache from what loading its backend gave: an empty cache
    /// where nothing was saved, the saved state where a checkpoint was read,
    /// and an error otherwise.
    pub fn from_loaded(
        max_queue_capacity: usize,
        database: D,
        loaded: Result<Vec<u8>, StoreError>,
    ) -> (r: Result<Self, CheckpointError>)
        ensures
            r is Ok <==> start_state(loaded_view(loaded), max_queue_capacity as nat) is Ok,
            r matches Ok(s) ==> {
                &&& s.wf()
                &&& s.backend() == database
                &&& s@.capacity == max_queue_capacity
                &&& start_state(loaded_view(loaded), max_queue_capacity as nat) == Ok::<
                    (u64, Seq<Entry>),
                    CheckpointError,
                >((s@.sequence, s@.entries))
            },
            r matches Err(e) ==> start_state(loaded_view(loaded), max_queue_capacity as nat)
                == Err::<(u64, Seq<Entry>), CheckpointError>(e),
    {
        match loaded {
            Ok(b) => match restore_entries(b.as_slice(), max_queue_capacity) {
                Ok((sequence, es)) => Ok(
                    PartialViewDataStorage {
                        partial_view_data: es,
                        max_queue_capacity,
                        sequence,
                        database,
                    },
                ),
                Err(e) => Err(e),
            },
            Err(StoreError::NotFound) => {
                let s = PartialViewDataStorage {
                    partial_view_data: Vec::new(),
                    max_queue_capacity,
                    sequence: 0,
                    database,
                };
                assert(s@.entries =~= Seq::<Entry>::empty());
                Ok(s)
            },
            Err(StoreError::Backend) => Err(CheckpointError::Store(StoreError::Backend)),
        }
    }

    /// Creates a cache over `database`, starting from the checkpoint it
    /// holds. A backend that holds none gives an empty cache; a checkpoint
    /// that cannot be read, or a failing backend, is an error.
    pub fn new(max_queue_capacity: usize, database: D) -> (r: Result<Self, CheckpointError>)
        ensures
            r matches Ok(s) ==> {
                &&& s.wf()
                &&& s.backend() == database
                &&& s@.capacity == max_queue_capacity
                &&& start_state(load_outcome(database.stored()), max_queue_capacity as nat)
                    == Ok::<(u64, Seq<Entry>), CheckpointError>((s@.sequence, s@.entries))
            },
            r matches Err(e) ==> e == CheckpointError::Store(StoreError::Backend) || start_state(
                load_outcome(database.stored()),
                max_queue_capacity as nat,
            ) == Err::<(u64, Seq<Entry>), CheckpointError>(e),
            database.reliable() ==> (r is Ok <==> start_state(
                load_outcome(database.stored()),
                max_queue_capacity as nat,
            ) is Ok),
            database.reliable() ==> (r matches Err(e) ==> start_state(
                load_outcome(database.stored()),
                max_queue_capacity as nat,
            ) == Err::<(u64, Seq<Entry>), CheckpointError>(e)),
    {
        let loaded = database.load_checkpoint();
        Self::from_loaded(max_queue_capacity, database, loaded)
    }

    /// The position of `address` among the entries, if it is cached.
    fn position(&self, address: &Address) -> (r: Option<usize>)
        requires
            self.wf(),
        ensures
            r is Some <==> contains_address(self@.entries, *address),
            r matches Some(i) ==> i < self@.entries.len() && index_of(self@.entries, *address)
                == i && self@.entries[i as int].address == *address,
    {
        let n = self.partial_view_data.len();
        let mut i: usize = 0;
        while i < n
            invariant
                self.wf(),
                n == self@.entries.len(),
                0 <= i <= n,
                forall|k: int| 0 <= k < i ==> self@.entries[k].address != *address,
            decreases n - i,
        {
            if self.partial_view_data[i].address.same_as(address) {
                proof {
                    lemma_index_of(self@.entries, i as int);
                }
                return Some(i);
            }
            i = i + 1;
        }
        None
    }

    /// The cached value of `address` on a hit; `None` on a miss, where the
    /// caller fetches the value and hands it to [`Self::query_and_store`].
    /// A hit does not reorder the queue.
    pub fn resolve(&self, address: &Address) -> (r: Option<Value>)
        requires
            self.wf(),
        ensures
            r is Some <==> map_of(self@.entries).contains_key(*address),
            r matches Some(v) ==> map_of(self@.entries)[*address] == v,
    {
        match self.position(address) {
            Some(i) => {
                proof {
                    lemma_index_of(self@.entries, i as int);
                }
                Some(self.partial_view_data[i].value)
            },
            None => None,
        }
    }

    /// The record of the current state.
    pub fn snapshot(&self) -> (r: Checkpoint)
        ensures
            r@ == snapshot_record(self@.sequence, self@.entries),
    {
        Checkpoint {
            sequence: self.sequence,
            label: label_bytes(),
            payload: encode_entries(&self.partial_view_data),
        }
    }

    /// Encodes `checkpoint` and saves it to the backend. The cache's
    /// entries are untouched.
    pub fn save_checkpoint(&mut self, checkpoint: Checkpoint) -> (r: Result<(), StoreError>)
        ensures
            final(self)@ == old(self)@,
            r is Ok ==> final(self).backend().stored() == Some(encode_spec(checkpoint@)),
            r is Err ==> final(self).backend().stored() == old(self).backend().stored()
                || final(self).backend().stored() == Some(encode_spec(checkpoint@)),
            old(self).backend().reliable() ==> r is Ok,
            final(self).backend().reliable() == old(self).backend().reliable(),
    {
        let bytes = encode(&checkpoint);
        self.database.save_checkpoint(bytes.as_slice())
    }

    /// Loads the backend's bytes and decodes them as a checkpoint.
    pub fn load_checkpoint(&self) -> (r: Result<Checkpoint, CheckpointError>)
        ensures
            r matches Ok(c) ==> self.backend().stored() matches Some(b) && decode_spec(b) == Ok::<
                CheckpointView,
                DecodeError,
            >(c@),
            r matches Err(CheckpointError::Decode(e)) ==> self.backend().stored() matches Some(b)
                && decode_spec(b) == Err::<CheckpointView, DecodeError>(e),
            r matches Err(CheckpointError::Store(StoreError::NotFound)) ==> self.backend().stored() is None,
            self.backend().stored() is None ==> r is Err,
            !(r matches Err(CheckpointError::OverCapacity)),
            self.backend().reliable() ==> !(r matches Err(CheckpointError::Store(StoreError::Backend))),
    {
        match self.database.load_checkpoint() {
            Ok(b) => match decode(b.as_slice()) {
                Ok(c) => Ok(c),
                Err(e) => Err(CheckpointError::Decode(e)),
            },
            Err(e) => Err(CheckpointError::Store(e)),
        }
    }

    /// Stores the value fetched for `address` after a miss (or a refresh):
    /// a cached identifier gets the new value in place and keeps its place
    /// in the queue; a new one is appended, after evicting the oldest entry
    /// when the cache is full; with capacity zero nothing is kept. Then a
    /// checkpoint of the resulting state is saved with the next generation
    /// number. A failed save is returned, and the change stays.
    pub fn query_and_store(&mut self, address: Address, fetched: Value) -> (r: Result<
        (),
        StoreError,
    >)
        requires
            old(self).wf(),
        ensures
            final(self).wf(),
            final(self)@.capacity == old(self)@.capacity,
            final(self)@.entries == store_entry(
                old(self)@.entries,
                old(self)@.capacity,
                Entry { address, value: fetched },
            ),
            final(self)@.sequence == next_sequence(old(self)@.sequence),
            r is Ok ==> final(self).backend().stored() == Some(
                snapshot_bytes(final(self)@.sequence, final(self)@.entries),
            ),
            r is Err ==> final(self).backend().stored() == old(self).backend().stored()
                || final(self).backend().stored() == Some(
                snapshot_bytes(final(self)@.sequence, final(self)@.entries),
            ),
            restore(snapshot_bytes(final(self)@.sequence, final(self)@.entries), final(self)@.capacity)
                == Ok::<(u64, Seq<Entry>), CheckpointError>(
                (final(self)@.sequence, final(self)@.entries),
            ),
            old(self).backend().reliable() ==> r is Ok,
            final(self).backend().reliable() == old(self).backend().reliable(),
    {
        let e = Entry { address, value: fetched };
        proof {
            lemma_store_valid(self@.entries, self@.capacity, e);
        }
        match self.position(&address) {
            Some(i) => {
                self.partial_view_data[i] = e;
            },
            None => {
                if self.max_queue_capacity > 0 {
                    if self.partial_view_data.len() >= self.max_queue_capacity {
                        self.partial_view_data.remove(0);
                    }
                    self.partial_view_data.push(e);
                }
            },
        }
        assert(self@.entries =~= store_entry(old(self)@.entries, old(self)@.capacity, e));
        if self.sequence < u64::MAX {
            self.sequence = self.sequence + 1;
        }
        let record = self.snapshot();
        let payload_len = record.payload.len();
        proof {
            lemma_entries_bytes_len(self@.entries);
            lemma_persistence_survival(self@.sequence, self@.entries, self@.capacity);
        }
        let bytes = encode(&record);
        self.database.save_checkpoint(bytes.as_slice())
    }

    /// The most entries this cache keeps.
    pub fn capacity(&self) -> (r: usize)
        ensures
            r == self@.capacity,
    {
        self.max_queue_capacity
    }

    /// Generation number of the last checkpoint written or read.
    pub fn sequence(&self) -> (r: u64)
        ensures
            r == self@.sequence,
    {
        self.sequence
    }

    /// Number of cached accounts.
    pub fn len(&self) -> (r: usize)
        ensures
            r == self@.entries.len(),
    {
        self.partial_view_data.len()
    }

    /// The eviction queue, oldest first.
    pub fn queue(&self) -> (r: Vec<Address>)
        ensures
            r@ == queue_of(self@.entries),
    {
        let n = self.partial_view_data.len();
        let mut r: Vec<Address> = Vec::new();
        let mut i: usize = 0;
        while i < n
            invariant
                n == self@.entries.len(),
                0 <= i <= n,
                r@ == queue_of(self@.entries.take(i as int)),
            decreases n - i,
        {
            r.push(self.partial_view_data[i].address);
            assert(queue_of(self@.entries.take(i + 1)) =~= queue_of(self@.entries.take(i as int)).push(
                self@.entries[i as int].address,
            ));
            i = i + 1;
        }
        assert(self@.entries.take(n as int) =~= self@.entries);
        r
    }

    /// The cached entries, oldest first.
    pub fn entries(&self) -> (r: Vec<Entry>)
        ensures
            r@ == self@.entries,
    {
        let n = self.partial_view_data.len();
        let mut r: Vec<Entry> = Vec::new();
        let mut i: usize = 0;
        while i < n
            invariant
                n == self@.entries.len(),
                0 <= i <= n,
                r@ == self@.entries.take(i as int),
            decreases n - i,
        {
            r.push(self.partial_view_data[i]);
            assert(self@.entries.take(i + 1) =~= self@.entries.take(i as int).push(
                self@.entries[i as int],
            ));
            i = i + 1;
        }
        assert(self@.entries.take(n as int) =~= self@.entries);
        r
    }

    /// Drops the in-memory state and hands back the backend.
    pub fn into_database(self) -> (r: D)
        ensures
            r == self.backend(),
    {
        self.database
    }

    /// The backend this cache owns.
    pub fn database(&self) -> (r: &D)
        ensures
            *r == self.backend(),
    {
        &self.database
    }
}

} // verus!
