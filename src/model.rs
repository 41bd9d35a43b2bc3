//! The mathematical model of the cache: its entries in admission order,
//! the map and queue they stand for, and the admission rule.
use vstd::prelude::*;

use crate::codec::{decode_spec, encode_spec, lemma_decode_encode, CheckpointView, DecodeError};
use crate::database::StoreError;
use crate::snapshot::{
    entries_bytes, entries_of, lemma_entries_bytes_injective, lemma_entries_bytes_len, ENTRY_LEN,
};
use crate::types::{Address, Entry, Value};

verus! {

/// Why a cache could not be built from its backend, or a checkpoint read.
#[derive(Clone, Copy, Debug, PartialEq, Eq, Structural)]
pub enum CheckpointError {
    /// The backend failed, or held nothing.
    Store(StoreError),
    /// The stored bytes are not a checkpoint of a known version.
    Decode(DecodeError),
    /// The stored checkpoint holds more entries than the cache may keep.
    OverCapacity,
}

/// The eviction queue: identifiers in admission order, oldest first.
pub open spec fn queue_of(es: Seq<Entry>) -> Seq<Address> {
    es.map_values(|e: Entry| e.address)
}

pub open spec fn contains_address(es: Seq<Entry>, a: Address) -> bool {
    exists|i: int| 0 <= i < es.len() && es[i].address == a
}

/// The position of `a` among the entries, where it occurs.
pub open spec fn index_of(es: Seq<Entry>, a: Address) -> int {
    choose|i: int| 0 <= i < es.len() && es[i].address == a
}

/// The partial-view map: each cached identifier with its value.
pub open spec fn map_of(es: Seq<Entry>) -> Map<Address, Value> {
    Map::new(|a: Address| contains_address(es, a), |a: Address| es[index_of(es, a)].value)
}

/// No identifier occurs twice.
pub open spec fn unique_addresses(es: Seq<Entry>) -> bool {
    forall|i: int, j: int| 0 <= i < j < es.len() ==> es[i].address != es[j].address
}

/// The state a cache of capacity `cap` may be in.
pub open spec fn valid_entries(es: Seq<Entry>, cap: nat) -> bool {
    unique_addresses(es) && es.len() <= cap
}

/// The entries after storing the value fetched for `e.address`: a cached
/// identifier gets the new value in place; a new one is appended after
/// evicting the oldest entry when the cache is full; with capacity zero
/// nothing is kept.
pub open spec fn store_entry(es: Seq<Entry>, cap: nat, e: Entry) -> Seq<Entry> {
    if contains_address(es, e.address) {
        es.update(index_of(es, e.address), e)
    } else if cap == 0 {
        es
    } else if es.len() >= cap {
        es.drop_first().push(e)
    } else {
        es.push(e)
    }
}

/// The entries after storing each of `news` in turn.
pub open spec fn store_all(es: Seq<Entry>, cap: nat, news: Seq<Entry>) -> Seq<Entry>
    decreases news.len(),
{
    if news.len() == 0 {
        es
    } else {
        store_entry(store_all(es, cap, news.drop_last()), cap, news.last())
    }
}

/// The generation number that follows `s`; it stays at the maximum.
pub open spec fn next_sequence(s: u64) -> u64 {
    if s < u64::MAX {
        (s + 1) as u64
    } else {
        s
    }
}

/// The label written into the cache's checkpoints: "partial-view".
pub open spec fn snapshot_label() -> Seq<u8> {
    seq![112u8, 97u8, 114u8, 116u8, 105u8, 97u8, 108u8, 45u8, 118u8, 105u8, 101u8, 119u8]
}

/// The checkpoint record of a cache state.
pub open spec fn snapshot_record(sequence: u64, es: Seq<Entry>) -> CheckpointView {
    CheckpointView { sequence, label: snapshot_label(), payload: entries_bytes(es) }
}

/// The bytes a cache saves for a state.
pub open spec fn snapshot_bytes(sequence: u64, es: Seq<Entry>) -> Seq<u8> {
    encode_spec(snapshot_record(sequence, es))
}

/// The generation number and entries that stored bytes hold for a cache of
/// capacity `cap`, or why they hold none. The label is not read.
pub open spec fn restore(b: Seq<u8>, cap: nat) -> Result<(u64, Seq<Entry>), CheckpointError> {
    match decode_spec(b) {
        Err(e) => Err(CheckpointError::Decode(e)),
        Ok(rec) => {
            if rec.payload.len() % (ENTRY_LEN as nat) != 0 {
                Err(CheckpointError::Decode(DecodeError::Malformed))
            } else if !unique_addresses(entries_of(rec.payload)) {
                Err(CheckpointError::Decode(DecodeError::Malformed))
            } else if entries_of(rec.payload).len() > cap {
                Err(CheckpointError::OverCapacity)
            } else {
                Ok((rec.sequence, entries_of(rec.payload)))
            }
        },
    }
}

/// The state a cache starts in, given what loading from its backend gave:
/// nothing saved yet means an empty cache; any other failure is fatal.
pub open spec fn start_state(loaded: Result<Seq<u8>, StoreError>, cap: nat) -> Result<
    (u64, Seq<Entry>),
    CheckpointError,
> {
    match loaded {
        Ok(b) => restore(b, cap),
        Err(StoreError::NotFound) => Ok((0u64, Seq::empty())),
        Err(StoreError::Backend) => Err(CheckpointError::Store(StoreError::Backend)),
    }
}

/// What a load reports for the bytes a backend holds, when it does not fail.
pub open spec fn load_outcome(stored: Option<Seq<u8>>) -> Result<Seq<u8>, StoreError> {
    match stored {
        Some(b) => Ok(b),
        None => Err(StoreError::NotFound),
    }
}

/// Where `a` occurs among unique identifiers, `index_of` finds it.
pub proof fn lemma_index_of(es: Seq<Entry>, i: int)
    requires
        unique_addresses(es),
        0 <= i < es.len(),
    ensures
        contains_address(es, es[i].address),
        index_of(es, es[i].address) == i,
        map_of(es).contains_key(es[i].address),
        map_of(es)[es[i].address] == es[i].value,
{
    let j = index_of(es, es[i].address);
    assert(contains_address(es, es[i].address));
    if j < i {
        assert(es[j].address != es[i].address);
    } else if i < j {
        assert(es[i].address != es[j].address);
    }
}

/// Storing a fetched entry keeps a valid state valid.
pub proof fn lemma_store_valid(es: Seq<Entry>, cap: nat, e: Entry)
    requires
        valid_entries(es, cap),
    ensures
        valid_entries(store_entry(es, cap, e), cap),
        queue_of(store_entry(es, cap, e)).len() <= cap,
{
    let r = store_entry(es, cap, e);
    if contains_address(es, e.address) {
        let k = index_of(es, e.address);
        assert forall|i: int, j: int| 0 <= i < j < r.len() implies r[i].address
            != r[j].address by {
            if i == k {
                assert(es[k].address == e.address);
            }
            if j == k {
                assert(es[k].address == e.address);
            }
        }
    } else if cap == 0 {
    } else if es.len() >= cap {
        assert forall|i: int, j: int| 0 <= i < j < r.len() implies r[i].address
            != r[j].address by {
            if j == r.len() - 1 {
                assert(es[i + 1].address != e.address);
            } else {
                assert(r[i] == es[i + 1] && r[j] == es[j + 1]);
            }
        }
    } else {
        assert forall|i: int, j: int| 0 <= i < j < r.len() implies r[i].address
            != r[j].address by {
            if j == r.len() - 1 {
                assert(es[i].address != e.address);
            }
        }
    }
}

/// In a valid state the map's keys are exactly the queue's entries, the
/// queue has no duplicates, and the map holds at most `cap` keys.
pub proof fn lemma_map_queue_bijection(es: Seq<Entry>, cap: nat)
    requires
        valid_entries(es, cap),
    ensures
        map_of(es).dom() == queue_of(es).to_set(),
        queue_of(es).no_duplicates(),
        map_of(es).dom().len() == queue_of(es).len(),
        map_of(es).dom().len() <= cap,
{
    let q = queue_of(es);
    assert(map_of(es).dom() =~= q.to_set()) by {
        assert forall|a: Address| map_of(es).dom().contains(a) implies q.to_set().contains(a) by {
            let i = choose|i: int| 0 <= i < es.len() && es[i].address == a;
            assert(q[i] == a);
        }
        assert forall|a: Address| q.to_set().contains(a) implies map_of(es).dom().contains(a) by {
            let i = choose|i: int| 0 <= i < q.len() && q[i] == a;
            assert(es[i].address == a);
        }
    }
    assert(q.no_duplicates()) by {
        assert forall|i: int, j: int| 0 <= i < q.len() && 0 <= j < q.len() && i != j implies q[i]
            != q[j] by {
            if i < j {
                assert(es[i].address != es[j].address);
            } else {
                assert(es[j].address != es[i].address);
            }
        }
    }
    q.unique_seq_to_set();
}

/// After any sequence of stores the state stays valid, and so the map's
/// keys and the queue's entries correspond one to one, without
/// duplicates, and never number more than the capacity.
pub proof fn lemma_bijection_invariant(es: Seq<Entry>, cap: nat, news: Seq<Entry>)
    requires
        valid_entries(es, cap),
    ensures
        valid_entries(store_all(es, cap, news), cap),
        map_of(store_all(es, cap, news)).dom() == queue_of(store_all(es, cap, news)).to_set(),
        queue_of(store_all(es, cap, news)).no_duplicates(),
        map_of(store_all(es, cap, news)).dom().len() <= cap,
    decreases news.len(),
{
    if news.len() > 0 {
        lemma_bijection_invariant(es, cap, news.drop_last());
        lemma_store_valid(store_all(es, cap, news.drop_last()), cap, news.last());
    }
    lemma_map_queue_bijection(store_all(es, cap, news), cap);
}

/// The entries after storing `news.take(k)`: the newest entries of
/// `es + news.take(k)`, as many as the capacity allows.
proof fn lemma_fifo_window(es: Seq<Entry>, cap: nat, news: Seq<Entry>, k: int)
    requires
        valid_entries(es, cap),
        unique_addresses(news),
        forall|i: int, j: int| 0 <= i < es.len() && 0 <= j < news.len() ==> es[i].address != news[j].address,
        0 <= k <= news.len(),
    ensures
        ({
            let hi = es.len() + k;
            let lo = if cap < hi { hi - cap } else { 0 };
            store_all(es, cap, news.take(k)) == (es + news).subrange(lo, hi)
        }),
    decreases k,
{
    let all = es + news;
    if k == 0 {
        assert(news.take(0) =~= Seq::<Entry>::empty());
        assert(all.subrange(0, es.len() as int) =~= es);
    } else {
        lemma_fifo_window(es, cap, news, k - 1);
        assert(news.take(k).drop_last() =~= news.take(k - 1));
        let cur = store_all(es, cap, news.take(k - 1));
        let e = news[k - 1];
        let hi0 = es.len() + k - 1;
        let lo0 = if cap < hi0 { hi0 - cap } else { 0 };
        assert(cur == all.subrange(lo0, hi0));
        assert(!contains_address(cur, e.address)) by {
            if contains_address(cur, e.address) {
                let i = choose|i: int| 0 <= i < cur.len() && cur[i].address == e.address;
                let j = lo0 + i;
                if j < es.len() {
                    assert(all[j] == es[j]);
                } else {
                    assert(all[j] == news[j - es.len()]);
                    assert(j - es.len() < k - 1);
                }
            }
        }
        let hi = es.len() + k;
        let lo = if cap < hi { hi - cap } else { 0 };
        if cap == 0 {
            assert(all.subrange(lo, hi) =~= Seq::<Entry>::empty());
            assert(cur =~= Seq::<Entry>::empty());
        } else if cur.len() >= cap {
            assert(store_all(es, cap, news.take(k)) =~= all.subrange(lo, hi));
        } else {
            assert(store_all(es, cap, news.take(k)) =~= all.subrange(lo, hi));
        }
    }
}

/// First in, first out: with capacity `cap`, storing `cap + 1` new,
/// distinct identifiers in turn leaves exactly the last `cap` of them, in
/// order, and the first is gone.
pub proof fn lemma_fifo_eviction(es: Seq<Entry>, cap: nat, news: Seq<Entry>)
    requires
        valid_entries(es, cap),
        news.len() == cap + 1,
        unique_addresses(news),
        forall|i: int, j: int| 0 <= i < es.len() && 0 <= j < news.len() ==> es[i].address != news[j].address,
    ensures
        store_all(es, cap, news) == news.subrange(1, cap + 1 as int),
        queue_of(store_all(es, cap, news)) == queue_of(news.subrange(1, cap + 1 as int)),
        !map_of(store_all(es, cap, news)).contains_key(news[0].address),
{
    lemma_fifo_window(es, cap, news, news.len() as int);
    assert(news.take(news.len() as int) =~= news);
    assert((es + news).subrange(es.len() + 1 as int, es.len() + cap + 1 as int) =~= news.subrange(1, cap + 1 as int));
    let r = store_all(es, cap, news);
    if map_of(r).contains_key(news[0].address) {
        let i = choose|i: int| 0 <= i < r.len() && r[i].address == news[0].address;
        assert(r[i] == news[i + 1]);
    }
}

/// Storing a fresh value for a cached identifier, once or twice in a row,
/// keeps the queue as it was: same length, nothing evicted.
pub proof fn lemma_requery_keeps_queue(es: Seq<Entry>, cap: nat, a: Address, v1: Value, v2: Value)
    requires
        valid_entries(es, cap),
        contains_address(es, a),
    ensures
        queue_of(store_entry(es, cap, Entry { address: a, value: v1 })) == queue_of(es),
        queue_of(
            store_entry(
                store_entry(es, cap, Entry { address: a, value: v1 }),
                cap,
                Entry { address: a, value: v2 },
            ),
        ) == queue_of(es),
{
    let once = store_entry(es, cap, Entry { address: a, value: v1 });
    let i = index_of(es, a);
    assert(queue_of(once) =~= queue_of(es));
    assert(once[i].address == a);
    assert(contains_address(once, a));
    let twice = store_entry(once, cap, Entry { address: a, value: v2 });
    assert(queue_of(twice) =~= queue_of(once));
}

/// A saved state read back gives the same generation number and entries:
/// saving, dropping the cache and building a new one over the same bytes
/// reproduces the map and the queue.
pub proof fn lemma_persistence_survival(sequence: u64, es: Seq<Entry>, cap: nat)
    requires
        valid_entries(es, cap),
        ENTRY_LEN * es.len() <= usize::MAX,
    ensures
        restore(snapshot_bytes(sequence, es), cap) == Ok::<(u64, Seq<Entry>), CheckpointError>(
            (sequence, es),
        ),
        start_state(load_outcome(Some(snapshot_bytes(sequence, es))), cap) == Ok::<
            (u64, Seq<Entry>),
            CheckpointError,
        >((sequence, es)),
{
    let p = entries_bytes(es);
    lemma_entries_bytes_len(es);
    lemma_decode_encode(snapshot_record(sequence, es));
    assert(p.len() % (ENTRY_LEN as nat) == 0) by {
        let n = es.len();
        assert((ENTRY_LEN as int * n) % (ENTRY_LEN as int) == 0) by (nonlinear_arith);
    }
    let c = entries_of(p);
    assert(entries_bytes(c) == p);
    lemma_entries_bytes_injective(c, es);
}

/// A backend that never saved gives an empty, valid cache.
pub proof fn lemma_cold_start(cap: nat)
    ensures
        start_state(load_outcome(None), cap) == Ok::<(u64, Seq<Entry>), CheckpointError>(
            (0u64, Seq::empty()),
        ),
        valid_entries(Seq::empty(), cap),
{
}

/// After a value is stored for an identifier in a cache that keeps
/// anything, the identifier is cached with exactly that value.
pub proof fn lemma_store_then_resolve(es: Seq<Entry>, cap: nat, e: Entry)
    requires
        valid_entries(es, cap),
        cap > 0,
    ensures
        map_of(store_entry(es, cap, e)).contains_key(e.address),
        map_of(store_entry(es, cap, e))[e.address] == e.value,
{
    let r = store_entry(es, cap, e);
    lemma_store_valid(es, cap, e);
    let i = if contains_address(es, e.address) {
        index_of(es, e.address)
    } else {
        r.len() - 1
    };
    assert(r[i] == e);
    lemma_index_of(r, i);
}

} // verus!
