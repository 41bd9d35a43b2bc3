//! The payload that stores the cache's entries in a checkpoint: each entry
//! in admission order, as its 20 identifier bytes followed by the value's
//! four limbs, least significant limb first, each as eight big-endian bytes.
use vstd::prelude::*;

use crate::bytes::{be_u64, lemma_be_u64_of_bytes, lemma_bytes_of_be_u64, push_range, push_u64, read_u64, u64_be_bytes};
use crate::types::{Address, Entry, Value, ADDRESS_LEN};

verus! {

broadcast use vstd::array::group_array_axioms;

/// Bytes taken by one entry.
pub const ENTRY_LEN: usize = 52;

/// The bytes of one entry.
pub open spec fn entry_bytes(e: Entry) -> Seq<u8> {
    e.address.bytes@ + u64_be_bytes(e.value.limbs[0]) + u64_be_bytes(e.value.limbs[1])
        + u64_be_bytes(e.value.limbs[2]) + u64_be_bytes(e.value.limbs[3])
}

/// The bytes of a sequence of entries, one after another.
pub open spec fn entries_bytes(es: Seq<Entry>) -> Seq<u8>
    decreases es.len(),
{
    if es.len() == 0 {
        Seq::empty()
    } else {
        entries_bytes(es.drop_last()) + entry_bytes(es.last())
    }
}

pub proof fn lemma_entries_bytes_len(es: Seq<Entry>)
    ensures
        entries_bytes(es).len() == ENTRY_LEN * es.len(),
    decreases es.len(),
{
    if es.len() > 0 {
        lemma_entries_bytes_len(es.drop_last());
    }
}

/// Entry `i` occupies bytes `52 * i` to `52 * i + 52`.
pub proof fn lemma_entries_bytes_chunk(es: Seq<Entry>, i: int)
    requires
        0 <= i < es.len(),
    ensures
        entries_bytes(es).len() == ENTRY_LEN * es.len(),
        entries_bytes(es).subrange(ENTRY_LEN * i, ENTRY_LEN * i + ENTRY_LEN) == entry_bytes(es[i]),
    decreases es.len(),
{
    lemma_entries_bytes_len(es);
    let prefix = es.drop_last();
    lemma_entries_bytes_len(prefix);
    if i < es.len() - 1 {
        lemma_entries_bytes_chunk(prefix, i);
        assert(entries_bytes(es).subrange(ENTRY_LEN * i, ENTRY_LEN * i + ENTRY_LEN)
            =~= entries_bytes(prefix).subrange(ENTRY_LEN * i, ENTRY_LEN * i + ENTRY_LEN));
    } else {
        assert(entries_bytes(es).subrange(ENTRY_LEN * i, ENTRY_LEN * i + ENTRY_LEN)
            =~= entry_bytes(es[i]));
    }
}

proof fn lemma_u64_be_bytes_injective(a: u64, b: u64)
    requires
        u64_be_bytes(a) == u64_be_bytes(b),
    ensures
        a == b,
{
    lemma_be_u64_of_bytes(a);
    lemma_be_u64_of_bytes(b);
}

/// Different entries have different bytes.
pub proof fn lemma_entry_bytes_injective(a: Entry, b: Entry)
    requires
        entry_bytes(a) == entry_bytes(b),
    ensures
        a == b,
{
    let (x, y) = (entry_bytes(a), entry_bytes(b));
    assert(a.address.bytes@ =~= x.subrange(0, 20));
    assert(b.address.bytes@ =~= y.subrange(0, 20));
    assert(a.address.bytes == b.address.bytes);
    assert(u64_be_bytes(a.value.limbs[0]) =~= x.subrange(20, 28));
    assert(u64_be_bytes(b.value.limbs[0]) =~= y.subrange(20, 28));
    assert(u64_be_bytes(a.value.limbs[1]) =~= x.subrange(28, 36));
    assert(u64_be_bytes(b.value.limbs[1]) =~= y.subrange(28, 36));
    assert(u64_be_bytes(a.value.limbs[2]) =~= x.subrange(36, 44));
    assert(u64_be_bytes(b.value.limbs[2]) =~= y.subrange(36, 44));
    assert(u64_be_bytes(a.value.limbs[3]) =~= x.subrange(44, 52));
    assert(u64_be_bytes(b.value.limbs[3]) =~= y.subrange(44, 52));
    lemma_u64_be_bytes_injective(a.value.limbs[0], b.value.limbs[0]);
    lemma_u64_be_bytes_injective(a.value.limbs[1], b.value.limbs[1]);
    lemma_u64_be_bytes_injective(a.value.limbs[2], b.value.limbs[2]);
    lemma_u64_be_bytes_injective(a.value.limbs[3], b.value.limbs[3]);
    assert(a.value.limbs@ =~= b.value.limbs@);
    assert(a.value.limbs == b.value.limbs);
    assert(a.value == b.value);
    assert(a.address == b.address);
}

/// Different sequences of entries have different bytes.
pub proof fn lemma_entries_bytes_injective(a: Seq<Entry>, b: Seq<Entry>)
    requires
        entries_bytes(a) == entries_bytes(b),
    ensures
        a == b,
{
    lemma_entries_bytes_len(a);
    lemma_entries_bytes_len(b);
    assert forall|i: int| 0 <= i < a.len() implies a[i] == b[i] by {
        lemma_entries_bytes_chunk(a, i);
        lemma_entries_bytes_chunk(b, i);
        lemma_entry_bytes_injective(a[i], b[i]);
    }
    assert(a =~= b);
}

/// The entries whose bytes are `p`, where there are such entries.
pub open spec fn entries_of(p: Seq<u8>) -> Seq<Entry> {
    choose|es: Seq<Entry>| entries_bytes(es) == p
}

/// Appends the bytes of `e` to `out`.
fn push_entry(out: &mut Vec<u8>, e: &Entry)
    ensures
        final(out)@ == old(out)@ + entry_bytes(*e),
{
    let bytes = e.address.bytes.as_slice();
    push_range(out, bytes, 0, ADDRESS_LEN);
    assert(bytes@.subrange(0, 20) =~= e.address.bytes@);
    push_u64(out, e.value.limbs[0]);
    push_u64(out, e.value.limbs[1]);
    push_u64(out, e.value.limbs[2]);
    push_u64(out, e.value.limbs[3]);
    assert(out@ =~= old(out)@ + entry_bytes(*e));
}

/// The payload bytes of `es`.
pub fn encode_entries(es: &Vec<Entry>) -> (r: Vec<u8>)
    ensures
        r@ == entries_bytes(es@),
{
    let mut out: Vec<u8> = Vec::new();
    let mut i: usize = 0;
    while i < es.len()
        invariant
            0 <= i <= es@.len(),
            out@ == entries_bytes(es@.take(i as int)),
        decreases es@.len() - i,
    {
        push_entry(&mut out, &es[i]);
        assert(es@.take(i + 1).drop_last() =~= es@.take(i as int));
        i = i + 1;
    }
    assert(es@.take(es@.len() as int) =~= es@);
    out
}

/// Reads the entry stored in `p[pos..pos + 52]`.
fn read_entry(p: &[u8], pos: usize) -> (r: Entry)
    requires
        pos + ENTRY_LEN <= p@.len(),
    ensures
        entry_bytes(r) == p@.subrange(pos as int, pos + ENTRY_LEN),
{
    let len = p.len();
    let mut bytes: [u8; 20] = [0u8; 20];
    let mut k: usize = 0;
    while k < ADDRESS_LEN
        invariant
            0 <= k <= 20,
            len == p@.len(),
            pos + ENTRY_LEN <= p@.len(),
            forall|j: int| 0 <= j < k ==> bytes[j] == p@[pos + j],
        decreases 20 - k,
    {
        bytes[k] = p[pos + k];
        k = k + 1;
    }
    let limbs: [u64; 4] = [
        read_u64(p, pos + 20),
        read_u64(p, pos + 28),
        read_u64(p, pos + 36),
        read_u64(p, pos + 44),
    ];
    let r = Entry { address: Address { bytes }, value: Value { limbs } };
    proof {
        lemma_bytes_of_be_u64(p@, pos + 20);
        lemma_bytes_of_be_u64(p@, pos + 28);
        lemma_bytes_of_be_u64(p@, pos + 36);
        lemma_bytes_of_be_u64(p@, pos + 44);
        assert(bytes@ =~= p@.subrange(pos as int, pos + 20));
        assert(entry_bytes(r) =~= p@.subrange(pos as int, pos + ENTRY_LEN));
    }
    r
}

/// The entries stored in a payload, or `None` where its length is not a
/// whole number of entries.
pub fn parse_entries(p: &[u8]) -> (r: Option<Vec<Entry>>)
    ensures
        r is Some <==> p@.len() % (ENTRY_LEN as nat) == 0,
        r matches Some(es) ==> entries_bytes(es@) == p@ && es@ == entries_of(p@),
{
    let len = p.len();
    if len % ENTRY_LEN != 0 {
        proof {
            if exists|es: Seq<Entry>| entries_bytes(es) == p@ {
                let es = choose|es: Seq<Entry>| entries_bytes(es) == p@;
                lemma_entries_bytes_len(es);
                assert((ENTRY_LEN * es.len()) % (ENTRY_LEN as int) == 0) by (nonlinear_arith);
            }
        }
        return None;
    }
    let n = len / ENTRY_LEN;
    assert(len == ENTRY_LEN * n) by (nonlinear_arith)
        requires
            len % ENTRY_LEN == 0,
            n == len / ENTRY_LEN,
    ;
    let mut es: Vec<Entry> = Vec::new();
    let mut i: usize = 0;
    while i < n
        invariant
            0 <= i <= n,
            len == p@.len(),
            len == ENTRY_LEN * n,
            es@.len() == i,
            entries_bytes(es@) == p@.subrange(0, ENTRY_LEN * i),
        decreases n - i,
    {
        let e = read_entry(p, ENTRY_LEN * i);
        let ghost before = es@;
        es.push(e);
        assert(es@.drop_last() =~= before);
        assert(p@.subrange(0, ENTRY_LEN * (i + 1)) =~= p@.subrange(0, ENTRY_LEN * i)
            + p@.subrange(ENTRY_LEN * i, ENTRY_LEN * i + ENTRY_LEN));
        i = i + 1;
    }
    assert(p@.subrange(0, len as int) =~= p@);
    proof {
        let c = entries_of(p@);
        lemma_entries_bytes_injective(c, es@);
    }
    Some(es)
}

} // verus!
