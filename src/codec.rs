//! The checkpoint record and its byte format.
//!
//! A record is written as one version byte, the sequence number as eight
//! big-endian bytes, then the label and the payload, each preceded by its
//! length as eight big-endian bytes. Nothing may follow the payload.
use vstd::prelude::*;

use crate::bytes::{be_u64, push_range, push_u64, read_u64, u64_be_bytes, bytes_equal};
use crate::bytes::{lemma_be_u64_of_bytes, lemma_bytes_of_be_u64};

verus! {

/// The only format version this library reads and writes.
pub const FORMAT_VERSION: u8 = 1;

/// Bytes before the label: version, sequence number and label length.
pub const HEADER_LEN: usize = 17;

/// A durable snapshot unit.
#[derive(Clone, Debug)]
pub struct Checkpoint {
    /// Generation counter; a cache raises it by one with every save.
    pub sequence: u64,
    /// A short descriptive tag, for diagnostics.
    pub label: Vec<u8>,
    /// Opaque contents.
    pub payload: Vec<u8>,
}

/// The value of a [`Checkpoint`].
pub ghost struct CheckpointView {
    pub sequence: u64,
    pub label: Seq<u8>,
    pub payload: Seq<u8>,
}

impl View for Checkpoint {
    type V = CheckpointView;

    open spec fn view(&self) -> CheckpointView {
        CheckpointView { sequence: self.sequence, label: self.label@, payload: self.payload@ }
    }
}

impl PartialEq for Checkpoint {
    fn eq(&self, other: &Checkpoint) -> (r: bool) {
        self.sequence == other.sequence && bytes_equal(self.label.as_slice(), other.label.as_slice())
            && bytes_equal(self.payload.as_slice(), other.payload.as_slice())
    }
}

impl vstd::std_specs::cmp::PartialEqSpecImpl for Checkpoint {
    open spec fn obeys_eq_spec() -> bool {
        true
    }

    open spec fn eq_spec(&self, other: &Checkpoint) -> bool {
        self@ == other@
    }
}

/// Why bytes could not be read as a checkpoint.
#[derive(Clone, Copy, Debug, PartialEq, Eq, Structural)]
pub enum DecodeError {
    /// The bytes do not follow the format.
    Malformed,
    /// The leading version byte names a version this library does not read.
    VersionMismatch,
}

/// The bytes of a record.
pub open spec fn encode_spec(r: CheckpointView) -> Seq<u8> {
    seq![FORMAT_VERSION] + u64_be_bytes(r.sequence) + u64_be_bytes(r.label.len() as u64) + r.label
        + u64_be_bytes(r.payload.len() as u64) + r.payload
}

/// The record that `b` holds, or why it holds none.
pub open spec fn decode_spec(b: Seq<u8>) -> Result<CheckpointView, DecodeError> {
    if b.len() == 0 {
        Err(DecodeError::Malformed)
    } else if b[0] != FORMAT_VERSION {
        Err(DecodeError::VersionMismatch)
    } else if b.len() < HEADER_LEN + 8 {
        Err(DecodeError::Malformed)
    } else {
        let l = be_u64(b, 9) as int;
        if b.len() < HEADER_LEN + l + 8 {
            Err(DecodeError::Malformed)
        } else {
            let p = be_u64(b, HEADER_LEN + l) as int;
            if b.len() != HEADER_LEN + l + 8 + p {
                Err(DecodeError::Malformed)
            } else {
                Ok(
                    CheckpointView {
                        sequence: be_u64(b, 1),
                        label: b.subrange(HEADER_LEN as int, HEADER_LEN + l),
                        payload: b.subrange(HEADER_LEN + l + 8, b.len() as int),
                    },
                )
            }
        }
    }
}

/// Writes a checkpoint in the versioned byte format.
pub fn encode(checkpoint: &Checkpoint) -> (r: Vec<u8>)
    ensures
        r@ == encode_spec(checkpoint@),
{
    let mut out: Vec<u8> = Vec::new();
    out.push(FORMAT_VERSION);
    push_u64(&mut out, checkpoint.sequence);
    push_u64(&mut out, checkpoint.label.len() as u64);
    push_range(&mut out, checkpoint.label.as_slice(), 0, checkpoint.label.len());
    push_u64(&mut out, checkpoint.payload.len() as u64);
    push_range(&mut out, checkpoint.payload.as_slice(), 0, checkpoint.payload.len());
    assert(checkpoint.label@.subrange(0, checkpoint.label@.len() as int) =~= checkpoint.label@);
    assert(checkpoint.payload@.subrange(0, checkpoint.payload@.len() as int)
        =~= checkpoint.payload@);
    assert(out@ =~= encode_spec(checkpoint@));
    out
}

/// Reads a checkpoint written by [`encode`].
pub fn decode(b: &[u8]) -> (r: Result<Checkpoint, DecodeError>)
    ensures
        match r {
            Ok(c) => decode_spec(b@) == Ok::<CheckpointView, DecodeError>(c@),
            Err(e) => decode_spec(b@) == Err::<CheckpointView, DecodeError>(e),
        },
{
    let len = b.len();
    if len == 0 {
        return Err(DecodeError::Malformed);
    }
    if b[0] != FORMAT_VERSION {
        return Err(DecodeError::VersionMismatch);
    }
    if len < HEADER_LEN + 8 {
        return Err(DecodeError::Malformed);
    }
    let sequence = read_u64(b, 1);
    let l = read_u64(b, 9);
    if l > (len - HEADER_LEN - 8) as u64 {
        return Err(DecodeError::Malformed);
    }
    let lu = l as usize;
    let p = read_u64(b, HEADER_LEN + lu);
    if p != (len - HEADER_LEN - lu - 8) as u64 {
        return Err(DecodeError::Malformed);
    }
    let mut label: Vec<u8> = Vec::new();
    push_range(&mut label, b, HEADER_LEN, HEADER_LEN + lu);
    let mut payload: Vec<u8> = Vec::new();
    push_range(&mut payload, b, HEADER_LEN + lu + 8, len);
    assert(label@ =~= b@.subrange(HEADER_LEN as int, HEADER_LEN + lu));
    assert(payload@ =~= b@.subrange(HEADER_LEN + lu + 8, len as int));
    Ok(Checkpoint { sequence, label, payload })
}

/// Decoding what [`encode`] wrote gives the record back.
pub proof fn lemma_decode_encode(r: CheckpointView)
    requires
        r.label.len() <= u64::MAX,
        r.payload.len() <= u64::MAX,
    ensures
        decode_spec(encode_spec(r)) == Ok::<CheckpointView, DecodeError>(r),
{
    let b = encode_spec(r);
    let l = r.label.len();
    let p = r.payload.len();
    lemma_be_u64_of_bytes(r.sequence);
    lemma_be_u64_of_bytes(l as u64);
    lemma_be_u64_of_bytes(p as u64);
    assert(b.len() == HEADER_LEN + l + 8 + p);
    assert(b.subrange(1, 9) =~= u64_be_bytes(r.sequence));
    assert(b.subrange(9, 17) =~= u64_be_bytes(l as u64));
    assert(b.subrange(HEADER_LEN + l, HEADER_LEN + l + 8) =~= u64_be_bytes(p as u64));
    assert(be_u64(b, 1) == be_u64(u64_be_bytes(r.sequence), 0));
    assert(be_u64(b, 9) == be_u64(u64_be_bytes(l as u64), 0));
    assert(be_u64(b, HEADER_LEN + l) == be_u64(u64_be_bytes(p as u64), 0));
    assert(b.subrange(HEADER_LEN as int, HEADER_LEN + l) =~= r.label);
    assert(b.subrange(HEADER_LEN + l + 8, b.len() as int) =~= r.payload);
}

/// The format is canonical: bytes that decode are exactly the encoding
/// of what they decode to.
pub proof fn lemma_encode_decode(b: Seq<u8>)
    requires
        decode_spec(b) is Ok,
    ensures
        encode_spec(decode_spec(b)->Ok_0) == b,
{
    let r = decode_spec(b)->Ok_0;
    let l = be_u64(b, 9) as int;
    let p = be_u64(b, HEADER_LEN + l) as int;
    lemma_bytes_of_be_u64(b, 1);
    lemma_bytes_of_be_u64(b, 9);
    lemma_bytes_of_be_u64(b, HEADER_LEN + l);
    assert(r.label.len() == l && r.payload.len() == p);
    assert(encode_spec(r) =~= b);
}

} // verus!
