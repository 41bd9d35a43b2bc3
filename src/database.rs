//! Checkpoint storage backends: durable storage of one checkpoint's bytes.
use vstd::prelude::*;

use crate::bytes::push_range;

verus! {

/// Why a backend could not load or save.
#[derive(Clone, Copy, Debug, PartialEq, Eq, Structural)]
pub enum StoreError {
    /// Nothing has been saved yet; expected on a first run.
    NotFound,
    /// The storage layer failed (I/O, corruption).
    Backend,
}

/// A storage backend holding the bytes of at most one checkpoint, last
/// write wins.
pub trait Database {
    /// The bytes last saved, if any.
    spec fn stored(&self) -> Option<Seq<u8>>;

    /// Whether this backend never reports a storage failure.
    spec fn reliable(&self) -> bool;

    /// Returns the bytes last saved. `NotFound` is reported exactly when
    /// nothing has been saved; a storage failure may be reported at any time.
    fn load_checkpoint(&self) -> (r: Result<Vec<u8>, StoreError>)
        ensures
            match r {
                Ok(b) => self.stored() == Some(b@),
                Err(StoreError::NotFound) => self.stored() is None,
                Err(StoreError::Backend) => true,
            },
            self.stored() is None ==> r is Err,
            self.reliable() ==> !(r matches Err(StoreError::Backend)),
    ;

    /// Replaces the stored bytes by `checkpoint`. A failed save leaves
    /// either the old bytes or the new ones, never a mix.
    fn save_checkpoint(&mut self, checkpoint: &[u8]) -> (r: Result<(), StoreError>)
        ensures
            r is Ok ==> final(self).stored() == Some(checkpoint@),
            r is Err ==> final(self).stored() == old(self).stored() || final(self).stored() == Some(
                checkpoint@,
            ),
            old(self).reliable() ==> r is Ok,
            final(self).reliable() == old(self).reliable(),
    ;
}

/// A process-local backend that keeps the bytes in memory.
pub struct TemporaryDB {
    checkpoint: Option<Vec<u8>>,
}

impl TemporaryDB {
    /// A backend to which nothing has been saved.
    pub fn new() -> (r: TemporaryDB)
        ensures
            r.stored() is None,
            r.reliable(),
    {
        TemporaryDB { checkpoint: None }
    }
}

impl Database for TemporaryDB {
    closed spec fn stored(&self) -> Option<Seq<u8>> {
        match self.checkpoint {
            Some(b) => Some(b@),
            None => None,
        }
    }

    closed spec fn reliable(&self) -> bool {
        true
    }

    fn load_checkpoint(&self) -> (r: Result<Vec<u8>, StoreError>)
        ensures
            self.stored() is Some ==> r is Ok,
            self.stored() is None ==> r == Err::<Vec<u8>, StoreError>(StoreError::NotFound),
    {
        match &self.checkpoint {
            Some(b) => {
                let mut copy: Vec<u8> = Vec::new();
                push_range(&mut copy, b.as_slice(), 0, b.len());
                assert(b@.subrange(0, b@.len() as int) =~= b@);
                Ok(copy)
            },
            None => Err(StoreError::NotFound),
        }
    }

    fn save_checkpoint(&mut self, checkpoint: &[u8]) -> (r: Result<(), StoreError>)
        ensures
            r is Ok,
    {
        let mut copy: Vec<u8> = Vec::new();
        push_range(&mut copy, checkpoint, 0, checkpoint.len());
        assert(checkpoint@.subrange(0, checkpoint@.len() as int) =~= checkpoint@);
        self.checkpoint = Some(copy);
        Ok(())
    }
}

} // verus!
