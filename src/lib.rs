//! A bounded, first-in-first-out cache of account state with checkpoint
//! persistence through a pluggable storage backend.
pub mod bytes;
pub mod codec;
pub mod database;
pub mod model;
pub mod snapshot;
pub mod storage;
pub mod types;
