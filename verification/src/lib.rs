//! Storage core of a peer-to-peer file-distribution node.
//!
//! Chunks of file data are addressed by the BLAKE3 digest of their bytes,
//! deduplicated on write, kept alive by reference counts and reclaimed when
//! the last reference goes or when a sweep finds them orphaned. The crate
//! holds every decision of that engine and proves it against a mathematical
//! model; reading and writing the files themselves is left to the caller,
//! who learns from each operation what to do on disk and reports back what
//! the disk said.

pub mod cell;
pub mod chunk;
pub mod digest;
pub mod disk;
pub mod error;
pub mod file_info;
pub mod laws;
pub mod layout;
pub mod metadata;
pub mod model;
pub mod priority;
pub mod proto;
pub mod refcount;

use crate::error::StorageError;
use vstd::prelude::*;

verus! {

/// A node of the file-distribution network. For now it is a handle without
/// state: the storage manager of the node is a `cell::Cell`.
#[derive(Debug)]
pub struct HiveFlow {}

impl HiveFlow {
    /// A new node. Nothing can fail here yet; the result leaves room for a
    /// node that has to open its storage.
    pub fn new() -> (node: Result<HiveFlow, StorageError>)
        ensures
            node == Ok::<HiveFlow, StorageError>(HiveFlow {  }),
    {
        Ok(HiveFlow {  })
    }

    /// Starts the node. There is nothing to start yet, so this succeeds.
    pub fn start(&self) -> (started: Result<(), StorageError>)
        ensures
            started == Ok::<(), StorageError>(()),
    {
        Ok(())
    }
}

} // verus!
