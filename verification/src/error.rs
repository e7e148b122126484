//! The failures that storage operations report.

use vstd::prelude::*;

verus! {

/// Why a storage operation failed.
#[derive(Clone, Copy, Debug, PartialEq, Eq, Structural)]
pub enum StorageError {
    /// The chunk or the metadata asked for is not present.
    NotFound,
    /// The backing filesystem refused a read, a write or a removal.
    Io,
    /// Persisted metadata is corrupt or does not match the schema.
    Deserialize,
    /// A hash was handed over that is not exactly 32 bytes long.
    InvalidHash,
}

impl StorageError {
    /// A short description of the failure.
    pub fn message(&self) -> (text: &'static str)
        ensures
            text@ == match *self {
                StorageError::NotFound => "not present"@,
                StorageError::Io => "filesystem failure"@,
                StorageError::Deserialize => "corrupt metadata"@,
                StorageError::InvalidHash => "hash is not 32 bytes long"@,
            },
    {
        match self {
            StorageError::NotFound => "not present",
            StorageError::Io => "filesystem failure",
            StorageError::Deserialize => "corrupt metadata",
            StorageError::InvalidHash => "hash is not 32 bytes long",
        }
    }
}

} // verus!
