//! Errors of the storage layer.

use vstd::prelude::*;

use crate::types::{Lsn, PageId};

verus! {

/// `std::io::Error`, which is only carried through.
#[verifier::external_type_specification]
#[verifier::external_body]
pub struct ExIoError(std::io::Error);

/// Errors returned by the storage layer.
#[derive(Debug)]
pub enum StorageError {
    /// An underlying I/O operation failed.
    Io(std::io::Error),
    /// The requested page is not where it was looked for.
    PageNotFound(PageId),
    /// The buffer pool is full and no frame can be evicted.
    BufferPoolFull,
    /// The WAL is corrupted at the given LSN (CRC mismatch, truncation and so on).
    WalCorrupted(Lsn),
    /// A WAL write operation failed.
    WalWriteFailed(String),
    /// A WAL read operation failed.
    WalReadFailed(String),
    /// A checkpoint operation failed.
    CheckpointFailed(String),
    /// A metadata file (superblock, freelist and so on) is corrupted or unreadable.
    MetadataCorrupted(String),
    /// A requested LSN has not been written yet.
    LsnNotAvailable(Lsn),
    /// The configuration is invalid.
    InvalidConfig(String),
    /// A payload could not be serialized or deserialized.
    Serialize(String),
    /// Recovery must be completed before the requested operation.
    RecoveryRequired(String),
    /// The operation makes no sense in the current state (double free and so on).
    InvalidOperation(String),
    /// Recovery met a record type that no handler is registered for.
    UnknownRecord {
        /// The type byte of the record.
        record_type: u8,
        /// The LSN of the record.
        lsn: Lsn,
    },
}

/// The result of a storage-layer operation.
pub type Result<T> = std::result::Result<T, StorageError>;

impl From<std::io::Error> for StorageError {
    fn from(error: std::io::Error) -> (converted: Self) {
        StorageError::Io(error)
    }
}

impl vstd::std_specs::convert::FromSpecImpl<std::io::Error> for StorageError {
    open spec fn obeys_from_spec() -> bool {
        true
    }

    open spec fn from_spec(error: std::io::Error) -> Self {
        StorageError::Io(error)
    }
}

} // verus!
