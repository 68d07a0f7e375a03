//! Storage-layer records: errors, pack-file records, store configuration and
//! repository metadata.
use vstd::prelude::*;
use crate::object::ObjectId;
use crate::text::{concat2, to_owned};

verus! {

/// Errors of storage operations.
#[derive(Debug)]
pub enum StorageError {
    /// No object with this id.
    NotFound(ObjectId),
    /// An I/O failure, with its message.
    Io(String),
    /// A value that could not be (de)serialised.
    Serialization(String),
    /// A database failure.
    Database(String),
    /// A failure of the storage backend.
    Backend(String),
}

/// The message of a storage error.
pub open spec fn storage_error_message(e: StorageError) -> Seq<char> {
    match e {
        StorageError::NotFound(id) => "Object not found: "@ + crate::object::hex_lower(id@),
        StorageError::Io(s) => "I/O error: "@ + s@,
        StorageError::Serialization(s) => "Serialization error: "@ + s@,
        StorageError::Database(s) => "Database error: "@ + s@,
        StorageError::Backend(s) => "Storage backend error: "@ + s@,
    }
}

impl StorageError {
    /// The error's message; an id is written in lower-case hexadecimal.
    pub fn message(&self) -> (m: String)
        ensures
            m@ == storage_error_message(*self),
    {
        match self {
            StorageError::NotFound(id) => {
                let h = id.to_hex();
                concat2("Object not found: ", h.as_str())
            },
            StorageError::Io(s) => concat2("I/O error: ", s.as_str()),
            StorageError::Serialization(s) => concat2("Serialization error: ", s.as_str()),
            StorageError::Database(s) => concat2("Database error: ", s.as_str()),
            StorageError::Backend(s) => concat2("Storage backend error: ", s.as_str()),
        }
    }
}

/// A pack file of the warm store.
#[derive(Debug, Clone)]
pub struct PackEntry {
    pub object_id: String,
    pub offset: u64,
    pub size: u64,
    pub compressed_size: Option<u64>,
}

/// Configuration of the hot store.
#[derive(Debug, Clone)]
pub struct HotStoreConfig {
    /// Path to the store.
    pub path: String,
}

impl Default for HotStoreConfig {
    fn default() -> (c: Self)
        ensures
            c.path@ == "data/hot"@,
    {
        HotStoreConfig { path: to_owned("data/hot") }
    }
}

/// Repository metadata.
#[derive(Debug, Clone)]
pub struct RepositoryMetadata {
    pub uuid: String,
    pub current_rev: u64,
    pub created_at: i64,
}

} // verus!
