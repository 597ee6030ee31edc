//! The failures of the storage engine.

use crate::encoding::SerializationError;
use vstd::prelude::*;

verus! {

/// Why an operation on the store failed.
#[derive(Debug)]
pub enum KvStoreError {
    /// Reading or writing the log file failed; the text is the cause.
    Io(String),
    /// A record of the log could not be decoded.
    Serialization(SerializationError),
    /// The store was opened at a path that is not a directory.
    InvalidPath,
    /// The key to remove has no value.
    KeyNotFound { key: String },
    /// The index points at something that is not a `Put` record.
    IndexDesynced,
}

impl KvStoreError {
    /// The text shown for this error.
    pub open spec fn message(self) -> Seq<char> {
        match self {
            KvStoreError::Io(cause) => cause@,
            KvStoreError::Serialization(cause) => cause.message(),
            KvStoreError::InvalidPath => "Path is not a directory"@,
            KvStoreError::KeyNotFound { key: _ } => "Key does not exists"@,
            KvStoreError::IndexDesynced => "Index is desynced/corrupted"@,
        }
    }

    /// The text, as a string.
    pub fn to_string(&self) -> (text: String)
        ensures
            text@ == self.message(),
    {
        match self {
            KvStoreError::Io(cause) => cause.clone(),
            KvStoreError::Serialization(cause) => cause.to_string(),
            KvStoreError::InvalidPath => "Path is not a directory".to_owned(),
            KvStoreError::KeyNotFound { key: _ } => "Key does not exists".to_owned(),
            KvStoreError::IndexDesynced => "Index is desynced/corrupted".to_owned(),
        }
    }
}

} // verus!
