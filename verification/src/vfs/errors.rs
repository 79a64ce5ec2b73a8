//! The filesystem error taxonomy. Every virtual-filesystem operation returns
//! one of these kinds to its caller; none is ever escalated into a
//! scheduler-fatal condition.

use vstd::prelude::*;

verus! {

/// The error kinds of the virtual filesystem.
///
/// `IOError` stands for a storage or transport failure reported by the
/// durable store; `StorageUninitialized` for an operation attempted before
/// the store connection was established.
#[derive(Debug, Clone, Copy, PartialEq, Eq, Structural)]
pub enum SimpleFSError {
    InvalidPath,
    NotFound,
    ParentNotFound,
    AlreadyExists,
    IOError,
    StorageUninitialized,
}

impl SimpleFSError {
    /// The one-line human-readable message for this error kind.
    pub open spec fn message_spec(&self) -> Seq<char> {
        match self {
            SimpleFSError::InvalidPath => "Invalid path"@,
            SimpleFSError::NotFound => "Not found"@,
            SimpleFSError::ParentNotFound => "Parent folder not found"@,
            SimpleFSError::AlreadyExists => "Already exists"@,
            SimpleFSError::IOError => "IO Error"@,
            SimpleFSError::StorageUninitialized => "Storage not initialized"@,
        }
    }

    /// The bare name of the error kind, as diagnostic output shows it.
    pub open spec fn kind_name_spec(&self) -> Seq<char> {
        match self {
            SimpleFSError::InvalidPath => "InvalidPath"@,
            SimpleFSError::NotFound => "NotFound"@,
            SimpleFSError::ParentNotFound => "ParentNotFound"@,
            SimpleFSError::AlreadyExists => "AlreadyExists"@,
            SimpleFSError::IOError => "IOError"@,
            SimpleFSError::StorageUninitialized => "StorageUninitialized"@,
        }
    }

    /// The bare name of the error kind.
    pub fn kind_name(&self) -> (r: String)
        ensures
            r@ == self.kind_name_spec(),
    {
        match self {
            SimpleFSError::InvalidPath => "InvalidPath".to_owned(),
            SimpleFSError::NotFound => "NotFound".to_owned(),
            SimpleFSError::ParentNotFound => "ParentNotFound".to_owned(),
            SimpleFSError::AlreadyExists => "AlreadyExists".to_owned(),
            SimpleFSError::IOError => "IOError".to_owned(),
            SimpleFSError::StorageUninitialized => "StorageUninitialized".to_owned(),
        }
    }

    /// Renders the error as a one-line human-readable message.
    pub fn message(&self) -> (r: String)
        ensures
            r@ == self.message_spec(),
    {
        match self {
            SimpleFSError::InvalidPath => "Invalid path".to_owned(),
            SimpleFSError::NotFound => "Not found".to_owned(),
            SimpleFSError::ParentNotFound => "Parent folder not found".to_owned(),
            SimpleFSError::AlreadyExists => "Already exists".to_owned(),
            SimpleFSError::IOError => "IO Error".to_owned(),
            SimpleFSError::StorageUninitialized => "Storage not initialized".to_owned(),
        }
    }
}

} // verus!
