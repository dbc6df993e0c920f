use vstd::prelude::*;

verus! {

/// Everything that can go wrong in the store or the sync engine, as one
/// tagged enum: a duplicate live name on create, an operation on a missing
/// or soft-deleted snippet id, a metadata read miss, sync invoked without
/// sync support, a storage-level failure (a constraint violation that no
/// other kind covers), a transport failure, and a rejection by the peer
/// (carrying the peer's message).
#[derive(Debug, Clone, PartialEq, Eq)]
pub enum StoreError {
    DupSnippetName,
    UnknownSnippetId,
    UnknownMetaKey,
    SyncingNotEnabled,
    StorageFailure,
    TransportFailure,
    RemoteRejected(String),
}

impl StoreError {
    /// A short human-readable description, for the caller's error report.
    pub fn describe(&self) -> (r: String)
        ensures
            self is DupSnippetName ==> r@ == "duplicate snippet name"@,
            self is UnknownSnippetId ==> r@ == "unknown snippet id"@,
            self is UnknownMetaKey ==> r@ == "unknown metadata key"@,
            self is SyncingNotEnabled ==> r@ == "syncing is not enabled"@,
            self is StorageFailure ==> r@ == "storage failure"@,
            self is TransportFailure ==> r@ == "transport failure"@,
            forall|m: String| *self == StoreError::RemoteRejected(m) ==> r@ == m@,
    {
        match self {
            StoreError::DupSnippetName => String::from_str("duplicate snippet name"),
            StoreError::UnknownSnippetId => String::from_str("unknown snippet id"),
            StoreError::UnknownMetaKey => String::from_str("unknown metadata key"),
            StoreError::SyncingNotEnabled => String::from_str("syncing is not enabled"),
            StoreError::StorageFailure => String::from_str("storage failure"),
            StoreError::TransportFailure => String::from_str("transport failure"),
            StoreError::RemoteRejected(m) => m.clone(),
        }
    }
}

} // verus!
