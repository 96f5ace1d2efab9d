//! Error taxonomy of the synchronization engine.
//!
//! Failures local to one document are isolated: batch operations complete
//! with the remaining items and record the failures instead of aborting.

use vstd::prelude::*;

verus! {

/// What went wrong during a local store operation.
#[derive(Clone, Copy, Debug, PartialEq, Eq, Structural)]
pub enum StoreError {
    /// The durable device store denied access.
    StorageUnavailable,
    /// A document could not be encoded for storage.
    SerializationFailure,
}

/// What went wrong during an operation of the engine.
///
/// A remote transport error, a non-success status and a decode error are
/// all treated identically: the remote store is unavailable for this
/// operation and the engine falls back to local data.
#[derive(Clone, Copy, Debug, PartialEq, Eq, Structural)]
pub enum SyncError {
    /// The local durable store is unavailable or an entry is corrupt.
    Storage,
    /// The remote store is unreachable or returned a non-success status.
    Network,
    /// A document could not be encoded or decoded.
    Serialization,
}

} // verus!
