//! Offline-first synchronization engine for a note-taking client.
//!
//! A locally editable document store is kept consistent with a remote
//! authoritative store across intermittent connectivity, using a pending
//! operation queue, connectivity edge detection, and last-writer-wins
//! conflict handling with monotonic versioning.

pub mod codec;
pub mod connectivity;
pub mod console;
pub mod coordinator;
pub mod client;
pub mod errors;
pub mod keys;
pub mod note;
pub mod queue;
pub mod store;
