//! Storage and synchronization engine for a multi-tenant, end-to-end-encrypted
//! vault service: a binary wire codec for incremental update batches, a
//! tenant-scoped composite key schema, a mutation engine that applies decoded
//! batches (upsert, tombstone-by-absence, cascading deletes), and a projection
//! engine that folds flat stored records back into nested client views.
#![verifier::loop_isolation(false)]
use vstd::prelude::*;

pub mod api;
pub mod bytes;
pub mod laws;
pub mod stable;
pub mod store;
pub mod vault_type;

verus! {

/// Faults that abort a whole operation: no partial application, no retry.
///
/// `MalformedInput` is raised by the codec when a buffer is shorter than its
/// decoded headers imply. `IntegrityViolation` is raised by the projection
/// engine when a login cell has no owning column metadata; it signals a
/// storage-consistency bug, not a client error.
#[derive(Clone, Copy, PartialEq, Eq, Structural, Debug)]
pub enum VaultError {
    MalformedInput,
    IntegrityViolation,
}

} // verus!
