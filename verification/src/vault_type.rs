//! Storage record types: the tenant-scoped keys and the value encodings of
//! each entity kind.
use vstd::prelude::*;

pub mod logins;
pub mod secure_notes;
pub mod spreadsheet;
pub mod vault_names;

verus! {

/// The tenant key: the owner identifier's bytes followed by the vault
/// identifier's bytes, in that fixed order. Equality is exact byte-for-byte
/// comparison; the only partial matching anywhere is the owner-prefix match
/// of vault-name lookups.
pub open spec fn tenant_bytes(user_id: Seq<u8>, vault_id: Seq<u8>) -> Seq<u8> {
    user_id + vault_id
}

} // verus!
