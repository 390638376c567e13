//! The engine's share of key management: caching derived key blobs per
//! owner. The threshold key-derivation service itself is an external
//! collaborator; the engine only stores and looks up its opaque results,
//! keyed by owner identifier.
use crate::bytes::bytes_range;
use crate::store::{store_contents, ByteStore};
use vstd::prelude::*;

verus! {

/// What a derived key is scoped to. Identifiers are raw principal or
/// organisation bytes.
pub enum Scope {
    PerCanister,
    PerUser { user: Vec<u8> },
    PerOrg { org_id: Vec<u8> },
}

/// The owner identifier a derived key blob is stored under. A per-user key
/// belongs to the named user; the other scopes attribute the key to the
/// transport caller, whom only the boundary knows, so they yield nothing
/// here.
pub fn storage_user_of(scope: &Scope) -> (r: Option<Vec<u8>>)
    ensures
        match scope {
            Scope::PerUser { user } => r matches Some(u) && u@ == user@,
            _ => r is None,
        },
{
    match scope {
        Scope::PerUser { user } => Some(bytes_range(user, 0, user.len())),
        _ => None,
    }
}

/// Caches a derived key blob under the owner's identifier bytes.
pub fn save_vetkey_for_user(user_key: &Vec<u8>, encrypted_key: Vec<u8>, km: &mut ByteStore)
    ensures
        store_contents(*final(km)) == store_contents(*old(km)).insert(user_key@, encrypted_key@),
{
    let key = bytes_range(user_key, 0, user_key.len());
    km.insert(key, encrypted_key);
    proof {
        assert(user_key@.subrange(0, user_key@.len() as int) =~= user_key@);
    }
}

/// Looks up the cached key blob of an owner, if one was stored.
pub fn retrieve_vetkey_per_user(user_key: &Vec<u8>, km: &ByteStore) -> (r: Option<Vec<u8>>)
    ensures
        match r {
            Some(k) => store_contents(*km).contains_key(user_key@) && k@ == store_contents(
                *km,
            )[user_key@],
            None => !store_contents(*km).contains_key(user_key@),
        },
{
    km.get(user_key)
}

} // verus!
