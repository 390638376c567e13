//! Vault-name records: one display name per tenant. Their keys are the
//! tenant bytes alone, so iteration groups by owner, then vault; these are
//! the only keys that are ever matched by owner prefix.
use crate::bytes::{bytes_eq, bytes_range, prefix_matches, push_all};
use crate::vault_type::tenant_bytes;
use vstd::prelude::*;

verus! {

/// Key of one vault-name record: exactly the tenant bytes.
pub struct VaultNameKey {
    pub principals: Vec<u8>,
}

impl VaultNameKey {
    pub fn new(user_id: &Vec<u8>, vault_id: &Vec<u8>) -> (r: Self)
        ensures
            r.principals@ == tenant_bytes(user_id@, vault_id@),
    {
        let mut principals: Vec<u8> = Vec::new();
        push_all(&mut principals, user_id);
        push_all(&mut principals, vault_id);
        VaultNameKey { principals }
    }

    /// Owner-prefix match: does this key belong to the given owner? True
    /// exactly when the key starts with the owner identifier's bytes.
    pub fn user_principals_match(&self, user_id: &Vec<u8>) -> (r: bool)
        ensures
            r == (self.principals@.len() >= user_id@.len() && self.principals@.take(
                user_id@.len() as int,
            ) == user_id@),
    {
        prefix_matches(&self.principals, user_id)
    }

    /// Exact byte-for-byte tenant comparison.
    pub fn principals_match(&self, principals: &Vec<u8>) -> (r: bool)
        ensures
            r == (self.principals@ == principals@),
    {
        bytes_eq(&self.principals, principals)
    }

    /// Serializes the key for storage: the tenant bytes as they stand.
    pub fn to_bytes(&self) -> (r: Vec<u8>)
        ensures
            r@ == self.principals@,
    {
        bytes_range(&self.principals, 0, self.principals.len())
    }

    pub fn from_bytes(bytes: &Vec<u8>) -> (r: Self)
        ensures
            r.principals@ == bytes@,
    {
        VaultNameKey { principals: bytes_range(bytes, 0, bytes.len()) }
    }
}

/// Value of one vault-name record: the name bytes as they stand.
pub struct VaultNameValue {
    pub name: Vec<u8>,
}

impl VaultNameValue {
    pub fn new(vault_name: &Vec<u8>) -> (r: Self)
        ensures
            r.name@ == vault_name@,
    {
        VaultNameValue { name: bytes_range(vault_name, 0, vault_name.len()) }
    }

    pub fn to_bytes(&self) -> (r: Vec<u8>)
        ensures
            r@ == self.name@,
    {
        bytes_range(&self.name, 0, self.name.len())
    }

    pub fn from_bytes(bytes: &Vec<u8>) -> (r: Self)
        ensures
            r.name@ == bytes@,
    {
        VaultNameValue { name: bytes_range(bytes, 0, bytes.len()) }
    }
}

} // verus!
