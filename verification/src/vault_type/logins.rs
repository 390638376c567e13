//! Login-column metadata records: the label ("site") of a group of login
//! cells, keyed by column index and tenant. Login cells themselves share the
//! spreadsheet cell record shape.
use crate::bytes::{bytes_eq, bytes_range, push_all};
use crate::vault_type::spreadsheet::column_key_bytes;
use crate::vault_type::tenant_bytes;
use vstd::prelude::*;

verus! {

/// Key of one login-column metadata record: the column index and the tenant.
/// The label it stores names the site or app the column's logins are for, so
/// it only needs to be unique along the x axis of one tenant.
pub struct LoginSiteKey {
    pub principals: Vec<u8>,
    pub x: u8,
}

impl LoginSiteKey {
    pub fn new(user_id: &Vec<u8>, vault_id: &Vec<u8>, x: u8) -> (r: Self)
        ensures
            r.principals@ == tenant_bytes(user_id@, vault_id@),
            r.x == x,
    {
        let mut principals: Vec<u8> = Vec::new();
        push_all(&mut principals, user_id);
        push_all(&mut principals, vault_id);
        LoginSiteKey { principals, x }
    }

    /// Exact byte-for-byte tenant comparison; no prefix matching.
    pub fn principals_match(&self, principals: &Vec<u8>) -> (r: bool)
        ensures
            r == (self.principals@ == principals@),
    {
        bytes_eq(&self.principals, principals)
    }

    /// Serializes the key for storage: x, then the tenant bytes.
    pub fn to_bytes(&self) -> (r: Vec<u8>)
        ensures
            r@ == column_key_bytes(self.x, self.principals@),
    {
        let mut bytes: Vec<u8> = Vec::new();
        bytes.push(self.x);
        push_all(&mut bytes, &self.principals);
        proof {
            assert(bytes@ =~= column_key_bytes(self.x, self.principals@));
        }
        bytes
    }

    pub fn from_bytes(bytes: &Vec<u8>) -> (r: Self)
        requires
            bytes@.len() >= 1,
        ensures
            r.x == bytes@[0],
            r.principals@ == bytes@.skip(1),
            bytes@ == column_key_bytes(r.x, r.principals@),
    {
        let x = bytes[0];
        let principals = bytes_range(bytes, 1, bytes.len());
        proof {
            assert(bytes@.subrange(1, bytes@.len() as int) =~= bytes@.skip(1));
            assert(bytes@ =~= column_key_bytes(x, bytes@.skip(1)));
        }
        LoginSiteKey { principals, x }
    }
}

} // verus!
