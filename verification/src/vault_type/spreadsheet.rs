//! Spreadsheet and login-cell storage records: coordinate-keyed cells, column
//! display metadata, and the composite key schema they share.
use crate::bytes::{be16, bytes_eq, bytes_range, push_all};
use crate::vault_type::tenant_bytes;
use vstd::prelude::*;

verus! {

/// Storage key bytes of a cell record: coordinates first, tenant second.
/// Iteration over a cell map therefore groups by coordinate before tenant,
/// which is why every tenant-scoped read is a full scan with a filter.
pub open spec fn cell_key_bytes(x: u8, y: u8, principals: Seq<u8>) -> Seq<u8> {
    seq![x, y] + principals
}

/// Storage key bytes of a column-metadata record: the column index, then the
/// tenant.
pub open spec fn column_key_bytes(x: u8, principals: Seq<u8>) -> Seq<u8> {
    seq![x] + principals
}

/// Value bytes of a column-metadata record: a one-byte hidden flag followed
/// by the display-name bytes.
pub open spec fn column_value_bytes(hidden: bool, name: Seq<u8>) -> Seq<u8> {
    seq![if hidden { 1u8 } else { 0u8 }] + name
}

/// Key of one spreadsheet or login cell: the concatenated tenant identifiers
/// and the cell's (x, y) coordinate.
pub struct SpreadsheetKey {
    pub principals: Vec<u8>,
    pub x: u8,
    pub y: u8,
}

impl SpreadsheetKey {
    pub fn new(user_id: &Vec<u8>, vault_id: &Vec<u8>, x: u8, y: u8) -> (r: Self)
        ensures
            r.principals@ == tenant_bytes(user_id@, vault_id@),
            r.x == x,
            r.y == y,
    {
        let mut principals: Vec<u8> = Vec::new();
        push_all(&mut principals, user_id);
        push_all(&mut principals, vault_id);
        SpreadsheetKey { principals, x, y }
    }

    /// Exact byte-for-byte tenant comparison; no prefix matching.
    pub fn principals_match(&self, principals: &Vec<u8>) -> (r: bool)
        ensures
            r == (self.principals@ == principals@),
    {
        bytes_eq(&self.principals, principals)
    }

    /// Serializes the key for storage: x, y, then the tenant bytes.
    pub fn to_bytes(&self) -> (r: Vec<u8>)
        ensures
            r@ == cell_key_bytes(self.x, self.y, self.principals@),
    {
        let mut bytes: Vec<u8> = Vec::new();
        bytes.push(self.x);
        bytes.push(self.y);
        push_all(&mut bytes, &self.principals);
        proof {
            assert(bytes@ =~= cell_key_bytes(self.x, self.y, self.principals@));
        }
        bytes
    }

    pub fn from_bytes(bytes: &Vec<u8>) -> (r: Self)
        requires
            bytes@.len() >= 2,
        ensures
            r.x == bytes@[0],
            r.y == bytes@[1],
            r.principals@ == bytes@.skip(2),
            bytes@ == cell_key_bytes(r.x, r.y, r.principals@),
    {
        let x = bytes[0];
        let y = bytes[1];
        let principals = bytes_range(bytes, 2, bytes.len());
        proof {
            assert(bytes@.subrange(2, bytes@.len() as int) =~= bytes@.skip(2));
            assert(bytes@ =~= cell_key_bytes(x, y, bytes@.skip(2)));
        }
        SpreadsheetKey { principals, x, y }
    }
}

/// Value of one spreadsheet or login cell: an opaque payload, stored as-is.
pub struct SpreadsheetValue {
    pub data: Vec<u8>,
}

impl SpreadsheetValue {
    pub fn new(data: Vec<u8>) -> (r: Self)
        ensures
            r.data == data,
    {
        SpreadsheetValue { data }
    }

    pub fn to_bytes(&self) -> (r: Vec<u8>)
        ensures
            r@ == self.data@,
    {
        bytes_range(&self.data, 0, self.data.len())
    }

    pub fn from_bytes(bytes: &Vec<u8>) -> (r: Self)
        ensures
            r.data@ == bytes@,
    {
        SpreadsheetValue { data: bytes_range(bytes, 0, bytes.len()) }
    }
}

/// Value bytes of a login credential pair: a two-byte big-endian username
/// length, the username, then the password.
pub open spec fn login_value_bytes(username: Seq<u8>, password: Seq<u8>) -> Seq<u8> {
    seq![(username.len() / 256) as u8, (username.len() % 256) as u8] + username + password
}

/// A credential pair, as one cell payload.
pub struct LoginValue {
    pub username: Vec<u8>,
    pub password: Vec<u8>,
}

impl LoginValue {
    pub fn new(username: Vec<u8>, password: Vec<u8>) -> (r: Self)
        ensures
            r.username == username,
            r.password == password,
    {
        LoginValue { username, password }
    }

    pub fn to_bytes(&self) -> (r: Vec<u8>)
        requires
            self.username@.len() <= 65535,
        ensures
            r@ == login_value_bytes(self.username@, self.password@),
    {
        let ulen = self.username.len();
        let hi = (ulen / 256) as u8;
        let lo = (ulen % 256) as u8;
        let mut bytes: Vec<u8> = Vec::new();
        bytes.push(hi);
        bytes.push(lo);
        push_all(&mut bytes, &self.username);
        push_all(&mut bytes, &self.password);
        proof {
            assert(bytes@ =~= login_value_bytes(self.username@, self.password@));
        }
        bytes
    }

    pub fn from_bytes(bytes: &Vec<u8>) -> (r: Self)
        requires
            bytes@.len() >= 2,
            2 + be16(bytes@[0], bytes@[1]) <= bytes@.len(),
        ensures
            r.username@ == bytes@.subrange(2, 2 + be16(bytes@[0], bytes@[1])),
            r.password@ == bytes@.skip(2 + be16(bytes@[0], bytes@[1])),
    {
        let ulen: usize = (bytes[0] as usize) * 256 + (bytes[1] as usize);
        let username = bytes_range(bytes, 2, 2 + ulen);
        let password = bytes_range(bytes, 2 + ulen, bytes.len());
        proof {
            assert(bytes@.subrange(2 + ulen as int, bytes@.len() as int) =~= bytes@.skip(
                2 + ulen as int,
            ));
        }
        LoginValue { username, password }
    }
}

/// Key of one spreadsheet column-metadata record.
pub struct ColumnKey {
    pub principals: Vec<u8>,
    pub x: u8,
}

impl ColumnKey {
    pub fn new(user_id: &Vec<u8>, vault_id: &Vec<u8>, x: u8) -> (r: Self)
        ensures
            r.principals@ == tenant_bytes(user_id@, vault_id@),
            r.x == x,
    {
        let mut principals: Vec<u8> = Vec::new();
        push_all(&mut principals, user_id);
        push_all(&mut principals, vault_id);
        ColumnKey { principals, x }
    }

    /// Exact byte-for-byte tenant comparison; no prefix matching.
    pub fn principals_match(&self, principals: &Vec<u8>) -> (r: bool)
        ensures
            r == (self.principals@ == principals@),
    {
        bytes_eq(&self.principals, principals)
    }

    /// Serializes the key for storage: x, then the tenant bytes.
    pub fn to_bytes(&self) -> (r: Vec<u8>)
        ensures
            r@ == column_key_bytes(self.x, self.principals@),
    {
        let mut bytes: Vec<u8> = Vec::new();
        bytes.push(self.x);
        push_all(&mut bytes, &self.principals);
        proof {
            assert(bytes@ =~= column_key_bytes(self.x, self.principals@));
        }
        bytes
    }

    pub fn from_bytes(bytes: &Vec<u8>) -> (r: Self)
        requires
            bytes@.len() >= 1,
        ensures
            r.x == bytes@[0],
            r.principals@ == bytes@.skip(1),
            bytes@ == column_key_bytes(r.x, r.principals@),
    {
        let x = bytes[0];
        let principals = bytes_range(bytes, 1, bytes.len());
        proof {
            assert(bytes@.subrange(1, bytes@.len() as int) =~= bytes@.skip(1));
            assert(bytes@ =~= column_key_bytes(x, bytes@.skip(1)));
        }
        ColumnKey { principals, x }
    }
}

/// Display-only information of a spreadsheet column: whether it is hidden,
/// and its display name.
pub struct ColumnData {
    pub hidden: bool,
    pub name: Vec<u8>,
}

impl ColumnData {
    pub fn new(hidden: bool, name: Vec<u8>) -> (r: Self)
        ensures
            r.hidden == hidden,
            r.name == name,
    {
        ColumnData { hidden, name }
    }

    /// Serializes the value for storage: a hidden flag byte (1 when hidden,
    /// 0 otherwise), then the name bytes.
    pub fn to_bytes(&self) -> (r: Vec<u8>)
        ensures
            r@ == column_value_bytes(self.hidden, self.name@),
    {
        let mut bytes: Vec<u8> = Vec::new();
        if self.hidden {
            bytes.push(1u8);
        } else {
            bytes.push(0u8);
        }
        push_all(&mut bytes, &self.name);
        proof {
            assert(bytes@ =~= column_value_bytes(self.hidden, self.name@));
        }
        bytes
    }

    pub fn from_bytes(bytes: &Vec<u8>) -> (r: Self)
        requires
            bytes@.len() >= 1,
        ensures
            r.hidden == (bytes@[0] != 0),
            r.name@ == bytes@.skip(1),
    {
        let hidden = bytes[0] > 0;
        let name = bytes_range(bytes, 1, bytes.len());
        proof {
            assert(bytes@.subrange(1, bytes@.len() as int) =~= bytes@.skip(1));
        }
        ColumnData { hidden, name }
    }
}

} // verus!
