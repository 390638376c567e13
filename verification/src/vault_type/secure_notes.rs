//! Secure-note records: a labelled note per single-byte index and tenant.
use crate::bytes::{bytes_eq, bytes_range, push_all};
use vstd::prelude::*;

verus! {

/// Storage key bytes of a secure-note record: the note index, then the
/// tenant.
pub open spec fn note_key_bytes(index: u8, principals: Seq<u8>) -> Seq<u8> {
    seq![index] + principals
}

/// Value bytes of a secure-note record: a one-byte label length, the label,
/// then the note text.
pub open spec fn note_value_bytes(label: Seq<u8>, note: Seq<u8>) -> Seq<u8> {
    seq![label.len() as u8] + label + note
}

/// One stored secure note: an opaque label and an opaque note body.
pub struct SecureNote {
    pub label: Vec<u8>,
    pub note: Vec<u8>,
}

impl SecureNote {
    pub fn new(label: Vec<u8>, note: Vec<u8>) -> (r: Self)
        ensures
            r.label == label,
            r.note == note,
    {
        SecureNote { label, note }
    }

    /// Serializes the value for storage: the label's length in one byte, the
    /// label, then the note.
    pub fn to_bytes(&self) -> (r: Vec<u8>)
        requires
            self.label@.len() <= 255,
        ensures
            r@ == note_value_bytes(self.label@, self.note@),
    {
        let label_size = self.label.len() as u8;
        let mut bytes: Vec<u8> = Vec::new();
        bytes.push(label_size);
        push_all(&mut bytes, &self.label);
        push_all(&mut bytes, &self.note);
        proof {
            assert(bytes@ =~= note_value_bytes(self.label@, self.note@));
        }
        bytes
    }

    pub fn from_bytes(bytes: &Vec<u8>) -> (r: Self)
        requires
            bytes@.len() >= 1,
            bytes@[0] + 1 <= bytes@.len(),
        ensures
            r.label@ == bytes@.subrange(1, 1 + bytes@[0]),
            r.note@ == bytes@.skip(1 + bytes@[0]),
    {
        let label_size = bytes[0] as usize;
        let label = bytes_range(bytes, 1, 1 + label_size);
        let note = bytes_range(bytes, 1 + label_size, bytes.len());
        proof {
            assert(bytes@.subrange(1 + label_size as int, bytes@.len() as int) =~= bytes@.skip(
                1 + label_size as int,
            ));
        }
        SecureNote { label, note }
    }
}

/// Key of one secure-note record: the note index and the tenant.
pub struct SecureNoteKey {
    pub index: u8,
    pub principals: Vec<u8>,
}

impl SecureNoteKey {
    /// Exact byte-for-byte tenant comparison; no prefix matching.
    pub fn principals_match(&self, principals: &Vec<u8>) -> (r: bool)
        ensures
            r == (self.principals@ == principals@),
    {
        bytes_eq(&self.principals, principals)
    }

    /// Serializes the key for storage: the index, then the tenant bytes.
    pub fn to_bytes(&self) -> (r: Vec<u8>)
        ensures
            r@ == note_key_bytes(self.index, self.principals@),
    {
        let mut bytes: Vec<u8> = Vec::new();
        bytes.push(self.index);
        push_all(&mut bytes, &self.principals);
        proof {
            assert(bytes@ =~= note_key_bytes(self.index, self.principals@));
        }
        bytes
    }

    pub fn from_bytes(bytes: &Vec<u8>) -> (r: Self)
        requires
            bytes@.len() >= 1,
        ensures
            r.index == bytes@[0],
            r.principals@ == bytes@.skip(1),
            bytes@ == note_key_bytes(r.index, r.principals@),
    {
        let index = bytes[0];
        let principals = bytes_range(bytes, 1, bytes.len());
        proof {
            assert(bytes@.subrange(1, bytes@.len() as int) =~= bytes@.skip(1));
            assert(bytes@ =~= note_key_bytes(index, bytes@.skip(1)));
        }
        SecureNoteKey { index, principals }
    }
}

} // verus!
