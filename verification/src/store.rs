//! The durable ordered key-value store that every engine component works
//! against. The store itself is a given infrastructure primitive (a stable
//! B-tree map from `ic_stable_structures`, keyed and valued by raw byte
//! vectors); only its schema and access patterns belong to this library.
//!
//! Verified code sees a store through `store_contents`, the mathematical map
//! of its current key/value byte strings, and through the trusted wrappers
//! below, whose contracts restate what the crate's own source shows of each
//! method.
use vstd::prelude::*;

verus! {

/// One persistent map of raw byte keys to raw byte values.
///
/// The field holds an `ic_stable_structures::StableBTreeMap` over byte
/// vectors, which that crate stores under their identity encoding, ordered
/// lexicographically. Verus never looks inside; everything it knows of a
/// `ByteStore` comes from the wrapper contracts in this file.
///
/// Each store owns its own backing memory (the crate's default in-process
/// memory), so distinct stores are independent and a fresh store is empty.
/// Wiring stores onto a shared durable memory through a memory manager is
/// part of service bootstrap, which lives outside the engine.
#[verifier::external_body]
pub struct ByteStore {
    map: ic_stable_structures::StableBTreeMap<
        Vec<u8>,
        Vec<u8>,
        ic_stable_structures::DefaultMemoryImpl,
    >,
}

/// The current contents of a store, as a mathematical map from key bytes to
/// value bytes. Named, not defined: the trusted wrappers below say how each
/// call reads or changes it.
pub uninterp spec fn store_contents(s: ByteStore) -> Map<Seq<u8>, Seq<u8>>;

/// The contents of a store that holds nothing.
pub open spec fn empty_contents() -> Map<Seq<u8>, Seq<u8>> {
    Map::empty()
}

impl ByteStore {
    /// Relies on `ic_stable_structures::BTreeMap::new`, which creates an
    /// empty map over the given memory.
    #[verifier::external_body]
    pub fn new() -> (r: ByteStore)
        ensures
            store_contents(r) == empty_contents(),
    {
        ByteStore {
            map: ic_stable_structures::StableBTreeMap::new(
                ic_stable_structures::DefaultMemoryImpl::default(),
            ),
        }
    }

    /// Relies on `ic_stable_structures::BTreeMap::insert`, which inserts or
    /// overwrites the entry for `key` and returns the previous value, if any.
    #[verifier::external_body]
    pub fn insert(&mut self, key: Vec<u8>, value: Vec<u8>) -> (prev: Option<Vec<u8>>)
        ensures
            store_contents(*final(self)) == store_contents(*old(self)).insert(key@, value@),
            store_contents(*final(self)).dom().finite(),
            match prev {
                Some(p) => store_contents(*old(self)).contains_key(key@) && p@ == store_contents(
                    *old(self),
                )[key@],
                None => !store_contents(*old(self)).contains_key(key@),
            },
    {
        self.map.insert(key, value)
    }

    /// Relies on `ic_stable_structures::BTreeMap::get`, which returns the
    /// value stored for `key`, if any.
    #[verifier::external_body]
    pub fn get(&self, key: &Vec<u8>) -> (r: Option<Vec<u8>>)
        ensures
            match r {
                Some(v) => store_contents(*self).contains_key(key@) && v@ == store_contents(
                    *self,
                )[key@],
                None => !store_contents(*self).contains_key(key@),
            },
    {
        self.map.get(key)
    }

    /// Relies on `ic_stable_structures::BTreeMap::remove`, which removes the
    /// entry for `key` and returns its value, if it was present.
    #[verifier::external_body]
    pub fn remove(&mut self, key: &Vec<u8>) -> (prev: Option<Vec<u8>>)
        ensures
            store_contents(*final(self)) == store_contents(*old(self)).remove(key@),
            store_contents(*final(self)).dom().finite(),
            match prev {
                Some(p) => store_contents(*old(self)).contains_key(key@) && p@ == store_contents(
                    *old(self),
                )[key@],
                None => !store_contents(*old(self)).contains_key(key@),
            },
    {
        self.map.remove(key)
    }

    /// Relies on `ic_stable_structures::BTreeMap::len`, which returns the
    /// number of entries in the map.
    #[verifier::external_body]
    pub fn len(&self) -> (r: u64)
        ensures
            r as nat == store_contents(*self).dom().len(),
    {
        self.map.len()
    }

    /// Relies on `ic_stable_structures::BTreeMap::iter`, which yields every
    /// entry of the map exactly once.
    #[verifier::external_body]
    pub fn entries(&self) -> (r: Vec<(Vec<u8>, Vec<u8>)>)
        ensures
            r@.len() == store_contents(*self).dom().len(),
            forall|i: int|
                0 <= i < r@.len() ==> #[trigger] store_contents(*self).contains_pair(
                    r@[i].0@,
                    r@[i].1@,
                ),
            forall|i: int, j: int| 0 <= i < j < r@.len() ==> r@[i].0@ != r@[j].0@,
            forall|k: Seq<u8>|
                #[trigger] store_contents(*self).contains_key(k) ==> exists|i: int|
                    0 <= i < r@.len() && r@[i].0@ == k,
    {
        self.map.iter().map(|entry| entry.into_pair()).collect()
    }

    /// True when the store holds no entries.
    pub fn is_empty(&self) -> (r: bool)
        ensures
            r == (store_contents(*self).dom().len() == 0),
    {
        self.len() == 0
    }
}

} // verus!
