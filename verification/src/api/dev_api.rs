//! The projection engine: reconstructs nested client views by scanning the
//! stores and filtering by tenant.
//!
//! Every read is a full linear scan of the relevant store with a key filter
//! (exact tenant match, or owner-prefix match for vault names); the
//! coordinate-first key ordering of cell stores precludes a tenant-prefix
//! range scan, and that access pattern is kept deliberately. Each view is an
//! association list with pairwise-distinct keys; the `*_matches` spec
//! functions say exactly which records a view holds: precisely the store's
//! records for the tenant, decoded.
use crate::bytes::{bytes_range, prefix_matches, push_all, suffix_matches};
use crate::stable::types::{columns_store_wf, notes_store_wf, GeneralState};
use crate::store::{store_contents, ByteStore};
use crate::vault_type::secure_notes::{note_key_bytes, SecureNote};
use crate::vault_type::spreadsheet::{cell_key_bytes, column_key_bytes, ColumnData};
use crate::vault_type::tenant_bytes;
use crate::vault_type::vault_names::VaultNameKey;
use crate::VaultError;
use vstd::prelude::*;

verus! {

// ---------------------------------------------------------------------------
// Vault names
// ---------------------------------------------------------------------------
/// Does the association list hold `k -> v`?
pub open spec fn assoc_has_bytes(s: Seq<(Vec<u8>, Vec<u8>)>, k: Seq<u8>, v: Seq<u8>) -> bool {
    exists|i: int| 0 <= i < s.len() && (#[trigger] s[i]).0@ == k && s[i].1@ == v
}

/// All vault names of one owner: vault identifier to name.
#[derive(Debug)]
pub struct VaultNames {
    pub names: Vec<(Vec<u8>, Vec<u8>)>,
}

/// The view holds exactly the owner's vault-name records, with the owner
/// prefix stripped from each key, each vault identifier once.
pub open spec fn names_matches(r: VaultNames, m: Map<Seq<u8>, Seq<u8>>, owner: Seq<u8>) -> bool {
    &&& forall|p: int, q: int|
        0 <= p < q < r.names@.len() ==> (#[trigger] r.names@[p]).0@ != (#[trigger] r.names@[q]).0@
    &&& forall|vid: Seq<u8>, name: Seq<u8>|
        assoc_has_bytes(r.names@, vid, name) <==> #[trigger] m.contains_pair(
            tenant_bytes(owner, vid),
            name,
        )
}

/// Scans the vault-name store for keys with the owner's prefix and folds
/// them into `vault_id -> name`, stripping the owner prefix.
pub fn _get_vault_names(user_id: &Vec<u8>, vnm: &ByteStore) -> (r: VaultNames)
    ensures
        names_matches(r, store_contents(*vnm), user_id@),
{
    let entries = vnm.entries();
    let mut names: Vec<(Vec<u8>, Vec<u8>)> = Vec::new();
    let mut i: usize = 0;
    while i < entries.len()
        invariant
            i <= entries@.len(),
            forall|p: int, q: int|
                0 <= p < q < names@.len() ==> (#[trigger] names@[p]).0@ != (
                #[trigger] names@[q]).0@,
            forall|vid: Seq<u8>, name: Seq<u8>|
                #![trigger assoc_has_bytes(names@, vid, name)]
                assoc_has_bytes(names@, vid, name) <==> exists|q: int|
                    0 <= q < i && (#[trigger] entries@[q]).0@ == tenant_bytes(user_id@, vid)
                        && entries@[q].1@ == name,
        decreases entries@.len() - i,
    {
        let entry_key = &entries[i].0;
        if prefix_matches(entry_key, user_id) {
            let vid = bytes_range(entry_key, user_id.len(), entry_key.len());
            let nm = bytes_range(&entries[i].1, 0, entries[i].1.len());
            let ghost prev = names@;
            names.push((vid, nm));
            proof {
                let k = entries@[i as int].0@;
                assert(entries@[i as int].1@.subrange(0, entries@[i as int].1@.len() as int)
                    =~= entries@[i as int].1@);
                assert(k =~= user_id@ + k.skip(user_id@.len() as int));
                assert(names@[prev.len() as int].0@ == k.skip(user_id@.len() as int));
                assert forall|vid: Seq<u8>, name: Seq<u8>| #![trigger assoc_has_bytes(names@, vid, name)]
                    assoc_has_bytes(names@, vid, name) <==> exists|q: int|
                        0 <= q < i + 1 && (#[trigger] entries@[q]).0@ == tenant_bytes(
                            user_id@,
                            vid,
                        ) && entries@[q].1@ == name by {
                    if assoc_has_bytes(names@, vid, name) {
                        let p = choose|p: int|
                            0 <= p < names@.len() && (#[trigger] names@[p]).0@ == vid
                                && names@[p].1@ == name;
                        if p < prev.len() {
                            assert(assoc_has_bytes(prev, vid, name));
                        } else {
                            assert(entries@[i as int].0@ == tenant_bytes(user_id@, vid));
                        }
                    }
                    if exists|q: int|
                        0 <= q < i + 1 && (#[trigger] entries@[q]).0@ == tenant_bytes(
                            user_id@,
                            vid,
                        ) && entries@[q].1@ == name {
                        let q = choose|q: int|
                            0 <= q < i + 1 && (#[trigger] entries@[q]).0@ == tenant_bytes(
                                user_id@,
                                vid,
                            ) && entries@[q].1@ == name;
                        if q < i {
                            assert(assoc_has_bytes(prev, vid, name));
                            let p = choose|p: int|
                                0 <= p < prev.len() && (#[trigger] prev[p]).0@ == vid
                                    && prev[p].1@ == name;
                            assert(names@[p].0@ == vid && names@[p].1@ == name);
                        } else {
                            assert((tenant_bytes(user_id@, vid)).skip(user_id@.len() as int)
                                =~= vid);
                            assert(names@[prev.len() as int].0@ == vid && names@[prev.len() as int].1@
                                == name);
                        }
                    }
                }
                assert forall|p: int, q: int| 0 <= p < q < names@.len() implies (
                #[trigger] names@[p]).0@ != (#[trigger] names@[q]).0@ by {
                    if q == prev.len() && names@[p].0@ == names@[q].0@ {
                        assert(assoc_has_bytes(prev, names@[p].0@, names@[p].1@));
                        let e = choose|e: int|
                            0 <= e < i && (#[trigger] entries@[e]).0@ == tenant_bytes(
                                user_id@,
                                names@[p].0@,
                            ) && entries@[e].1@ == names@[p].1@;
                        assert(entries@[e].0@ == entries@[i as int].0@);
                    }
                }
            }
        } else {
            proof {
                assert forall|vid: Seq<u8>, name: Seq<u8>| #![trigger assoc_has_bytes(names@, vid, name)]
                    assoc_has_bytes(names@, vid, name) <==> exists|q: int|
                        0 <= q < i + 1 && (#[trigger] entries@[q]).0@ == tenant_bytes(
                            user_id@,
                            vid,
                        ) && entries@[q].1@ == name by {
                    if exists|q: int|
                        0 <= q < i + 1 && (#[trigger] entries@[q]).0@ == tenant_bytes(
                            user_id@,
                            vid,
                        ) && entries@[q].1@ == name {
                        let q = choose|q: int|
                            0 <= q < i + 1 && (#[trigger] entries@[q]).0@ == tenant_bytes(
                                user_id@,
                                vid,
                            ) && entries@[q].1@ == name;
                        if q == i {
                            assert((tenant_bytes(user_id@, vid)).take(user_id@.len() as int)
                                =~= user_id@);
                            assert(false);
                        }
                    }
                }
            }
        }
        i = i + 1;
    }
    let r = VaultNames { names };
    proof {
        assert forall|vid: Seq<u8>, name: Seq<u8>|
            assoc_has_bytes(r.names@, vid, name) <==> #[trigger] store_contents(
                *vnm,
            ).contains_pair(tenant_bytes(user_id@, vid), name) by {
            if assoc_has_bytes(r.names@, vid, name) {
                let q = choose|q: int|
                    0 <= q < entries@.len() && (#[trigger] entries@[q]).0@ == tenant_bytes(
                        user_id@,
                        vid,
                    ) && entries@[q].1@ == name;
                assert(store_contents(*vnm).contains_pair(entries@[q].0@, entries@[q].1@));
            }
            if store_contents(*vnm).contains_pair(tenant_bytes(user_id@, vid), name) {
                let k = tenant_bytes(user_id@, vid);
                assert(store_contents(*vnm).contains_key(k));
                let q = choose|q: int| 0 <= q < entries@.len() && entries@[q].0@ == k;
                assert(store_contents(*vnm).contains_pair(entries@[q].0@, entries@[q].1@));
                assert(entries@[q].1@ == name);
            }
        }
    }
    r
}

/// Looks up one vault's name by exact tenant key; an absent record reads as
/// an empty name.
pub fn _get_vault_name(user_id: &Vec<u8>, vault_id: &Vec<u8>, vnm: &ByteStore) -> (r: Vec<u8>)
    ensures
        store_contents(*vnm).contains_key(tenant_bytes(user_id@, vault_id@)) ==> r@
            == store_contents(*vnm)[tenant_bytes(user_id@, vault_id@)],
        !store_contents(*vnm).contains_key(tenant_bytes(user_id@, vault_id@)) ==> r@
            == Seq::<u8>::empty(),
{
    let key = VaultNameKey::new(user_id, vault_id);
    let key_bytes = key.to_bytes();
    match vnm.get(&key_bytes) {
        Some(name) => name,
        None => Vec::new(),
    }
}

// ---------------------------------------------------------------------------
// Spreadsheet column info
// ---------------------------------------------------------------------------
/// Display info of the columns of one tenant's spreadsheet: column index to
/// (name, hidden).
pub type FlexGridColumns = Vec<(u8, (Vec<u8>, bool))>;

/// Does the column-info list hold `x -> (name, hidden)`?
pub open spec fn colinfo_has(s: Seq<(u8, (Vec<u8>, bool))>, x: u8, name: Seq<u8>, hidden: bool) -> bool {
    exists|i: int|
        0 <= i < s.len() && (#[trigger] s[i]).0 == x && s[i].1.0@ == name && s[i].1.1 == hidden
}

/// The view holds exactly the tenant's column-metadata records, decoded:
/// the hidden flag from the value's first byte, the name from the rest.
pub open spec fn colinfo_matches(r: Seq<(u8, (Vec<u8>, bool))>, m: Map<Seq<u8>, Seq<u8>>, t: Seq<u8>) -> bool {
    &&& forall|p: int, q: int|
        0 <= p < q < r.len() ==> (#[trigger] r[p]).0 != (#[trigger] r[q]).0
    &&& forall|x: u8, name: Seq<u8>, hidden: bool|
        #![trigger colinfo_has(r, x, name, hidden)]
        colinfo_has(r, x, name, hidden) <==> (m.contains_key(column_key_bytes(x, t)) && name
            == m[column_key_bytes(x, t)].skip(1) && hidden == (m[column_key_bytes(x, t)][0] != 0))
}

/// Scans the column-metadata store for the tenant and folds it into
/// `x -> (name, hidden)`.
pub fn _get_columns_info(user_id: &Vec<u8>, vault_id: &Vec<u8>, sc: &ByteStore) -> (r:
    FlexGridColumns)
    requires
        columns_store_wf(store_contents(*sc)),
    ensures
        colinfo_matches(r@, store_contents(*sc), tenant_bytes(user_id@, vault_id@)),
{
    let ghost t = tenant_bytes(user_id@, vault_id@);
    let ghost m = store_contents(*sc);
    let mut compare_principals: Vec<u8> = Vec::new();
    push_all(&mut compare_principals, user_id);
    push_all(&mut compare_principals, vault_id);
    let entries = sc.entries();
    let mut columns: FlexGridColumns = Vec::new();
    let mut i: usize = 0;
    while i < entries.len()
        invariant
            i <= entries@.len(),
            compare_principals@ == t,
            forall|p: int, q: int|
                0 <= p < q < columns@.len() ==> (#[trigger] columns@[p]).0 != (
                #[trigger] columns@[q]).0,
            forall|x: u8, name: Seq<u8>, hidden: bool|
                #![trigger colinfo_has(columns@, x, name, hidden)]
                colinfo_has(columns@, x, name, hidden) <==> exists|q: int|
                    0 <= q < i && (#[trigger] entries@[q]).0@ == column_key_bytes(x, t)
                        && name == entries@[q].1@.skip(1) && hidden == (entries@[q].1@[0] != 0),
        decreases entries@.len() - i,
    {
        let entry_key = &entries[i].0;
        if suffix_matches(entry_key, 1, &compare_principals) {
            let x = entry_key[0];
            proof {
                assert(m.contains_pair(entries@[i as int].0@, entries@[i as int].1@));
                assert(entry_key@ =~= column_key_bytes(x, t));
            }
            let value = ColumnData::from_bytes(&entries[i].1);
            let ghost prev = columns@;
            columns.push((x, (value.name, value.hidden)));
            proof {
                let k = entries@[i as int].0@;
                let v = entries@[i as int].1@;
                assert(columns@[prev.len() as int] == (x, (columns@[prev.len() as int].1.0, (v[0]
                    != 0))));
                assert forall|x2: u8, name: Seq<u8>, hidden: bool|
                    #![trigger colinfo_has(columns@, x2, name, hidden)]
                    colinfo_has(columns@, x2, name, hidden) <==> exists|q: int|
                        0 <= q < i + 1 && (#[trigger] entries@[q]).0@ == column_key_bytes(x2, t)
                            && name == entries@[q].1@.skip(1) && hidden == (entries@[q].1@[0]
                            != 0) by {
                    if colinfo_has(columns@, x2, name, hidden) {
                        let p = choose|p: int|
                            0 <= p < columns@.len() && (#[trigger] columns@[p]).0 == x2
                                && columns@[p].1.0@ == name && columns@[p].1.1 == hidden;
                        if p < prev.len() {
                            assert(colinfo_has(prev, x2, name, hidden));
                        } else {
                            assert(entries@[i as int].0@ == column_key_bytes(x2, t));
                        }
                    }
                    if exists|q: int|
                        0 <= q < i + 1 && (#[trigger] entries@[q]).0@ == column_key_bytes(x2, t)
                            && name == entries@[q].1@.skip(1) && hidden == (entries@[q].1@[0]
                            != 0) {
                        let q = choose|q: int|
                            0 <= q < i + 1 && (#[trigger] entries@[q]).0@ == column_key_bytes(
                                x2,
                                t,
                            ) && name == entries@[q].1@.skip(1) && hidden == (entries@[q].1@[0]
                                != 0);
                        if q < i {
                            assert(colinfo_has(prev, x2, name, hidden));
                            let p = choose|p: int|
                                0 <= p < prev.len() && (#[trigger] prev[p]).0 == x2 && prev[p].1.0@
                                    == name && prev[p].1.1 == hidden;
                            assert(columns@[p].0 == x2 && columns@[p].1.0@ == name
                                && columns@[p].1.1 == hidden);
                        } else {
                            assert(column_key_bytes(x2, t)[0] == x2);
                            assert(columns@[prev.len() as int].0 == x2 && columns@[prev.len() as int].1.0@
                                == name && columns@[prev.len() as int].1.1 == hidden);
                        }
                    }
                }
                assert forall|p: int, q: int| 0 <= p < q < columns@.len() implies (
                #[trigger] columns@[p]).0 != (#[trigger] columns@[q]).0 by {
                    if q == prev.len() && columns@[p].0 == columns@[q].0 {
                        assert(colinfo_has(prev, columns@[p].0, columns@[p].1.0@, columns@[p].1.1));
                        let e = choose|e: int|
                            0 <= e < i && (#[trigger] entries@[e]).0@ == column_key_bytes(
                                columns@[p as int].0,
                                t,
                            ) && columns@[p as int].1.0@ == entries@[e].1@.skip(1)
                                && columns@[p as int].1.1 == (entries@[e].1@[0] != 0);
                        assert(entries@[e].0@ == entries@[i as int].0@);
                    }
                }
            }
        } else {
            proof {
                assert forall|x2: u8, name: Seq<u8>, hidden: bool|
                    #![trigger colinfo_has(columns@, x2, name, hidden)]
                    colinfo_has(columns@, x2, name, hidden) <==> exists|q: int|
                        0 <= q < i + 1 && (#[trigger] entries@[q]).0@ == column_key_bytes(x2, t)
                            && name == entries@[q].1@.skip(1) && hidden == (entries@[q].1@[0]
                            != 0) by {
                    if exists|q: int|
                        0 <= q < i + 1 && (#[trigger] entries@[q]).0@ == column_key_bytes(x2, t)
                            && name == entries@[q].1@.skip(1) && hidden == (entries@[q].1@[0]
                            != 0) {
                        let q = choose|q: int|
                            0 <= q < i + 1 && (#[trigger] entries@[q]).0@ == column_key_bytes(
                                x2,
                                t,
                            ) && name == entries@[q].1@.skip(1) && hidden == (entries@[q].1@[0]
                                != 0);
                        if q == i {
                            assert(column_key_bytes(x2, t).skip(1) =~= t);
                            assert(false);
                        }
                    }
                }
            }
        }
        i = i + 1;
    }
    proof {
        assert forall|x: u8, name: Seq<u8>, hidden: bool|
            #![trigger colinfo_has(columns@, x, name, hidden)]
            colinfo_has(columns@, x, name, hidden) <==> (m.contains_key(column_key_bytes(x, t))
                && name == m[column_key_bytes(x, t)].skip(1) && hidden == (m[column_key_bytes(
                x,
                t,
            )][0] != 0)) by {
            if colinfo_has(columns@, x, name, hidden) {
                let q = choose|q: int|
                    0 <= q < entries@.len() && (#[trigger] entries@[q]).0@ == column_key_bytes(
                        x,
                        t,
                    ) && name == entries@[q].1@.skip(1) && hidden == (entries@[q].1@[0] != 0);
                assert(m.contains_pair(entries@[q].0@, entries@[q].1@));
            }
            if m.contains_key(column_key_bytes(x, t)) && name == m[column_key_bytes(x, t)].skip(1)
                && hidden == (m[column_key_bytes(x, t)][0] != 0) {
                let k = column_key_bytes(x, t);
                let q = choose|q: int| 0 <= q < entries@.len() && entries@[q].0@ == k;
                assert(m.contains_pair(entries@[q].0@, entries@[q].1@));
            }
        }
    }
    columns
}

// ---------------------------------------------------------------------------
// Secure notes
// ---------------------------------------------------------------------------
/// One note of the notes view.
#[derive(Debug)]
pub struct Note {
    pub label: Vec<u8>,
    pub note: Vec<u8>,
}

/// All secure notes of one tenant, by note index.
#[derive(Debug)]
pub struct Notes {
    pub notes: Vec<(u8, Note)>,
}

/// Does the notes list hold `x -> (label, note)`?
pub open spec fn notes_has(s: Seq<(u8, Note)>, x: u8, label: Seq<u8>, note: Seq<u8>) -> bool {
    exists|i: int|
        0 <= i < s.len() && (#[trigger] s[i]).0 == x && s[i].1.label@ == label && s[i].1.note@
            == note
}

/// The view holds exactly the tenant's note records, decoded: the label's
/// length from the value's first byte, then label, then note text.
pub open spec fn notes_matches(r: Seq<(u8, Note)>, m: Map<Seq<u8>, Seq<u8>>, t: Seq<u8>) -> bool {
    &&& forall|p: int, q: int| 0 <= p < q < r.len() ==> (#[trigger] r[p]).0 != (#[trigger] r[q]).0
    &&& forall|x: u8, label: Seq<u8>, note: Seq<u8>|
        #![trigger notes_has(r, x, label, note)]
        notes_has(r, x, label, note) <==> (m.contains_key(note_key_bytes(x, t)) && label
            == m[note_key_bytes(x, t)].subrange(1, 1 + m[note_key_bytes(x, t)][0]) && note
            == m[note_key_bytes(x, t)].skip(1 + m[note_key_bytes(x, t)][0]))
}

/// Scans the note store for the tenant and folds it into
/// `index -> (label, note)`.
pub fn _get_notes(user_id: &Vec<u8>, vault_id: &Vec<u8>, nm: &ByteStore) -> (r: Notes)
    requires
        notes_store_wf(store_contents(*nm)),
    ensures
        notes_matches(r.notes@, store_contents(*nm), tenant_bytes(user_id@, vault_id@)),
{
    let ghost t = tenant_bytes(user_id@, vault_id@);
    let ghost m = store_contents(*nm);
    let mut compare_principals: Vec<u8> = Vec::new();
    push_all(&mut compare_principals, user_id);
    push_all(&mut compare_principals, vault_id);
    let entries = nm.entries();
    let mut notes: Vec<(u8, Note)> = Vec::new();
    let mut i: usize = 0;
    while i < entries.len()
        invariant
            i <= entries@.len(),
            compare_principals@ == t,
            forall|p: int, q: int|
                0 <= p < q < notes@.len() ==> (#[trigger] notes@[p]).0 != (#[trigger] notes@[q]).0,
            forall|x: u8, label: Seq<u8>, note: Seq<u8>|
                #![trigger notes_has(notes@, x, label, note)]
                notes_has(notes@, x, label, note) <==> exists|q: int|
                    0 <= q < i && (#[trigger] entries@[q]).0@ == note_key_bytes(x, t) && label
                        == entries@[q].1@.subrange(1, 1 + entries@[q].1@[0]) && note
                        == entries@[q].1@.skip(1 + entries@[q].1@[0]),
        decreases entries@.len() - i,
    {
        let entry_key = &entries[i].0;
        if suffix_matches(entry_key, 1, &compare_principals) {
            let x = entry_key[0];
            proof {
                assert(m.contains_pair(entries@[i as int].0@, entries@[i as int].1@));
                assert(entry_key@ =~= note_key_bytes(x, t));
            }
            let value = SecureNote::from_bytes(&entries[i].1);
            let ghost prev = notes@;
            notes.push((x, Note { label: value.label, note: value.note }));
            proof {
                assert forall|x2: u8, label: Seq<u8>, note: Seq<u8>|
                    #![trigger notes_has(notes@, x2, label, note)]
                    notes_has(notes@, x2, label, note) <==> exists|q: int|
                        0 <= q < i + 1 && (#[trigger] entries@[q]).0@ == note_key_bytes(x2, t)
                            && label == entries@[q].1@.subrange(1, 1 + entries@[q].1@[0]) && note
                            == entries@[q].1@.skip(1 + entries@[q].1@[0]) by {
                    if notes_has(notes@, x2, label, note) {
                        let p = choose|p: int|
                            0 <= p < notes@.len() && (#[trigger] notes@[p]).0 == x2
                                && notes@[p].1.label@ == label && notes@[p].1.note@ == note;
                        if p < prev.len() {
                            assert(notes_has(prev, x2, label, note));
                        } else {
                            assert(entries@[i as int].0@ == note_key_bytes(x2, t));
                        }
                    }
                    if exists|q: int|
                        0 <= q < i + 1 && (#[trigger] entries@[q]).0@ == note_key_bytes(x2, t)
                            && label == entries@[q].1@.subrange(1, 1 + entries@[q].1@[0]) && note
                            == entries@[q].1@.skip(1 + entries@[q].1@[0]) {
                        let q = choose|q: int|
                            0 <= q < i + 1 && (#[trigger] entries@[q]).0@ == note_key_bytes(x2, t)
                                && label == entries@[q].1@.subrange(1, 1 + entries@[q].1@[0])
                                && note == entries@[q].1@.skip(1 + entries@[q].1@[0]);
                        if q < i {
                            assert(notes_has(prev, x2, label, note));
                            let p = choose|p: int|
                                0 <= p < prev.len() && (#[trigger] prev[p]).0 == x2
                                    && prev[p].1.label@ == label && prev[p].1.note@ == note;
                            assert(notes@[p].0 == x2 && notes@[p].1.label@ == label
                                && notes@[p].1.note@ == note);
                        } else {
                            assert(note_key_bytes(x2, t)[0] == x2);
                            assert(notes@[prev.len() as int].0 == x2 && notes@[prev.len() as int].1.label@
                                == label && notes@[prev.len() as int].1.note@ == note);
                        }
                    }
                }
                assert forall|p: int, q: int| 0 <= p < q < notes@.len() implies (
                #[trigger] notes@[p]).0 != (#[trigger] notes@[q]).0 by {
                    if q == prev.len() && notes@[p].0 == notes@[q].0 {
                        assert(notes_has(prev, notes@[p].0, notes@[p].1.label@, notes@[p].1.note@));
                        let e = choose|e: int|
                            0 <= e < i && (#[trigger] entries@[e]).0@ == note_key_bytes(
                                notes@[p as int].0,
                                t,
                            ) && notes@[p as int].1.label@ == entries@[e].1@.subrange(
                                1,
                                1 + entries@[e].1@[0],
                            ) && notes@[p as int].1.note@ == entries@[e].1@.skip(
                                1 + entries@[e].1@[0],
                            );
                        assert(entries@[e].0@ == entries@[i as int].0@);
                    }
                }
            }
        } else {
            proof {
                assert forall|x2: u8, label: Seq<u8>, note: Seq<u8>|
                    #![trigger notes_has(notes@, x2, label, note)]
                    notes_has(notes@, x2, label, note) <==> exists|q: int|
                        0 <= q < i + 1 && (#[trigger] entries@[q]).0@ == note_key_bytes(x2, t)
                            && label == entries@[q].1@.subrange(1, 1 + entries@[q].1@[0]) && note
                            == entries@[q].1@.skip(1 + entries@[q].1@[0]) by {
                    if exists|q: int|
                        0 <= q < i + 1 && (#[trigger] entries@[q]).0@ == note_key_bytes(x2, t)
                            && label == entries@[q].1@.subrange(1, 1 + entries@[q].1@[0]) && note
                            == entries@[q].1@.skip(1 + entries@[q].1@[0]) {
                        let q = choose|q: int|
                            0 <= q < i + 1 && (#[trigger] entries@[q]).0@ == note_key_bytes(x2, t)
                                && label == entries@[q].1@.subrange(1, 1 + entries@[q].1@[0])
                                && note == entries@[q].1@.skip(1 + entries@[q].1@[0]);
                        if q == i {
                            assert(note_key_bytes(x2, t).skip(1) =~= t);
                            assert(false);
                        }
                    }
                }
            }
        }
        i = i + 1;
    }
    proof {
        assert forall|x: u8, label: Seq<u8>, note: Seq<u8>|
            #![trigger notes_has(notes@, x, label, note)]
            notes_has(notes@, x, label, note) <==> (m.contains_key(note_key_bytes(x, t)) && label
                == m[note_key_bytes(x, t)].subrange(1, 1 + m[note_key_bytes(x, t)][0]) && note
                == m[note_key_bytes(x, t)].skip(1 + m[note_key_bytes(x, t)][0])) by {
            if notes_has(notes@, x, label, note) {
                let q = choose|q: int|
                    0 <= q < entries@.len() && (#[trigger] entries@[q]).0@ == note_key_bytes(x, t)
                        && label == entries@[q].1@.subrange(1, 1 + entries@[q].1@[0]) && note
                        == entries@[q].1@.skip(1 + entries@[q].1@[0]);
                assert(m.contains_pair(entries@[q].0@, entries@[q].1@));
            }
            if m.contains_key(note_key_bytes(x, t)) && label == m[note_key_bytes(x, t)].subrange(
                1,
                1 + m[note_key_bytes(x, t)][0],
            ) && note == m[note_key_bytes(x, t)].skip(1 + m[note_key_bytes(x, t)][0]) {
                let k = note_key_bytes(x, t);
                let q = choose|q: int| 0 <= q < entries@.len() && entries@[q].0@ == k;
                assert(m.contains_pair(entries@[q].0@, entries@[q].1@));
            }
        }
    }
    Notes { notes }
}

// ---------------------------------------------------------------------------
// Spreadsheet view
// ---------------------------------------------------------------------------
/// One spreadsheet column of the view: row index to cell payload.
#[derive(Debug)]
pub struct SpreadsheetColumn {
    pub rows: Vec<(u8, Vec<u8>)>,
}

/// One tenant's spreadsheet: column index to column.
#[derive(Debug)]
pub struct Spreadsheet {
    pub columns: Vec<(u8, SpreadsheetColumn)>,
}

/// Row indices within one column are pairwise distinct.
pub open spec fn rows_wf(rows: Seq<(u8, Vec<u8>)>) -> bool {
    forall|p: int, q: int| 0 <= p < q < rows.len() ==> (#[trigger] rows[p]).0 != (#[trigger] rows[q]).0
}

/// Column indices are pairwise distinct, every column's rows are, and no
/// column is empty (a column exists only because one of its cells does).
pub open spec fn sheet_wf(s: Spreadsheet) -> bool {
    &&& forall|p: int, q: int|
        0 <= p < q < s.columns@.len() ==> (#[trigger] s.columns@[p]).0 != (#[trigger] s.columns@[q]).0
    &&& forall|i: int|
        0 <= i < s.columns@.len() ==> rows_wf((#[trigger] s.columns@[i]).1.rows@)
            && s.columns@[i].1.rows@.len() > 0
}

/// Does the view hold payload `v` at cell (x, y)?
pub open spec fn sheet_has(s: Spreadsheet, x: u8, y: u8, v: Seq<u8>) -> bool {
    exists|i: int, j: int|
        #![trigger s.columns@[i].1.rows@[j]]
        0 <= i < s.columns@.len() && s.columns@[i].0 == x && 0 <= j < s.columns@[i].1.rows@.len()
            && s.columns@[i].1.rows@[j].0 == y && s.columns@[i].1.rows@[j].1@ == v
}

/// The view holds exactly the tenant's cell records, grouped x, then y.
pub open spec fn sheet_matches(s: Spreadsheet, m: Map<Seq<u8>, Seq<u8>>, t: Seq<u8>) -> bool {
    &&& sheet_wf(s)
    &&& forall|x: u8, y: u8, v: Seq<u8>|
        #![trigger sheet_has(s, x, y, v)]
        sheet_has(s, x, y, v) <==> m.contains_pair(cell_key_bytes(x, y, t), v)
}

/// Finds the position of column `x` in the view, if it is already there.
fn find_sheet_column(columns: &Vec<(u8, SpreadsheetColumn)>, x: u8) -> (r: Option<usize>)
    ensures
        match r {
            Some(ci) => ci < columns@.len() && columns@[ci as int].0 == x,
            None => forall|i: int| 0 <= i < columns@.len() ==> (#[trigger] columns@[i]).0 != x,
        },
{
    let mut i: usize = 0;
    while i < columns.len()
        invariant
            i <= columns@.len(),
            forall|p: int| 0 <= p < i ==> (#[trigger] columns@[p]).0 != x,
        decreases columns@.len() - i,
    {
        if columns[i].0 == x {
            return Some(i);
        }
        i = i + 1;
    }
    None
}

/// Adds one cell to the view; (x, y) must not be present yet.
fn sheet_add_cell(sheet: &mut Spreadsheet, x: u8, y: u8, v: Vec<u8>)
    requires
        sheet_wf(*old(sheet)),
        forall|v2: Seq<u8>| !sheet_has(*old(sheet), x, y, v2),
    ensures
        sheet_wf(*final(sheet)),
        forall|x2: u8, y2: u8, v2: Seq<u8>|
            #![trigger sheet_has(*final(sheet), x2, y2, v2)]
            sheet_has(*final(sheet), x2, y2, v2) <==> (sheet_has(*old(sheet), x2, y2, v2) || (x2
                == x && y2 == y && v2 == v@)),
{
    let ghost oldcols = old(sheet).columns@;
    let ghost vv = v@;
    let found = find_sheet_column(&sheet.columns, x);
    match found {
        Some(ci) => {
            let ghost oldrows = oldcols[ci as int].1.rows@;
            let mut col = sheet.columns.remove(ci);
            col.1.rows.push((y, v));
            sheet.columns.insert(ci, col);
            proof {
                let newcols = sheet.columns@;
                let newcol = newcols[ci as int];
                assert(newcols =~= oldcols.update(ci as int, newcol));
                assert(newcol.0 == x);
                assert(newcol.1.rows@ == oldrows.push((y, newcol.1.rows@[oldrows.len() as int].1)));
                assert(newcol.1.rows@[oldrows.len() as int].0 == y);
                assert(newcol.1.rows@[oldrows.len() as int].1@ == vv);
                // the new row index is fresh in this column
                assert forall|j: int| 0 <= j < oldrows.len() implies (#[trigger] oldrows[j]).0
                    != y by {
                    if oldrows[j].0 == y {
                        assert(sheet_has(*old(sheet), x, y, oldcols[ci as int].1.rows@[j].1@));
                    }
                }
                assert(rows_wf(newcol.1.rows@));
                assert(sheet_wf(*sheet));
                assert forall|x2: u8, y2: u8, v2: Seq<u8>|
                    #![trigger sheet_has(*sheet, x2, y2, v2)]
                    sheet_has(*sheet, x2, y2, v2) <==> (sheet_has(*old(sheet), x2, y2, v2) || (x2
                        == x && y2 == y && v2 == vv)) by {
                    if sheet_has(*sheet, x2, y2, v2) {
                        let (i, j) = choose|i: int, j: int|
                            #![trigger newcols[i].1.rows@[j]]
                            0 <= i < newcols.len() && newcols[i].0 == x2 && 0 <= j
                                < newcols[i].1.rows@.len() && newcols[i].1.rows@[j].0 == y2
                                && newcols[i].1.rows@[j].1@ == v2;
                        if i != ci {
                            assert(oldcols[i] == newcols[i]);
                            assert(sheet_has(*old(sheet), x2, y2, v2));
                        } else if j < oldrows.len() {
                            assert(oldcols[ci as int].1.rows@[j] == newcols[i].1.rows@[j]);
                            assert(sheet_has(*old(sheet), x2, y2, v2));
                        } else {
                            assert(x2 == x && y2 == y && v2 == vv);
                        }
                    }
                    if sheet_has(*old(sheet), x2, y2, v2) {
                        let (i, j) = choose|i: int, j: int|
                            #![trigger oldcols[i].1.rows@[j]]
                            0 <= i < oldcols.len() && oldcols[i].0 == x2 && 0 <= j
                                < oldcols[i].1.rows@.len() && oldcols[i].1.rows@[j].0 == y2
                                && oldcols[i].1.rows@[j].1@ == v2;
                        if i != ci {
                            assert(newcols[i].1.rows@[j].0 == y2 && newcols[i].1.rows@[j].1@ == v2);
                        } else {
                            assert(newcols[ci as int].1.rows@[j].0 == y2
                                && newcols[ci as int].1.rows@[j].1@ == v2);
                        }
                        assert(sheet_has(*sheet, x2, y2, v2));
                    }
                    if x2 == x && y2 == y && v2 == vv {
                        assert(newcols[ci as int].1.rows@[oldrows.len() as int].0 == y);
                        assert(sheet_has(*sheet, x2, y2, v2));
                    }
                }
            }
        },
        None => {
            let mut rows: Vec<(u8, Vec<u8>)> = Vec::new();
            rows.push((y, v));
            sheet.columns.push((x, SpreadsheetColumn { rows }));
            proof {
                let newcols = sheet.columns@;
                assert(newcols == oldcols.push(newcols[oldcols.len() as int]));
                assert(newcols[oldcols.len() as int].0 == x);
                assert(newcols[oldcols.len() as int].1.rows@.len() == 1);
                assert(newcols[oldcols.len() as int].1.rows@[0].0 == y);
                assert(newcols[oldcols.len() as int].1.rows@[0].1@ == vv);
                assert(sheet_wf(*sheet));
                assert forall|x2: u8, y2: u8, v2: Seq<u8>|
                    #![trigger sheet_has(*sheet, x2, y2, v2)]
                    sheet_has(*sheet, x2, y2, v2) <==> (sheet_has(*old(sheet), x2, y2, v2) || (x2
                        == x && y2 == y && v2 == vv)) by {
                    if sheet_has(*sheet, x2, y2, v2) {
                        let (i, j) = choose|i: int, j: int|
                            #![trigger newcols[i].1.rows@[j]]
                            0 <= i < newcols.len() && newcols[i].0 == x2 && 0 <= j
                                < newcols[i].1.rows@.len() && newcols[i].1.rows@[j].0 == y2
                                && newcols[i].1.rows@[j].1@ == v2;
                        if i < oldcols.len() {
                            assert(oldcols[i] == newcols[i]);
                            assert(sheet_has(*old(sheet), x2, y2, v2));
                        } else {
                            assert(x2 == x && y2 == y && v2 == vv);
                        }
                    }
                    if sheet_has(*old(sheet), x2, y2, v2) {
                        let (i, j) = choose|i: int, j: int|
                            #![trigger oldcols[i].1.rows@[j]]
                            0 <= i < oldcols.len() && oldcols[i].0 == x2 && 0 <= j
                                < oldcols[i].1.rows@.len() && oldcols[i].1.rows@[j].0 == y2
                                && oldcols[i].1.rows@[j].1@ == v2;
                        assert(newcols[i].1.rows@[j].0 == y2 && newcols[i].1.rows@[j].1@ == v2);
                        assert(sheet_has(*sheet, x2, y2, v2));
                    }
                    if x2 == x && y2 == y && v2 == vv {
                        assert(newcols[oldcols.len() as int].1.rows@[0].0 == y);
                        assert(sheet_has(*sheet, x2, y2, v2));
                    }
                }
            }
        },
    }
}

/// Scans the cell store for the tenant and folds it into
/// `column(x) -> row(y) -> payload`.
pub fn _get_spreadsheet(user_id: &Vec<u8>, vault_id: &Vec<u8>, sm: &ByteStore) -> (r: Spreadsheet)
    ensures
        sheet_matches(r, store_contents(*sm), tenant_bytes(user_id@, vault_id@)),
{
    let ghost t = tenant_bytes(user_id@, vault_id@);
    let ghost m = store_contents(*sm);
    let mut compare_principals: Vec<u8> = Vec::new();
    push_all(&mut compare_principals, user_id);
    push_all(&mut compare_principals, vault_id);
    let entries = sm.entries();
    let mut sheet = Spreadsheet { columns: Vec::new() };
    let mut i: usize = 0;
    while i < entries.len()
        invariant
            i <= entries@.len(),
            compare_principals@ == t,
            sheet_wf(sheet),
            forall|x: u8, y: u8, v: Seq<u8>|
                #![trigger sheet_has(sheet, x, y, v)]
                sheet_has(sheet, x, y, v) <==> exists|q: int|
                    0 <= q < i && (#[trigger] entries@[q]).0@ == cell_key_bytes(x, y, t)
                        && entries@[q].1@ == v,
        decreases entries@.len() - i,
    {
        let entry_key = &entries[i].0;
        if suffix_matches(entry_key, 2, &compare_principals) {
            let x = entry_key[0];
            let y = entry_key[1];
            proof {
                assert(entry_key@ =~= cell_key_bytes(x, y, t));
                assert forall|v2: Seq<u8>| !sheet_has(sheet, x, y, v2) by {
                    if sheet_has(sheet, x, y, v2) {
                        let q = choose|q: int|
                            0 <= q < i && (#[trigger] entries@[q]).0@ == cell_key_bytes(x, y, t)
                                && entries@[q].1@ == v2;
                        assert(entries@[q].0@ == entries@[i as int].0@);
                    }
                }
            }
            let ghost prev = sheet;
            let value = bytes_range(&entries[i].1, 0, entries[i].1.len());
            sheet_add_cell(&mut sheet, x, y, value);
            proof {
                assert(entries@[i as int].1@.subrange(0, entries@[i as int].1@.len() as int)
                    =~= entries@[i as int].1@);
                assert forall|x2: u8, y2: u8, v2: Seq<u8>|
                    #![trigger sheet_has(sheet, x2, y2, v2)]
                    sheet_has(sheet, x2, y2, v2) <==> exists|q: int|
                        0 <= q < i + 1 && (#[trigger] entries@[q]).0@ == cell_key_bytes(x2, y2, t)
                            && entries@[q].1@ == v2 by {
                    if sheet_has(sheet, x2, y2, v2) {
                        if sheet_has(prev, x2, y2, v2) {
                            let q = choose|q: int|
                                0 <= q < i && (#[trigger] entries@[q]).0@ == cell_key_bytes(
                                    x2,
                                    y2,
                                    t,
                                ) && entries@[q].1@ == v2;
                            assert(0 <= q < i + 1 && entries@[q].0@ == cell_key_bytes(x2, y2, t)
                                && entries@[q].1@ == v2);
                        } else {
                            assert(x2 == x && y2 == y && v2 == entries@[i as int].1@);
                            assert(entries@[i as int].0@ == cell_key_bytes(x2, y2, t));
                        }
                    }
                    if exists|q: int|
                        0 <= q < i + 1 && (#[trigger] entries@[q]).0@ == cell_key_bytes(x2, y2, t)
                            && entries@[q].1@ == v2 {
                        let q = choose|q: int|
                            0 <= q < i + 1 && (#[trigger] entries@[q]).0@ == cell_key_bytes(
                                x2,
                                y2,
                                t,
                            ) && entries@[q].1@ == v2;
                        if q < i {
                            assert(sheet_has(prev, x2, y2, v2));
                        } else {
                            assert(cell_key_bytes(x2, y2, t)[0] == x2);
                            assert(cell_key_bytes(x2, y2, t)[1] == y2);
                        }
                    }
                }
            }
        } else {
            proof {
                assert forall|x2: u8, y2: u8, v2: Seq<u8>|
                    #![trigger sheet_has(sheet, x2, y2, v2)]
                    sheet_has(sheet, x2, y2, v2) <==> exists|q: int|
                        0 <= q < i + 1 && (#[trigger] entries@[q]).0@ == cell_key_bytes(x2, y2, t)
                            && entries@[q].1@ == v2 by {
                    if exists|q: int|
                        0 <= q < i + 1 && (#[trigger] entries@[q]).0@ == cell_key_bytes(x2, y2, t)
                            && entries@[q].1@ == v2 {
                        let q = choose|q: int|
                            0 <= q < i + 1 && (#[trigger] entries@[q]).0@ == cell_key_bytes(
                                x2,
                                y2,
                                t,
                            ) && entries@[q].1@ == v2;
                        if q == i {
                            assert(cell_key_bytes(x2, y2, t).skip(2) =~= t);
                            assert(false);
                        }
                    }
                }
            }
        }
        i = i + 1;
    }
    proof {
        assert forall|x: u8, y: u8, v: Seq<u8>|
            #![trigger sheet_has(sheet, x, y, v)]
            sheet_has(sheet, x, y, v) <==> m.contains_pair(cell_key_bytes(x, y, t), v) by {
            if sheet_has(sheet, x, y, v) {
                let q = choose|q: int|
                    0 <= q < entries@.len() && (#[trigger] entries@[q]).0@ == cell_key_bytes(
                        x,
                        y,
                        t,
                    ) && entries@[q].1@ == v;
                assert(m.contains_pair(entries@[q].0@, entries@[q].1@));
            }
            if m.contains_pair(cell_key_bytes(x, y, t), v) {
                let k = cell_key_bytes(x, y, t);
                let q = choose|q: int| 0 <= q < entries@.len() && entries@[q].0@ == k;
                assert(m.contains_pair(entries@[q].0@, entries@[q].1@));
            }
        }
    }
    sheet
}

// ---------------------------------------------------------------------------
// Logins view
// ---------------------------------------------------------------------------
/// One login column of the view: its site label, and row index to cell
/// payload. A column may have a label and no cells yet.
#[derive(Debug)]
pub struct LoginColumn {
    pub label: Vec<u8>,
    pub rows: Vec<(u8, Vec<u8>)>,
}

/// One tenant's logins: column index to labelled column.
#[derive(Debug)]
pub struct Logins {
    pub columns: Vec<(u8, LoginColumn)>,
}

/// Column indices are pairwise distinct and every column's rows are.
pub open spec fn logins_wf(l: Logins) -> bool {
    &&& forall|p: int, q: int|
        0 <= p < q < l.columns@.len() ==> (#[trigger] l.columns@[p]).0 != (
        #[trigger] l.columns@[q]).0
    &&& forall|i: int|
        0 <= i < l.columns@.len() ==> rows_wf2((#[trigger] l.columns@[i]).1.rows@)
}

/// Row indices within one login column are pairwise distinct.
pub open spec fn rows_wf2(rows: Seq<(u8, Vec<u8>)>) -> bool {
    forall|p: int, q: int| 0 <= p < q < rows.len() ==> (#[trigger] rows[p]).0 != (#[trigger] rows[q]).0
}

/// Does the view hold a column at `x` labelled `label`?
pub open spec fn login_col_has(l: Logins, x: u8, label: Seq<u8>) -> bool {
    exists|i: int|
        0 <= i < l.columns@.len() && (#[trigger] l.columns@[i]).0 == x && l.columns@[i].1.label@
            == label
}

/// Does the view hold payload `v` at login cell (x, y)?
pub open spec fn login_cell_has(l: Logins, x: u8, y: u8, v: Seq<u8>) -> bool {
    exists|i: int, j: int|
        #![trigger l.columns@[i].1.rows@[j]]
        0 <= i < l.columns@.len() && l.columns@[i].0 == x && 0 <= j
            < l.columns@[i].1.rows@.len() && l.columns@[i].1.rows@[j].0 == y
            && l.columns@[i].1.rows@[j].1@ == v
}

/// The view holds exactly the tenant's login-column labels and login cells.
pub open spec fn logins_matches(
    l: Logins,
    lc: Map<Seq<u8>, Seq<u8>>,
    lm: Map<Seq<u8>, Seq<u8>>,
    t: Seq<u8>,
) -> bool {
    &&& logins_wf(l)
    &&& forall|x: u8, label: Seq<u8>|
        #![trigger login_col_has(l, x, label)]
        login_col_has(l, x, label) <==> lc.contains_pair(column_key_bytes(x, t), label)
    &&& forall|x: u8, y: u8, v: Seq<u8>|
        #![trigger login_cell_has(l, x, y, v)]
        login_cell_has(l, x, y, v) <==> lm.contains_pair(cell_key_bytes(x, y, t), v)
}

/// Referential integrity of one tenant's logins: every login cell's column
/// has metadata.
pub open spec fn orphan_free(lc: Map<Seq<u8>, Seq<u8>>, lm: Map<Seq<u8>, Seq<u8>>, t: Seq<u8>) -> bool {
    forall|k: Seq<u8>|
        #[trigger] lm.contains_key(k) && k.len() >= 2 && k.skip(2) == t ==> lc.contains_key(
            column_key_bytes(k[0], t),
        )
}

/// Finds the position of login column `x` in the view, if it is there.
fn find_login_column(columns: &Vec<(u8, LoginColumn)>, x: u8) -> (r: Option<usize>)
    ensures
        match r {
            Some(ci) => ci < columns@.len() && columns@[ci as int].0 == x,
            None => forall|i: int| 0 <= i < columns@.len() ==> (#[trigger] columns@[i]).0 != x,
        },
{
    let mut i: usize = 0;
    while i < columns.len()
        invariant
            i <= columns@.len(),
            forall|p: int| 0 <= p < i ==> (#[trigger] columns@[p]).0 != x,
        decreases columns@.len() - i,
    {
        if columns[i].0 == x {
            return Some(i);
        }
        i = i + 1;
    }
    None
}

/// Adds one cell to the column at position `ci`; its row index must not be
/// present in that column yet. Labels and column indices are untouched.
fn login_add_cell(logins: &mut Logins, ci: usize, y: u8, v: Vec<u8>)
    requires
        logins_wf(*old(logins)),
        ci < old(logins).columns@.len(),
        forall|v2: Seq<u8>| !login_cell_has(*old(logins), old(logins).columns@[ci as int].0, y, v2),
    ensures
        logins_wf(*final(logins)),
        final(logins).columns@.len() == old(logins).columns@.len(),
        forall|i: int|
            0 <= i < old(logins).columns@.len() ==> (#[trigger] final(logins).columns@[i]).0 == old(
                logins,
            ).columns@[i].0 && final(logins).columns@[i].1.label@
                == old(logins).columns@[i].1.label@,
        forall|x2: u8, y2: u8, v2: Seq<u8>|
            #![trigger login_cell_has(*final(logins), x2, y2, v2)]
            login_cell_has(*final(logins), x2, y2, v2) <==> (login_cell_has(
                *old(logins),
                x2,
                y2,
                v2,
            ) || (x2 == old(logins).columns@[ci as int].0 && y2 == y && v2 == v@)),
{
    let ghost oldcols = old(logins).columns@;
    let ghost x = oldcols[ci as int].0;
    let ghost oldrows = oldcols[ci as int].1.rows@;
    let ghost vv = v@;
    let mut col = logins.columns.remove(ci);
    col.1.rows.push((y, v));
    logins.columns.insert(ci, col);
    proof {
        let newcols = logins.columns@;
        let newcol = newcols[ci as int];
        assert(newcols =~= oldcols.update(ci as int, newcol));
        assert(newcol.0 == x && newcol.1.label@ == oldcols[ci as int].1.label@);
        assert(newcol.1.rows@[oldrows.len() as int].0 == y);
        assert(newcol.1.rows@[oldrows.len() as int].1@ == vv);
        assert forall|j: int| 0 <= j < oldrows.len() implies (#[trigger] oldrows[j]).0 != y by {
            if oldrows[j].0 == y {
                assert(login_cell_has(*old(logins), x, y, oldcols[ci as int].1.rows@[j].1@));
            }
        }
        assert(rows_wf2(newcol.1.rows@));
        assert(logins_wf(*logins));
        assert forall|x2: u8, y2: u8, v2: Seq<u8>|
            #![trigger login_cell_has(*logins, x2, y2, v2)]
            login_cell_has(*logins, x2, y2, v2) <==> (login_cell_has(*old(logins), x2, y2, v2) || (
            x2 == x && y2 == y && v2 == vv)) by {
            if login_cell_has(*logins, x2, y2, v2) {
                let (i, j) = choose|i: int, j: int|
                    #![trigger newcols[i].1.rows@[j]]
                    0 <= i < newcols.len() && newcols[i].0 == x2 && 0 <= j
                        < newcols[i].1.rows@.len() && newcols[i].1.rows@[j].0 == y2
                        && newcols[i].1.rows@[j].1@ == v2;
                if i != ci {
                    assert(oldcols[i] == newcols[i]);
                    assert(login_cell_has(*old(logins), x2, y2, v2));
                } else if j < oldrows.len() {
                    assert(oldcols[ci as int].1.rows@[j] == newcols[i].1.rows@[j]);
                    assert(login_cell_has(*old(logins), x2, y2, v2));
                } else {
                    assert(x2 == x && y2 == y && v2 == vv);
                }
            }
            if login_cell_has(*old(logins), x2, y2, v2) {
                let (i, j) = choose|i: int, j: int|
                    #![trigger oldcols[i].1.rows@[j]]
                    0 <= i < oldcols.len() && oldcols[i].0 == x2 && 0 <= j
                        < oldcols[i].1.rows@.len() && oldcols[i].1.rows@[j].0 == y2
                        && oldcols[i].1.rows@[j].1@ == v2;
                if i != ci {
                    assert(newcols[i].1.rows@[j].0 == y2 && newcols[i].1.rows@[j].1@ == v2);
                } else {
                    assert(newcols[ci as int].1.rows@[j].0 == y2 && newcols[ci as int].1.rows@[j].1@
                        == v2);
                }
                assert(login_cell_has(*logins, x2, y2, v2));
            }
            if x2 == x && y2 == y && v2 == vv {
                assert(newcols[ci as int].1.rows@[oldrows.len() as int].0 == y);
                assert(login_cell_has(*logins, x2, y2, v2));
            }
        }
    }
}

/// Scans login-column metadata to build the tenant's labelled columns, then
/// scans login cells into them, merging by column index. A login cell whose
/// column has no metadata is a fatal integrity violation: the whole read
/// aborts.
pub fn _get_logins(user_id: &Vec<u8>, vault_id: &Vec<u8>, lm: &ByteStore, lc: &ByteStore) -> (r:
    Result<Logins, VaultError>)
    ensures
        r is Ok <==> orphan_free(
            store_contents(*lc),
            store_contents(*lm),
            tenant_bytes(user_id@, vault_id@),
        ),
        r matches Ok(l) ==> logins_matches(
            l,
            store_contents(*lc),
            store_contents(*lm),
            tenant_bytes(user_id@, vault_id@),
        ),
        r matches Err(e) ==> e == VaultError::IntegrityViolation,
{
    let ghost t = tenant_bytes(user_id@, vault_id@);
    let ghost lcm = store_contents(*lc);
    let ghost lmm = store_contents(*lm);
    let mut compare_principals: Vec<u8> = Vec::new();
    push_all(&mut compare_principals, user_id);
    push_all(&mut compare_principals, vault_id);
    let mut logins = Logins { columns: Vec::new() };

    let col_entries = lc.entries();
    let mut j: usize = 0;
    while j < col_entries.len()
        invariant
            j <= col_entries@.len(),
            compare_principals@ == t,
            logins_wf(logins),
            forall|i: int|
                0 <= i < logins.columns@.len() ==> (#[trigger] logins.columns@[i]).1.rows@.len()
                    == 0,
            forall|x: u8, label: Seq<u8>|
                #![trigger login_col_has(logins, x, label)]
                login_col_has(logins, x, label) <==> exists|q: int|
                    0 <= q < j && (#[trigger] col_entries@[q]).0@ == column_key_bytes(x, t)
                        && col_entries@[q].1@ == label,
        decreases col_entries@.len() - j,
    {
        let entry_key = &col_entries[j].0;
        if suffix_matches(entry_key, 1, &compare_principals) {
            let x = entry_key[0];
            proof {
                assert(entry_key@ =~= column_key_bytes(x, t));
            }
            let label = bytes_range(&col_entries[j].1, 0, col_entries[j].1.len());
            let ghost prev_logins = logins;
            let ghost prev = logins.columns@;
            logins.columns.push((x, LoginColumn { label, rows: Vec::new() }));
            proof {
                assert(col_entries@[j as int].1@.subrange(
                    0,
                    col_entries@[j as int].1@.len() as int,
                ) =~= col_entries@[j as int].1@);
                assert(logins.columns@[prev.len() as int].0 == x);
                assert(logins.columns@[prev.len() as int].1.label@ == col_entries@[j as int].1@);
                assert forall|x2: u8, label2: Seq<u8>|
                    #![trigger login_col_has(logins, x2, label2)]
                    login_col_has(logins, x2, label2) <==> exists|q: int|
                        0 <= q < j + 1 && (#[trigger] col_entries@[q]).0@ == column_key_bytes(
                            x2,
                            t,
                        ) && col_entries@[q].1@ == label2 by {
                    if login_col_has(logins, x2, label2) {
                        let p = choose|p: int|
                            0 <= p < logins.columns@.len() && (#[trigger] logins.columns@[p]).0
                                == x2 && logins.columns@[p].1.label@ == label2;
                        if p < prev.len() {
                            assert(prev_logins.columns@[p].0 == x2
                                && prev_logins.columns@[p].1.label@ == label2);
                            assert(login_col_has(prev_logins, x2, label2));
                            let q = choose|q: int|
                                0 <= q < j && (#[trigger] col_entries@[q]).0@ == column_key_bytes(
                                    x2,
                                    t,
                                ) && col_entries@[q].1@ == label2;
                            assert(0 <= q < j + 1 && col_entries@[q].0@ == column_key_bytes(x2, t)
                                && col_entries@[q].1@ == label2);
                        } else {
                            assert(x2 == x && label2 == col_entries@[j as int].1@);
                            assert(col_entries@[j as int].0@ == column_key_bytes(x2, t));
                        }
                    }
                    if exists|q: int|
                        0 <= q < j + 1 && (#[trigger] col_entries@[q]).0@ == column_key_bytes(
                            x2,
                            t,
                        ) && col_entries@[q].1@ == label2 {
                        let q = choose|q: int|
                            0 <= q < j + 1 && (#[trigger] col_entries@[q]).0@ == column_key_bytes(
                                x2,
                                t,
                            ) && col_entries@[q].1@ == label2;
                        if q < j {
                            assert(login_col_has(prev_logins, x2, label2));
                            let p = choose|p: int|
                                0 <= p < prev_logins.columns@.len() && (
                                #[trigger] prev_logins.columns@[p]).0 == x2
                                    && prev_logins.columns@[p].1.label@ == label2;
                            assert(logins.columns@[p].0 == x2 && logins.columns@[p].1.label@
                                == label2);
                            assert(login_col_has(logins, x2, label2));
                        } else {
                            assert(column_key_bytes(x2, t)[0] == x2);
                            assert(column_key_bytes(x, t)[0] == x);
                            assert(x2 == x);
                            assert(logins.columns@[prev.len() as int].0 == x2
                                && logins.columns@[prev.len() as int].1.label@ == label2);
                            assert(login_col_has(logins, x2, label2));
                        }
                    }
                }
                assert forall|p: int, q: int| 0 <= p < q < logins.columns@.len() implies (
                #[trigger] logins.columns@[p]).0 != (#[trigger] logins.columns@[q]).0 by {
                    if q == prev.len() && logins.columns@[p].0 == logins.columns@[q].0 {
                        assert(prev_logins.columns@[p].0 == logins.columns@[p as int].0
                            && prev_logins.columns@[p].1.label@
                            == logins.columns@[p as int].1.label@);
                        assert(login_col_has(
                            prev_logins,
                            logins.columns@[p as int].0,
                            logins.columns@[p as int].1.label@,
                        ));
                        let e = choose|e: int|
                            0 <= e < j && (#[trigger] col_entries@[e]).0@ == column_key_bytes(
                                logins.columns@[p as int].0,
                                t,
                            ) && col_entries@[e].1@ == logins.columns@[p as int].1.label@;
                        assert(col_entries@[e].0@ == col_entries@[j as int].0@);
                        assert(false);
                    }
                }
            }
        } else {
            proof {
                assert forall|x2: u8, label2: Seq<u8>|
                    #![trigger login_col_has(logins, x2, label2)]
                    login_col_has(logins, x2, label2) <==> exists|q: int|
                        0 <= q < j + 1 && (#[trigger] col_entries@[q]).0@ == column_key_bytes(
                            x2,
                            t,
                        ) && col_entries@[q].1@ == label2 by {
                    if exists|q: int|
                        0 <= q < j + 1 && (#[trigger] col_entries@[q]).0@ == column_key_bytes(
                            x2,
                            t,
                        ) && col_entries@[q].1@ == label2 {
                        let q = choose|q: int|
                            0 <= q < j + 1 && (#[trigger] col_entries@[q]).0@ == column_key_bytes(
                                x2,
                                t,
                            ) && col_entries@[q].1@ == label2;
                        if q == j {
                            assert(column_key_bytes(x2, t).skip(1) =~= t);
                            assert(false);
                        }
                    }
                }
            }
        }
        j = j + 1;
    }
    proof {
        assert forall|x: u8, label: Seq<u8>|
            #![trigger login_col_has(logins, x, label)]
            login_col_has(logins, x, label) <==> lcm.contains_pair(column_key_bytes(x, t), label) by {
            if login_col_has(logins, x, label) {
                let q = choose|q: int|
                    0 <= q < col_entries@.len() && (#[trigger] col_entries@[q]).0@
                        == column_key_bytes(x, t) && col_entries@[q].1@ == label;
                assert(lcm.contains_pair(col_entries@[q].0@, col_entries@[q].1@));
            }
            if lcm.contains_pair(column_key_bytes(x, t), label) {
                let k = column_key_bytes(x, t);
                let q = choose|q: int| 0 <= q < col_entries@.len() && col_entries@[q].0@ == k;
                assert(lcm.contains_pair(col_entries@[q].0@, col_entries@[q].1@));
            }
        }
    }

    let entries = lm.entries();
    let mut i: usize = 0;
    while i < entries.len()
        invariant
            i <= entries@.len(),
            compare_principals@ == t,
            logins_wf(logins),
            forall|x: u8, label: Seq<u8>|
                #![trigger login_col_has(logins, x, label)]
                login_col_has(logins, x, label) <==> lcm.contains_pair(column_key_bytes(x, t), label),
            forall|x: u8, y: u8, v: Seq<u8>|
                #![trigger login_cell_has(logins, x, y, v)]
                login_cell_has(logins, x, y, v) <==> exists|q: int|
                    0 <= q < i && (#[trigger] entries@[q]).0@ == cell_key_bytes(x, y, t)
                        && entries@[q].1@ == v,
            forall|q: int|
                0 <= q < i && (#[trigger] entries@[q]).0@.len() >= 2 && entries@[q].0@.skip(2) == t
                    ==> lcm.contains_key(column_key_bytes(entries@[q].0@[0], t)),
        decreases entries@.len() - i,
    {
        let entry_key = &entries[i].0;
        if suffix_matches(entry_key, 2, &compare_principals) {
            let x = entry_key[0];
            let y = entry_key[1];
            proof {
                assert(entry_key@ =~= cell_key_bytes(x, y, t));
            }
            let found = find_login_column(&logins.columns, x);
            match found {
                Some(ci) => {
                    proof {
                        assert(login_col_has(logins, x, logins.columns@[ci as int].1.label@));
                        assert(lcm.contains_key(column_key_bytes(x, t)));
                        assert forall|v2: Seq<u8>| !login_cell_has(logins, x, y, v2) by {
                            if login_cell_has(logins, x, y, v2) {
                                let q = choose|q: int|
                                    0 <= q < i && (#[trigger] entries@[q]).0@ == cell_key_bytes(
                                        x,
                                        y,
                                        t,
                                    ) && entries@[q].1@ == v2;
                                assert(entries@[q].0@ == entries@[i as int].0@);
                            }
                        }
                    }
                    let ghost prev = logins;
                    let value = bytes_range(&entries[i].1, 0, entries[i].1.len());
                    login_add_cell(&mut logins, ci, y, value);
                    proof {
                        assert(entries@[i as int].1@.subrange(
                            0,
                            entries@[i as int].1@.len() as int,
                        ) =~= entries@[i as int].1@);
                        assert forall|x2: u8, label2: Seq<u8>|
                            #![trigger login_col_has(logins, x2, label2)]
                            login_col_has(logins, x2, label2) <==> lcm.contains_pair(
                                column_key_bytes(x2, t),
                                label2,
                            ) by {
                            if login_col_has(logins, x2, label2) {
                                let p = choose|p: int|
                                    0 <= p < logins.columns@.len() && (
                                    #[trigger] logins.columns@[p]).0 == x2
                                        && logins.columns@[p].1.label@ == label2;
                                assert(prev.columns@[p].0 == x2 && prev.columns@[p].1.label@
                                    == label2);
                                assert(login_col_has(prev, x2, label2));
                            }
                            if lcm.contains_pair(column_key_bytes(x2, t), label2) {
                                assert(login_col_has(prev, x2, label2));
                                let p = choose|p: int|
                                    0 <= p < prev.columns@.len() && (#[trigger] prev.columns@[p]).0
                                        == x2 && prev.columns@[p].1.label@ == label2;
                                assert(logins.columns@[p].0 == x2 && logins.columns@[p].1.label@
                                    == label2);
                            }
                        }
                        assert forall|x2: u8, y2: u8, v2: Seq<u8>|
                            #![trigger login_cell_has(logins, x2, y2, v2)]
                            login_cell_has(logins, x2, y2, v2) <==> exists|q: int|
                                0 <= q < i + 1 && (#[trigger] entries@[q]).0@ == cell_key_bytes(
                                    x2,
                                    y2,
                                    t,
                                ) && entries@[q].1@ == v2 by {
                            if login_cell_has(logins, x2, y2, v2) {
                                if login_cell_has(prev, x2, y2, v2) {
                                    let q = choose|q: int|
                                        0 <= q < i && (#[trigger] entries@[q]).0@
                                            == cell_key_bytes(x2, y2, t) && entries@[q].1@ == v2;
                                    assert(0 <= q < i + 1 && entries@[q].0@ == cell_key_bytes(
                                        x2,
                                        y2,
                                        t,
                                    ) && entries@[q].1@ == v2);
                                } else {
                                    assert(x2 == x && y2 == y && v2 == entries@[i as int].1@);
                                    assert(entries@[i as int].0@ == cell_key_bytes(x2, y2, t));
                                }
                            }
                            if exists|q: int|
                                0 <= q < i + 1 && (#[trigger] entries@[q]).0@ == cell_key_bytes(
                                    x2,
                                    y2,
                                    t,
                                ) && entries@[q].1@ == v2 {
                                let q = choose|q: int|
                                    0 <= q < i + 1 && (#[trigger] entries@[q]).0@
                                        == cell_key_bytes(x2, y2, t) && entries@[q].1@ == v2;
                                if q < i {
                                    assert(login_cell_has(prev, x2, y2, v2));
                                } else {
                                    assert(cell_key_bytes(x2, y2, t)[0] == x2);
                                    assert(cell_key_bytes(x2, y2, t)[1] == y2);
                                }
                            }
                        }
                    }
                },
                None => {
                    proof {
                        let k0 = entries@[i as int].0@;
                        assert(lmm.contains_pair(entries@[i as int].0@, entries@[i as int].1@));
                        assert(lmm.contains_key(k0) && k0.len() >= 2 && k0.skip(2) == t);
                        if lcm.contains_key(column_key_bytes(x, t)) {
                            assert(lcm.contains_pair(
                                column_key_bytes(x, t),
                                lcm[column_key_bytes(x, t)],
                            ));
                            assert(login_col_has(logins, x, lcm[column_key_bytes(x, t)]));
                            assert(false);
                        }
                        assert(k0[0] == x);
                        assert(!orphan_free(lcm, lmm, t));
                    }
                    return Err(VaultError::IntegrityViolation);
                },
            }
        } else {
            proof {
                assert forall|x2: u8, y2: u8, v2: Seq<u8>|
                    #![trigger login_cell_has(logins, x2, y2, v2)]
                    login_cell_has(logins, x2, y2, v2) <==> exists|q: int|
                        0 <= q < i + 1 && (#[trigger] entries@[q]).0@ == cell_key_bytes(x2, y2, t)
                            && entries@[q].1@ == v2 by {
                    if exists|q: int|
                        0 <= q < i + 1 && (#[trigger] entries@[q]).0@ == cell_key_bytes(x2, y2, t)
                            && entries@[q].1@ == v2 {
                        let q = choose|q: int|
                            0 <= q < i + 1 && (#[trigger] entries@[q]).0@ == cell_key_bytes(
                                x2,
                                y2,
                                t,
                            ) && entries@[q].1@ == v2;
                        if q == i {
                            assert(cell_key_bytes(x2, y2, t).skip(2) =~= t);
                            assert(false);
                        }
                    }
                }
            }
        }
        i = i + 1;
    }
    proof {
        assert forall|x: u8, y: u8, v: Seq<u8>|
            #![trigger login_cell_has(logins, x, y, v)]
            login_cell_has(logins, x, y, v) <==> lmm.contains_pair(cell_key_bytes(x, y, t), v) by {
            if login_cell_has(logins, x, y, v) {
                let q = choose|q: int|
                    0 <= q < entries@.len() && (#[trigger] entries@[q]).0@ == cell_key_bytes(
                        x,
                        y,
                        t,
                    ) && entries@[q].1@ == v;
                assert(lmm.contains_pair(entries@[q].0@, entries@[q].1@));
            }
            if lmm.contains_pair(cell_key_bytes(x, y, t), v) {
                let k = cell_key_bytes(x, y, t);
                let q = choose|q: int| 0 <= q < entries@.len() && entries@[q].0@ == k;
                assert(lmm.contains_pair(entries@[q].0@, entries@[q].1@));
            }
        }
        assert forall|k: Seq<u8>|
            #[trigger] lmm.contains_key(k) && k.len() >= 2 && k.skip(2) == t implies lcm
            .contains_key(column_key_bytes(k[0], t)) by {
            let q = choose|q: int| 0 <= q < entries@.len() && entries@[q].0@ == k;
        }
    }
    Ok(logins)
}

// ---------------------------------------------------------------------------
// Whole-vault and whole-user aggregates
// ---------------------------------------------------------------------------
/// The whole client-facing view of one vault.
#[derive(Debug)]
pub struct VaultData {
    pub vault_name: Vec<u8>,
    pub spreadsheet_columns: FlexGridColumns,
    pub spreadsheet: Spreadsheet,
    pub logins: Logins,
    pub notes: Notes,
}

/// Every component of the aggregate matches its store for the tenant.
pub open spec fn vault_data_matches(vd: VaultData, state: GeneralState, t: Seq<u8>) -> bool {
    &&& colinfo_matches(vd.spreadsheet_columns@, store_contents(state.spreadsheet_columns), t)
    &&& sheet_matches(vd.spreadsheet, store_contents(state.spreadsheet_map), t)
    &&& logins_matches(
        vd.logins,
        store_contents(state.logins_columns),
        store_contents(state.logins_map),
        t,
    )
    &&& notes_matches(vd.notes.notes@, store_contents(state.notes_map), t)
}

/// Combines the given vault name with all four per-entity views of one
/// tenant. Fails, touching nothing, exactly when the tenant's logins hold an
/// orphaned cell.
pub fn _get_vault(
    vault_name: &Vec<u8>,
    user_id: &Vec<u8>,
    vault_id: &Vec<u8>,
    state: &GeneralState,
) -> (r: Result<VaultData, VaultError>)
    requires
        columns_store_wf(store_contents(state.spreadsheet_columns)),
        notes_store_wf(store_contents(state.notes_map)),
    ensures
        r is Ok <==> orphan_free(
            store_contents(state.logins_columns),
            store_contents(state.logins_map),
            tenant_bytes(user_id@, vault_id@),
        ),
        r matches Ok(vd) ==> vd.vault_name@ == vault_name@ && vault_data_matches(
            vd,
            *state,
            tenant_bytes(user_id@, vault_id@),
        ),
        r matches Err(e) ==> e == VaultError::IntegrityViolation,
{
    let spreadsheet_columns = _get_columns_info(user_id, vault_id, &state.spreadsheet_columns);
    let spreadsheet = _get_spreadsheet(user_id, vault_id, &state.spreadsheet_map);
    let logins = match _get_logins(user_id, vault_id, &state.logins_map, &state.logins_columns) {
        Ok(l) => l,
        Err(e) => {
            return Err(e);
        },
    };
    let notes = _get_notes(user_id, vault_id, &state.notes_map);
    Ok(
        VaultData {
            vault_name: bytes_range(vault_name, 0, vault_name.len()),
            spreadsheet_columns,
            spreadsheet,
            logins,
            notes,
        },
    )
}

/// All vaults of one owner, each under its vault identifier.
#[derive(Debug)]
pub struct UserVaults {
    pub vaults: Vec<(Vec<u8>, VaultData)>,
}

/// Does the aggregate hold a vault under identifier `vid`?
pub open spec fn user_vaults_has(s: Seq<(Vec<u8>, VaultData)>, vid: Seq<u8>) -> bool {
    exists|i: int| 0 <= i < s.len() && (#[trigger] s[i]).0@ == vid
}

/// Referential integrity across all of one owner's vaults: no enumerated
/// tenant's logins hold an orphaned cell.
pub open spec fn user_logins_orphan_free(state: GeneralState, owner: Seq<u8>) -> bool {
    forall|k: Seq<u8>|
        #[trigger] store_contents(state.vault_names_map).contains_key(k) && k.len() >= owner.len()
            && k.take(owner.len() as int) == owner ==> orphan_free(
            store_contents(state.logins_columns),
            store_contents(state.logins_map),
            k,
        )
}

/// Enumerates the owner's vault names and builds the whole-vault aggregate
/// for each. Fails, touching nothing, exactly when some enumerated vault's
/// logins hold an orphaned cell.
pub fn _get_user_vaults(user_id: &Vec<u8>, state: &GeneralState) -> (r: Result<
    UserVaults,
    VaultError,
>)
    requires
        columns_store_wf(store_contents(state.spreadsheet_columns)),
        notes_store_wf(store_contents(state.notes_map)),
    ensures
        r is Ok <==> user_logins_orphan_free(*state, user_id@),
        r matches Ok(uv) ==> {
            &&& forall|p: int, q: int|
                0 <= p < q < uv.vaults@.len() ==> (#[trigger] uv.vaults@[p]).0@ != (
                #[trigger] uv.vaults@[q]).0@
            &&& forall|vid: Seq<u8>|
                #![trigger user_vaults_has(uv.vaults@, vid)]
                user_vaults_has(uv.vaults@, vid) <==> store_contents(
                    state.vault_names_map,
                ).contains_key(tenant_bytes(user_id@, vid))
            &&& forall|i: int|
                0 <= i < uv.vaults@.len() ==> vault_data_matches(
                    (#[trigger] uv.vaults@[i]).1,
                    *state,
                    tenant_bytes(user_id@, uv.vaults@[i].0@),
                ) && uv.vaults@[i].1.vault_name@ == store_contents(
                    state.vault_names_map,
                )[tenant_bytes(user_id@, uv.vaults@[i].0@)]
        },
        r matches Err(e) ==> e == VaultError::IntegrityViolation,
{
    let ghost owner = user_id@;
    let ghost names_m = store_contents(state.vault_names_map);
    let vault_names = _get_vault_names(user_id, &state.vault_names_map);
    let mut vaults: Vec<(Vec<u8>, VaultData)> = Vec::new();
    let mut i: usize = 0;
    while i < vault_names.names.len()
        invariant
            i <= vault_names.names@.len(),
            names_matches(vault_names, names_m, owner),
            columns_store_wf(store_contents(state.spreadsheet_columns)),
            notes_store_wf(store_contents(state.notes_map)),
            vaults@.len() == i,
            forall|p: int| 0 <= p < i ==> (#[trigger] vaults@[p]).0@ == vault_names.names@[p].0@,
            forall|p: int|
                0 <= p < i ==> vault_data_matches(
                    (#[trigger] vaults@[p]).1,
                    *state,
                    tenant_bytes(owner, vaults@[p].0@),
                ) && vaults@[p].1.vault_name@ == vault_names.names@[p].1@,
            forall|p: int|
                0 <= p < i ==> orphan_free(
                    store_contents(state.logins_columns),
                    store_contents(state.logins_map),
                    tenant_bytes(owner, (#[trigger] vault_names.names@[p]).0@),
                ),
        decreases vault_names.names@.len() - i,
    {
        let vid = &vault_names.names[i].0;
        let name = &vault_names.names[i].1;
        let vd = match _get_vault(name, user_id, vid, state) {
            Ok(vd) => vd,
            Err(e) => {
                proof {
                    let t0 = tenant_bytes(owner, vault_names.names@[i as int].0@);
                    assert(assoc_has_bytes(
                        vault_names.names@,
                        vault_names.names@[i as int].0@,
                        vault_names.names@[i as int].1@,
                    ));
                    assert(names_m.contains_pair(t0, vault_names.names@[i as int].1@));
                    assert(t0.take(owner.len() as int) =~= owner);
                    assert(!user_logins_orphan_free(*state, owner));
                }
                return Err(e);
            },
        };
        vaults.push((bytes_range(vid, 0, vid.len()), vd));
        proof {
            assert(vid@.subrange(0, vid@.len() as int) =~= vid@);
            assert(vaults@[i as int].0@ == vault_names.names@[i as int].0@);
            assert(assoc_has_bytes(
                vault_names.names@,
                vault_names.names@[i as int].0@,
                vault_names.names@[i as int].1@,
            ));
            assert(names_m.contains_pair(
                tenant_bytes(owner, vault_names.names@[i as int].0@),
                vault_names.names@[i as int].1@,
            ));
        }
        i = i + 1;
    }
    let r = UserVaults { vaults };
    proof {
        assert forall|k: Seq<u8>|
            #[trigger] names_m.contains_key(k) && k.len() >= owner.len() && k.take(
                owner.len() as int,
            ) == owner implies orphan_free(
            store_contents(state.logins_columns),
            store_contents(state.logins_map),
            k,
        ) by {
            assert(names_m.contains_pair(k, names_m[k]));
            assert(k =~= tenant_bytes(owner, k.skip(owner.len() as int)));
            assert(assoc_has_bytes(vault_names.names@, k.skip(owner.len() as int), names_m[k]));
            let p = choose|p: int|
                0 <= p < vault_names.names@.len() && (#[trigger] vault_names.names@[p]).0@
                    == k.skip(owner.len() as int) && vault_names.names@[p].1@ == names_m[k];
            assert(orphan_free(
                store_contents(state.logins_columns),
                store_contents(state.logins_map),
                tenant_bytes(owner, vault_names.names@[p].0@),
            ));
        }
        assert forall|vid: Seq<u8>| #![trigger user_vaults_has(r.vaults@, vid)]
            user_vaults_has(r.vaults@, vid) <==> names_m.contains_key(
                tenant_bytes(owner, vid),
            ) by {
            if user_vaults_has(r.vaults@, vid) {
                let p = choose|p: int| 0 <= p < r.vaults@.len() && (#[trigger] r.vaults@[p]).0@ == vid;
                assert(assoc_has_bytes(vault_names.names@, vid, vault_names.names@[p].1@));
                assert(names_m.contains_pair(tenant_bytes(owner, vid), vault_names.names@[p].1@));
            }
            if names_m.contains_key(tenant_bytes(owner, vid)) {
                assert(names_m.contains_pair(
                    tenant_bytes(owner, vid),
                    names_m[tenant_bytes(owner, vid)],
                ));
                assert(assoc_has_bytes(
                    vault_names.names@,
                    vid,
                    names_m[tenant_bytes(owner, vid)],
                ));
                let p = choose|p: int|
                    0 <= p < vault_names.names@.len() && (#[trigger] vault_names.names@[p]).0@
                        == vid && vault_names.names@[p].1@ == names_m[tenant_bytes(owner, vid)];
                assert(r.vaults@[p].0@ == vid);
            }
        }
        assert forall|i2: int| 0 <= i2 < r.vaults@.len() implies vault_data_matches(
            (#[trigger] r.vaults@[i2]).1,
            *state,
            tenant_bytes(owner, r.vaults@[i2].0@),
        ) && r.vaults@[i2].1.vault_name@ == names_m[tenant_bytes(owner, r.vaults@[i2].0@)] by {
            assert(assoc_has_bytes(
                vault_names.names@,
                vault_names.names@[i2].0@,
                vault_names.names@[i2].1@,
            ));
            assert(names_m.contains_pair(
                tenant_bytes(owner, vault_names.names@[i2].0@),
                vault_names.names@[i2].1@,
            ));
        }
        assert forall|p: int, q: int| 0 <= p < q < r.vaults@.len() implies (
        #[trigger] r.vaults@[p]).0@ != (#[trigger] r.vaults@[q]).0@ by {
            assert(r.vaults@[p].0@ == vault_names.names@[p].0@);
            assert(r.vaults@[q].0@ == vault_names.names@[q].0@);
        }
    }
    Ok(r)
}

} // verus!
