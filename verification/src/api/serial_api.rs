//! The mutation engine: applies decoded batches to the persistent stores,
//! atomically within each call.
//!
//! Every record is an upsert-or-tombstone: an empty payload, name or label
//! removes the record's key (no error if absent), anything else inserts or
//! overwrites. Deleting login-column metadata additionally cascades to every
//! login cell of that column and tenant, in a collect-then-remove sweep.
//! The `apply_*_records` spec functions are each batch kind's meaning as a
//! fold over the store's mathematical contents; every mutation function
//! promises exactly that fold, and that an undecodable buffer leaves the
//! stores untouched.
use crate::api::deserialiser::{
    deserialise_column_data, deserialise_delete_cells, deserialise_global_sync,
    deserialise_login_data_sync, deserialise_login_full_sync, deserialise_login_metadata,
    deserialise_secure_notes, deserialise_spreadsheet, deserialise_vault_names,
};
use crate::api::deserialiser_types::{
    parse_cells, parse_columns, parse_delete_cells, parse_global, parse_login_data,
    parse_login_metadata, parse_notes, parse_vault_names, Cells, DeleteCells, LoginMetadata,
    SecureNotesData, SpreadsheetColumns, VaultNames,
};
use crate::bytes::{bytes_range, push_all, suffix_matches};
use crate::vault_type::logins::LoginSiteKey;
use crate::stable::types::{cells_store_wf, columns_store_wf, names_store_wf, notes_store_wf, GeneralState};
use crate::store::{store_contents, ByteStore};
use crate::vault_type::secure_notes::{note_key_bytes, note_value_bytes, SecureNote, SecureNoteKey};
use crate::vault_type::spreadsheet::{
    cell_key_bytes, column_key_bytes, column_value_bytes, ColumnData, ColumnKey, SpreadsheetKey,
    SpreadsheetValue,
};
use crate::vault_type::tenant_bytes;
use crate::vault_type::vault_names::{VaultNameKey, VaultNameValue};
use crate::VaultError;
use vstd::prelude::*;

verus! {

// ---------------------------------------------------------------------------
// What applying each batch kind means, as a fold over store contents
// ---------------------------------------------------------------------------
/// One cell record: an empty payload removes the coordinate's key, anything
/// else inserts or overwrites it.
pub open spec fn apply_cell_record(
    m: Map<Seq<u8>, Seq<u8>>,
    t: Seq<u8>,
    rec: (u8, u8, Seq<u8>),
) -> Map<Seq<u8>, Seq<u8>> {
    if rec.2.len() == 0 {
        m.remove(cell_key_bytes(rec.0, rec.1, t))
    } else {
        m.insert(cell_key_bytes(rec.0, rec.1, t), rec.2)
    }
}

/// A whole cell batch, first record first.
pub open spec fn apply_cell_records(
    m: Map<Seq<u8>, Seq<u8>>,
    t: Seq<u8>,
    recs: Seq<(u8, u8, Seq<u8>)>,
) -> Map<Seq<u8>, Seq<u8>>
    decreases recs.len(),
{
    if recs.len() == 0 {
        m
    } else {
        apply_cell_records(apply_cell_record(m, t, recs[0]), t, recs.skip(1))
    }
}

/// A whole coordinate-delete batch: each named coordinate is removed
/// unconditionally.
pub open spec fn apply_delete_records(
    m: Map<Seq<u8>, Seq<u8>>,
    t: Seq<u8>,
    recs: Seq<(u8, u8)>,
) -> Map<Seq<u8>, Seq<u8>>
    decreases recs.len(),
{
    if recs.len() == 0 {
        m
    } else {
        apply_delete_records(m.remove(cell_key_bytes(recs[0].0, recs[0].1, t)), t, recs.skip(1))
    }
}

/// One column-metadata record: an empty name with the hidden flag clear
/// removes the column's key; anything else inserts or overwrites it.
pub open spec fn apply_column_record(
    m: Map<Seq<u8>, Seq<u8>>,
    t: Seq<u8>,
    rec: (u8, bool, Seq<u8>),
) -> Map<Seq<u8>, Seq<u8>> {
    if rec.2.len() == 0 && !rec.1 {
        m.remove(column_key_bytes(rec.0, t))
    } else {
        m.insert(column_key_bytes(rec.0, t), column_value_bytes(rec.1, rec.2))
    }
}

/// A whole column-metadata batch, first record first.
pub open spec fn apply_column_records(
    m: Map<Seq<u8>, Seq<u8>>,
    t: Seq<u8>,
    recs: Seq<(u8, bool, Seq<u8>)>,
) -> Map<Seq<u8>, Seq<u8>>
    decreases recs.len(),
{
    if recs.len() == 0 {
        m
    } else {
        apply_column_records(apply_column_record(m, t, recs[0]), t, recs.skip(1))
    }
}

/// One vault-name record: the key is the owner's bytes followed by the
/// record's vault identifier; an empty name removes it.
pub open spec fn apply_name_record(
    m: Map<Seq<u8>, Seq<u8>>,
    owner: Seq<u8>,
    rec: (Seq<u8>, Seq<u8>),
) -> Map<Seq<u8>, Seq<u8>> {
    if rec.1.len() == 0 {
        m.remove(tenant_bytes(owner, rec.0))
    } else {
        m.insert(tenant_bytes(owner, rec.0), rec.1)
    }
}

/// A whole vault-name batch, first record first.
pub open spec fn apply_name_records(
    m: Map<Seq<u8>, Seq<u8>>,
    owner: Seq<u8>,
    recs: Seq<(Seq<u8>, Seq<u8>)>,
) -> Map<Seq<u8>, Seq<u8>>
    decreases recs.len(),
{
    if recs.len() == 0 {
        m
    } else {
        apply_name_records(apply_name_record(m, owner, recs[0]), owner, recs.skip(1))
    }
}

/// One secure-note record: an empty label removes the index's key, anything
/// else inserts or overwrites the encoded note.
pub open spec fn apply_note_record(
    m: Map<Seq<u8>, Seq<u8>>,
    t: Seq<u8>,
    rec: (u8, Seq<u8>, Seq<u8>),
) -> Map<Seq<u8>, Seq<u8>> {
    if rec.1.len() == 0 {
        m.remove(note_key_bytes(rec.0, t))
    } else {
        m.insert(note_key_bytes(rec.0, t), note_value_bytes(rec.1, rec.2))
    }
}

/// A whole secure-note batch, first record first.
pub open spec fn apply_note_records(
    m: Map<Seq<u8>, Seq<u8>>,
    t: Seq<u8>,
    recs: Seq<(u8, Seq<u8>, Seq<u8>)>,
) -> Map<Seq<u8>, Seq<u8>>
    decreases recs.len(),
{
    if recs.len() == 0 {
        m
    } else {
        apply_note_records(apply_note_record(m, t, recs[0]), t, recs.skip(1))
    }
}

// ---------------------------------------------------------------------------
// Fold lemmas: appending one record applies it last
// ---------------------------------------------------------------------------
pub proof fn lemma_apply_cell_records_push(
    m: Map<Seq<u8>, Seq<u8>>,
    t: Seq<u8>,
    recs: Seq<(u8, u8, Seq<u8>)>,
    rec: (u8, u8, Seq<u8>),
)
    ensures
        apply_cell_records(m, t, recs.push(rec)) == apply_cell_record(
            apply_cell_records(m, t, recs),
            t,
            rec,
        ),
    decreases recs.len(),
{
    if recs.len() == 0 {
        reveal_with_fuel(apply_cell_records, 2);
        assert(recs.push(rec)[0] == rec);
        assert(recs.push(rec).skip(1) =~= Seq::<(u8, u8, Seq<u8>)>::empty());
    } else {
        assert(recs.push(rec)[0] == recs[0]);
        assert(recs.push(rec).skip(1) =~= recs.skip(1).push(rec));
        lemma_apply_cell_records_push(apply_cell_record(m, t, recs[0]), t, recs.skip(1), rec);
    }
}

pub proof fn lemma_apply_delete_records_push(
    m: Map<Seq<u8>, Seq<u8>>,
    t: Seq<u8>,
    recs: Seq<(u8, u8)>,
    rec: (u8, u8),
)
    ensures
        apply_delete_records(m, t, recs.push(rec)) == apply_delete_records(m, t, recs).remove(
            cell_key_bytes(rec.0, rec.1, t),
        ),
    decreases recs.len(),
{
    if recs.len() == 0 {
        reveal_with_fuel(apply_delete_records, 2);
        assert(recs.push(rec)[0] == rec);
        assert(recs.push(rec).skip(1) =~= Seq::<(u8, u8)>::empty());
    } else {
        assert(recs.push(rec)[0] == recs[0]);
        assert(recs.push(rec).skip(1) =~= recs.skip(1).push(rec));
        lemma_apply_delete_records_push(
            m.remove(cell_key_bytes(recs[0].0, recs[0].1, t)),
            t,
            recs.skip(1),
            rec,
        );
    }
}

pub proof fn lemma_apply_column_records_push(
    m: Map<Seq<u8>, Seq<u8>>,
    t: Seq<u8>,
    recs: Seq<(u8, bool, Seq<u8>)>,
    rec: (u8, bool, Seq<u8>),
)
    ensures
        apply_column_records(m, t, recs.push(rec)) == apply_column_record(
            apply_column_records(m, t, recs),
            t,
            rec,
        ),
    decreases recs.len(),
{
    if recs.len() == 0 {
        reveal_with_fuel(apply_column_records, 2);
        assert(recs.push(rec)[0] == rec);
        assert(recs.push(rec).skip(1) =~= Seq::<(u8, bool, Seq<u8>)>::empty());
    } else {
        assert(recs.push(rec)[0] == recs[0]);
        assert(recs.push(rec).skip(1) =~= recs.skip(1).push(rec));
        lemma_apply_column_records_push(apply_column_record(m, t, recs[0]), t, recs.skip(1), rec);
    }
}

pub proof fn lemma_apply_name_records_push(
    m: Map<Seq<u8>, Seq<u8>>,
    owner: Seq<u8>,
    recs: Seq<(Seq<u8>, Seq<u8>)>,
    rec: (Seq<u8>, Seq<u8>),
)
    ensures
        apply_name_records(m, owner, recs.push(rec)) == apply_name_record(
            apply_name_records(m, owner, recs),
            owner,
            rec,
        ),
    decreases recs.len(),
{
    if recs.len() == 0 {
        reveal_with_fuel(apply_name_records, 2);
        assert(recs.push(rec)[0] == rec);
        assert(recs.push(rec).skip(1) =~= Seq::<(Seq<u8>, Seq<u8>)>::empty());
    } else {
        assert(recs.push(rec)[0] == recs[0]);
        assert(recs.push(rec).skip(1) =~= recs.skip(1).push(rec));
        lemma_apply_name_records_push(
            apply_name_record(m, owner, recs[0]),
            owner,
            recs.skip(1),
            rec,
        );
    }
}

pub proof fn lemma_apply_note_records_push(
    m: Map<Seq<u8>, Seq<u8>>,
    t: Seq<u8>,
    recs: Seq<(u8, Seq<u8>, Seq<u8>)>,
    rec: (u8, Seq<u8>, Seq<u8>),
)
    ensures
        apply_note_records(m, t, recs.push(rec)) == apply_note_record(
            apply_note_records(m, t, recs),
            t,
            rec,
        ),
    decreases recs.len(),
{
    if recs.len() == 0 {
        reveal_with_fuel(apply_note_records, 2);
        assert(recs.push(rec)[0] == rec);
        assert(recs.push(rec).skip(1) =~= Seq::<(u8, Seq<u8>, Seq<u8>)>::empty());
    } else {
        assert(recs.push(rec)[0] == recs[0]);
        assert(recs.push(rec).skip(1) =~= recs.skip(1).push(rec));
        lemma_apply_note_records_push(apply_note_record(m, t, recs[0]), t, recs.skip(1), rec);
    }
}

// ---------------------------------------------------------------------------
// Well-formedness is preserved by every batch kind
// ---------------------------------------------------------------------------
pub proof fn lemma_apply_cell_records_wf(
    m: Map<Seq<u8>, Seq<u8>>,
    t: Seq<u8>,
    recs: Seq<(u8, u8, Seq<u8>)>,
)
    requires
        cells_store_wf(m),
    ensures
        cells_store_wf(apply_cell_records(m, t, recs)),
    decreases recs.len(),
{
    if recs.len() > 0 {
        lemma_apply_cell_records_wf(apply_cell_record(m, t, recs[0]), t, recs.skip(1));
    }
}

pub proof fn lemma_apply_delete_records_wf(
    m: Map<Seq<u8>, Seq<u8>>,
    t: Seq<u8>,
    recs: Seq<(u8, u8)>,
)
    requires
        cells_store_wf(m),
    ensures
        cells_store_wf(apply_delete_records(m, t, recs)),
    decreases recs.len(),
{
    if recs.len() > 0 {
        lemma_apply_delete_records_wf(
            m.remove(cell_key_bytes(recs[0].0, recs[0].1, t)),
            t,
            recs.skip(1),
        );
    }
}

pub proof fn lemma_apply_column_records_wf(
    m: Map<Seq<u8>, Seq<u8>>,
    t: Seq<u8>,
    recs: Seq<(u8, bool, Seq<u8>)>,
)
    requires
        columns_store_wf(m),
    ensures
        columns_store_wf(apply_column_records(m, t, recs)),
    decreases recs.len(),
{
    if recs.len() > 0 {
        lemma_apply_column_records_wf(apply_column_record(m, t, recs[0]), t, recs.skip(1));
    }
}

pub proof fn lemma_apply_name_records_wf(
    m: Map<Seq<u8>, Seq<u8>>,
    owner: Seq<u8>,
    recs: Seq<(Seq<u8>, Seq<u8>)>,
)
    requires
        names_store_wf(m),
    ensures
        names_store_wf(apply_name_records(m, owner, recs)),
    decreases recs.len(),
{
    if recs.len() > 0 {
        lemma_apply_name_records_wf(apply_name_record(m, owner, recs[0]), owner, recs.skip(1));
    }
}

pub proof fn lemma_apply_note_records_wf(
    m: Map<Seq<u8>, Seq<u8>>,
    t: Seq<u8>,
    recs: Seq<(u8, Seq<u8>, Seq<u8>)>,
)
    requires
        notes_store_wf(m),
        forall|i: int|
            0 <= i < recs.len() ==> ((#[trigger] recs[i]).1.len() <= 255),
    ensures
        notes_store_wf(apply_note_records(m, t, recs)),
    decreases recs.len(),
{
    if recs.len() > 0 {
        assert(recs[0] == recs.skip(0)[0]);
        let m1 = apply_note_record(m, t, recs[0]);
        assert(notes_store_wf(m1)) by {
            if recs[0].1.len() != 0 {
                let v = note_value_bytes(recs[0].1, recs[0].2);
                assert(v[0] == recs[0].1.len() as u8);
                assert(1 <= v[0] && v[0] + 1 <= v.len());
            }
        }
        assert(forall|i: int|
            0 <= i < recs.skip(1).len() ==> 0 < (#[trigger] recs.skip(1)[i]).1.len() <= 255
                || recs.skip(1)[i].1.len() == 0);
        lemma_apply_note_records_wf(m1, t, recs.skip(1));
    }
}

// ---------------------------------------------------------------------------
// Batch processors
// ---------------------------------------------------------------------------
/// Applies a decoded cell batch to the spreadsheet store.
pub fn _process_spreadsheet(
    user_id: &Vec<u8>,
    vault_id: &Vec<u8>,
    cells: &Cells,
    sm: &mut ByteStore,
)
    ensures
        store_contents(*final(sm)) == apply_cell_records(
            store_contents(*old(sm)),
            tenant_bytes(user_id@, vault_id@),
            cells@,
        ),
{
    let ghost t = tenant_bytes(user_id@, vault_id@);
    let mut i: usize = 0;
    proof {
        assert(cells@.take(0) =~= Seq::<(u8, u8, Seq<u8>)>::empty());
    }
    while i < cells.cells.len()
        invariant
            i <= cells.cells@.len(),
            store_contents(*sm) == apply_cell_records(
                store_contents(*old(sm)),
                t,
                cells@.take(i as int),
            ),
        decreases cells.cells@.len() - i,
    {
        let cell = &cells.cells[i];
        let key = SpreadsheetKey::new(user_id, vault_id, cell.header.x, cell.header.y);
        let key_bytes = key.to_bytes();
        if cell.data.len() == 0 {
            sm.remove(&key_bytes);
        } else {
            let value = SpreadsheetValue::new(bytes_range(&cell.data, 0, cell.data.len()));
            sm.insert(key_bytes, value.data);
        }
        proof {
            assert(cell.data@.subrange(0, cell.data@.len() as int) =~= cell.data@);
            assert(cells@[i as int] == cells.cells@[i as int]@);
            lemma_apply_cell_records_push(
                store_contents(*old(sm)),
                t,
                cells@.take(i as int),
                cells@[i as int],
            );
            assert(cells@.take(i as int).push(cells@[i as int]) =~= cells@.take(i + 1));
        }
        i = i + 1;
    }
    proof {
        assert(cells@.take(cells.cells@.len() as int) =~= cells@);
    }
}

/// Applies a decoded cell batch to the login-cell store; login cells share
/// the cell record shape.
pub fn _process_login_data(
    user_id: &Vec<u8>,
    vault_id: &Vec<u8>,
    cells: &Cells,
    lm: &mut ByteStore,
)
    ensures
        store_contents(*final(lm)) == apply_cell_records(
            store_contents(*old(lm)),
            tenant_bytes(user_id@, vault_id@),
            cells@,
        ),
{
    _process_spreadsheet(user_id, vault_id, cells, lm)
}

/// Applies a decoded column-metadata batch to the spreadsheet-column store.
pub fn _process_spreadsheet_columns(
    user_id: &Vec<u8>,
    vault_id: &Vec<u8>,
    columns: &SpreadsheetColumns,
    sc: &mut ByteStore,
)
    ensures
        store_contents(*final(sc)) == apply_column_records(
            store_contents(*old(sc)),
            tenant_bytes(user_id@, vault_id@),
            columns@,
        ),
{
    let ghost t = tenant_bytes(user_id@, vault_id@);
    let mut i: usize = 0;
    proof {
        assert(columns@.take(0) =~= Seq::<(u8, bool, Seq<u8>)>::empty());
    }
    while i < columns.columns.len()
        invariant
            i <= columns.columns@.len(),
            store_contents(*sc) == apply_column_records(
                store_contents(*old(sc)),
                t,
                columns@.take(i as int),
            ),
        decreases columns.columns@.len() - i,
    {
        let column = &columns.columns[i];
        let key = ColumnKey::new(user_id, vault_id, column.header.x);
        let key_bytes = key.to_bytes();
        let hidden = column.header.hidden > 0;
        if column.name.len() == 0 && !hidden {
            sc.remove(&key_bytes);
        } else {
            let value = ColumnData::new(hidden, bytes_range(&column.name, 0, column.name.len()));
            sc.insert(key_bytes, value.to_bytes());
        }
        proof {
            assert(column.name@.subrange(0, column.name@.len() as int) =~= column.name@);
            assert(columns@[i as int] == columns.columns@[i as int]@);
            lemma_apply_column_records_push(
                store_contents(*old(sc)),
                t,
                columns@.take(i as int),
                columns@[i as int],
            );
            assert(columns@.take(i as int).push(columns@[i as int]) =~= columns@.take(i + 1));
        }
        i = i + 1;
    }
    proof {
        assert(columns@.take(columns.columns@.len() as int) =~= columns@);
    }
}

/// Applies a decoded vault-name batch to the vault-name store, under the
/// given owner.
pub fn _process_vault_names(user_id: &Vec<u8>, names: &VaultNames, vnm: &mut ByteStore)
    ensures
        store_contents(*final(vnm)) == apply_name_records(
            store_contents(*old(vnm)),
            user_id@,
            names@,
        ),
{
    let mut i: usize = 0;
    proof {
        assert(names@.take(0) =~= Seq::<(Seq<u8>, Seq<u8>)>::empty());
    }
    while i < names.names.len()
        invariant
            i <= names.names@.len(),
            store_contents(*vnm) == apply_name_records(
                store_contents(*old(vnm)),
                user_id@,
                names@.take(i as int),
            ),
        decreases names.names@.len() - i,
    {
        let name = &names.names[i];
        let key = VaultNameKey::new(user_id, &name.vault_id);
        let key_bytes = key.to_bytes();
        if name.vault_name.len() == 0 {
            vnm.remove(&key_bytes);
        } else {
            let value = VaultNameValue::new(&name.vault_name);
            vnm.insert(key_bytes, value.name);
        }
        proof {
            assert(names@[i as int] == names.names@[i as int]@);
            lemma_apply_name_records_push(
                store_contents(*old(vnm)),
                user_id@,
                names@.take(i as int),
                names@[i as int],
            );
            assert(names@.take(i as int).push(names@[i as int]) =~= names@.take(i + 1));
        }
        i = i + 1;
    }
    proof {
        assert(names@.take(names.names@.len() as int) =~= names@);
    }
}

/// Applies a decoded secure-note batch to the note store.
pub fn _process_notes_data(
    user_id: &Vec<u8>,
    vault_id: &Vec<u8>,
    notes_data: &SecureNotesData,
    nm: &mut ByteStore,
)
    requires
        forall|i: int|
            0 <= i < notes_data.notes@.len() ==> (#[trigger] notes_data.notes@[i]).label@.len()
                <= 255,
    ensures
        store_contents(*final(nm)) == apply_note_records(
            store_contents(*old(nm)),
            tenant_bytes(user_id@, vault_id@),
            notes_data@,
        ),
{
    let ghost t = tenant_bytes(user_id@, vault_id@);
    let mut principals: Vec<u8> = Vec::new();
    crate::bytes::push_all(&mut principals, user_id);
    crate::bytes::push_all(&mut principals, vault_id);
    let mut i: usize = 0;
    proof {
        assert(notes_data@.take(0) =~= Seq::<(u8, Seq<u8>, Seq<u8>)>::empty());
    }
    while i < notes_data.notes.len()
        invariant
            i <= notes_data.notes@.len(),
            principals@ == t,
            store_contents(*nm) == apply_note_records(
                store_contents(*old(nm)),
                t,
                notes_data@.take(i as int),
            ),
        decreases notes_data.notes@.len() - i,
    {
        let note = &notes_data.notes[i];
        let key = SecureNoteKey {
            index: note.header.x,
            principals: bytes_range(&principals, 0, principals.len()),
        };
        let key_bytes = key.to_bytes();
        if note.label.len() == 0 {
            nm.remove(&key_bytes);
        } else {
            let value = SecureNote::new(
                bytes_range(&note.label, 0, note.label.len()),
                bytes_range(&note.note, 0, note.note.len()),
            );
            nm.insert(key_bytes, value.to_bytes());
        }
        proof {
            assert(principals@.subrange(0, principals@.len() as int) =~= principals@);
            assert(note.label@.subrange(0, note.label@.len() as int) =~= note.label@);
            assert(note.note@.subrange(0, note.note@.len() as int) =~= note.note@);
            assert(notes_data@[i as int] == notes_data.notes@[i as int]@);
            lemma_apply_note_records_push(
                store_contents(*old(nm)),
                t,
                notes_data@.take(i as int),
                notes_data@[i as int],
            );
            assert(notes_data@.take(i as int).push(notes_data@[i as int]) =~= notes_data@.take(
                i + 1,
            ));
        }
        i = i + 1;
    }
    proof {
        assert(notes_data@.take(notes_data.notes@.len() as int) =~= notes_data@);
    }
}

// ---------------------------------------------------------------------------
// Sync entry points: decode, then apply; empty input is a silent no-op
// ---------------------------------------------------------------------------
/// Decodes and applies a vault-name batch for the calling owner.
pub fn _vault_names_sync(user_id: &Vec<u8>, update: &Vec<u8>, vnm: &mut ByteStore) -> (r: Result<
    (),
    VaultError,
>)
    ensures
        match r {
            Ok(_) => parse_vault_names(update@) matches Some(recs) && store_contents(*final(vnm))
                == apply_name_records(store_contents(*old(vnm)), user_id@, recs),
            Err(e) => parse_vault_names(update@) is None && e == VaultError::MalformedInput
                && store_contents(*final(vnm)) == store_contents(*old(vnm)),
        },
        names_store_wf(store_contents(*old(vnm))) ==> names_store_wf(store_contents(*final(vnm))),
{
    if update.len() == 0 {
        proof {
            assert(parse_vault_names(update@) == Some(Seq::<(Seq<u8>, Seq<u8>)>::empty()));
        }
        return Ok(());
    }
    let names = match deserialise_vault_names(update) {
        Ok(n) => n,
        Err(e) => {
            return Err(e);
        },
    };
    _process_vault_names(user_id, &names, vnm);
    proof {
        if names_store_wf(store_contents(*old(vnm))) {
            lemma_apply_name_records_wf(store_contents(*old(vnm)), user_id@, names@);
        }
    }
    Ok(())
}

/// Decodes and applies a spreadsheet column-metadata batch.
pub fn _vault_spreadsheet_columns_sync(
    user_id: &Vec<u8>,
    vault_id: &Vec<u8>,
    update: Vec<u8>,
    sc: &mut ByteStore,
) -> (r: Result<(), VaultError>)
    ensures
        match r {
            Ok(_) => parse_columns(update@) matches Some(recs) && store_contents(*final(sc))
                == apply_column_records(
                store_contents(*old(sc)),
                tenant_bytes(user_id@, vault_id@),
                recs,
            ),
            Err(e) => parse_columns(update@) is None && e == VaultError::MalformedInput
                && store_contents(*final(sc)) == store_contents(*old(sc)),
        },
        columns_store_wf(store_contents(*old(sc))) ==> columns_store_wf(
            store_contents(*final(sc)),
        ),
{
    if update.len() == 0 {
        proof {
            assert(parse_columns(update@) == Some(Seq::<(u8, bool, Seq<u8>)>::empty()));
        }
        return Ok(());
    }
    let column_data = match deserialise_column_data(&update) {
        Ok(c) => c,
        Err(e) => {
            return Err(e);
        },
    };
    _process_spreadsheet_columns(user_id, vault_id, &column_data, sc);
    proof {
        if columns_store_wf(store_contents(*old(sc))) {
            lemma_apply_column_records_wf(
                store_contents(*old(sc)),
                tenant_bytes(user_id@, vault_id@),
                column_data@,
            );
        }
    }
    Ok(())
}

/// Decodes and applies a spreadsheet cell batch.
pub fn _vault_spreadsheet_sync(
    user_id: &Vec<u8>,
    vault_id: &Vec<u8>,
    update: Vec<u8>,
    sm: &mut ByteStore,
) -> (r: Result<(), VaultError>)
    ensures
        match r {
            Ok(_) => parse_cells(update@) matches Some(recs) && store_contents(*final(sm))
                == apply_cell_records(
                store_contents(*old(sm)),
                tenant_bytes(user_id@, vault_id@),
                recs,
            ),
            Err(e) => parse_cells(update@) is None && e == VaultError::MalformedInput
                && store_contents(*final(sm)) == store_contents(*old(sm)),
        },
        cells_store_wf(store_contents(*old(sm))) ==> cells_store_wf(store_contents(*final(sm))),
{
    if update.len() == 0 {
        proof {
            assert(parse_cells(update@) == Some(Seq::<(u8, u8, Seq<u8>)>::empty()));
        }
        return Ok(());
    }
    let cell_data = match deserialise_spreadsheet(update) {
        Ok(c) => c,
        Err(e) => {
            return Err(e);
        },
    };
    _process_spreadsheet(user_id, vault_id, &cell_data, sm);
    proof {
        if cells_store_wf(store_contents(*old(sm))) {
            lemma_apply_cell_records_wf(
                store_contents(*old(sm)),
                tenant_bytes(user_id@, vault_id@),
                cell_data@,
            );
        }
    }
    Ok(())
}

/// Decodes and applies a coordinate-delete batch against the spreadsheet
/// store.
pub fn _vault_spreadsheet_delete(
    user_id: &Vec<u8>,
    vault_id: &Vec<u8>,
    update: Vec<u8>,
    sm: &mut ByteStore,
) -> (r: Result<(), VaultError>)
    ensures
        match r {
            Ok(_) => parse_delete_cells(update@) matches Some(recs) && store_contents(*final(sm))
                == apply_delete_records(
                store_contents(*old(sm)),
                tenant_bytes(user_id@, vault_id@),
                recs,
            ),
            Err(e) => parse_delete_cells(update@) is None && e == VaultError::MalformedInput
                && store_contents(*final(sm)) == store_contents(*old(sm)),
        },
        cells_store_wf(store_contents(*old(sm))) ==> cells_store_wf(store_contents(*final(sm))),
{
    if update.len() == 0 {
        proof {
            assert(parse_delete_cells(update@) == Some(Seq::<(u8, u8)>::empty()));
        }
        return Ok(());
    }
    let deletes = match deserialise_delete_cells(update) {
        Ok(d) => d,
        Err(e) => {
            return Err(e);
        },
    };
    let ghost t = tenant_bytes(user_id@, vault_id@);
    let mut i: usize = 0;
    proof {
        assert(deletes@.take(0) =~= Seq::<(u8, u8)>::empty());
    }
    while i < deletes.cells.len()
        invariant
            i <= deletes.cells@.len(),
            store_contents(*sm) == apply_delete_records(
                store_contents(*old(sm)),
                t,
                deletes@.take(i as int),
            ),
        decreases deletes.cells@.len() - i,
    {
        let cell = &deletes.cells[i];
        let key = SpreadsheetKey::new(user_id, vault_id, cell.x, cell.y);
        let key_bytes = key.to_bytes();
        sm.remove(&key_bytes);
        proof {
            assert(deletes@[i as int] == deletes.cells@[i as int]@);
            lemma_apply_delete_records_push(
                store_contents(*old(sm)),
                t,
                deletes@.take(i as int),
                deletes@[i as int],
            );
            assert(deletes@.take(i as int).push(deletes@[i as int]) =~= deletes@.take(i + 1));
        }
        i = i + 1;
    }
    proof {
        assert(deletes@.take(deletes.cells@.len() as int) =~= deletes@);
        if cells_store_wf(store_contents(*old(sm))) {
            lemma_apply_delete_records_wf(store_contents(*old(sm)), t, deletes@);
        }
    }
    Ok(())
}

/// Decodes and applies a login-cell batch.
pub fn _login_data_sync(
    user_id: &Vec<u8>,
    vault_id: &Vec<u8>,
    update: Vec<u8>,
    lm: &mut ByteStore,
) -> (r: Result<(), VaultError>)
    ensures
        match r {
            Ok(_) => parse_cells(update@) matches Some(recs) && store_contents(*final(lm))
                == apply_cell_records(
                store_contents(*old(lm)),
                tenant_bytes(user_id@, vault_id@),
                recs,
            ),
            Err(e) => parse_cells(update@) is None && e == VaultError::MalformedInput
                && store_contents(*final(lm)) == store_contents(*old(lm)),
        },
        cells_store_wf(store_contents(*old(lm))) ==> cells_store_wf(store_contents(*final(lm))),
{
    if update.len() == 0 {
        proof {
            assert(parse_cells(update@) == Some(Seq::<(u8, u8, Seq<u8>)>::empty()));
        }
        return Ok(());
    }
    let login_data = match deserialise_login_data_sync(update) {
        Ok(c) => c,
        Err(e) => {
            return Err(e);
        },
    };
    _process_login_data(user_id, vault_id, &login_data, lm);
    proof {
        if cells_store_wf(store_contents(*old(lm))) {
            lemma_apply_cell_records_wf(
                store_contents(*old(lm)),
                tenant_bytes(user_id@, vault_id@),
                login_data@,
            );
        }
    }
    Ok(())
}

/// Decodes and applies a coordinate-delete batch against the login-cell
/// store.
pub fn _login_data_deletes(
    user_id: &Vec<u8>,
    vault_id: &Vec<u8>,
    update: Vec<u8>,
    lm: &mut ByteStore,
) -> (r: Result<(), VaultError>)
    ensures
        match r {
            Ok(_) => parse_delete_cells(update@) matches Some(recs) && store_contents(*final(lm))
                == apply_delete_records(
                store_contents(*old(lm)),
                tenant_bytes(user_id@, vault_id@),
                recs,
            ),
            Err(e) => parse_delete_cells(update@) is None && e == VaultError::MalformedInput
                && store_contents(*final(lm)) == store_contents(*old(lm)),
        },
        cells_store_wf(store_contents(*old(lm))) ==> cells_store_wf(store_contents(*final(lm))),
{
    _vault_spreadsheet_delete(user_id, vault_id, update, lm)
}

/// Decodes and applies a secure-note batch.
pub fn _secret_notes_sync(
    user_id: &Vec<u8>,
    vault_id: &Vec<u8>,
    update: Vec<u8>,
    nm: &mut ByteStore,
) -> (r: Result<(), VaultError>)
    ensures
        match r {
            Ok(_) => parse_notes(update@) matches Some(recs) && store_contents(*final(nm))
                == apply_note_records(
                store_contents(*old(nm)),
                tenant_bytes(user_id@, vault_id@),
                recs,
            ),
            Err(e) => parse_notes(update@) is None && e == VaultError::MalformedInput
                && store_contents(*final(nm)) == store_contents(*old(nm)),
        },
        notes_store_wf(store_contents(*old(nm))) ==> notes_store_wf(store_contents(*final(nm))),
{
    if update.len() == 0 {
        proof {
            assert(parse_notes(update@) == Some(Seq::<(u8, Seq<u8>, Seq<u8>)>::empty()));
        }
        return Ok(());
    }
    let notes = match deserialise_secure_notes(update) {
        Ok(n) => n,
        Err(e) => {
            return Err(e);
        },
    };
    _process_notes_data(user_id, vault_id, &notes, nm);
    proof {
        if notes_store_wf(store_contents(*old(nm))) {
            assert forall|i: int| 0 <= i < notes@.len() implies ((#[trigger] notes@[i]).1.len()
                <= 255) by {
                assert(notes@[i] == notes.notes@[i]@);
            }
            lemma_apply_note_records_wf(
                store_contents(*old(nm)),
                tenant_bytes(user_id@, vault_id@),
                notes@,
            );
        }
    }
    Ok(())
}

// ---------------------------------------------------------------------------
// Cascading deletion: column purges and tenant sweeps
// ---------------------------------------------------------------------------
/// Is `k` the key of a login cell in column `x` of tenant `t`?
pub open spec fn key_matches_column(k: Seq<u8>, t: Seq<u8>, x: u8) -> bool {
    k.len() >= 2 && k[0] == x && k.skip(2) == t
}

/// The cell store with every cell of column `x` and tenant `t` removed.
pub open spec fn purge_login_column(m: Map<Seq<u8>, Seq<u8>>, t: Seq<u8>, x: u8) -> Map<
    Seq<u8>,
    Seq<u8>,
> {
    Map::new(|k: Seq<u8>| m.contains_key(k) && !key_matches_column(k, t, x), |k: Seq<u8>| m[k])
}

/// Does `k` belong to tenant `t` in a store whose keys put `skip` schema
/// bytes before the tenant?
pub open spec fn key_matches_tenant(k: Seq<u8>, t: Seq<u8>, skip: int) -> bool {
    k.len() >= skip && k.skip(skip) == t
}

/// The store with every record of tenant `t` removed.
pub open spec fn purge_tenant(m: Map<Seq<u8>, Seq<u8>>, t: Seq<u8>, skip: int) -> Map<
    Seq<u8>,
    Seq<u8>,
> {
    Map::new(|k: Seq<u8>| m.contains_key(k) && !key_matches_tenant(k, t, skip), |k: Seq<u8>| m[k])
}

/// The contents of `m` with every key in `gone` removed.
pub open spec fn remove_key_set(m: Map<Seq<u8>, Seq<u8>>, gone: Seq<Seq<u8>>) -> Map<
    Seq<u8>,
    Seq<u8>,
> {
    Map::new(|k: Seq<u8>| m.contains_key(k) && !gone.contains(k), |k: Seq<u8>| m[k])
}

/// Removes every collected key from a store: the second pass of the
/// collect-then-remove pattern (the store does not support removal while it
/// is being iterated).
fn remove_keys(store: &mut ByteStore, keys: &Vec<Vec<u8>>)
    ensures
        store_contents(*final(store)) == remove_key_set(
            store_contents(*old(store)),
            keys@.map_values(|v: Vec<u8>| v@),
        ),
{
    let ghost m0 = store_contents(*old(store));
    let ghost kv = keys@.map_values(|v: Vec<u8>| v@);
    let mut j: usize = 0;
    proof {
        assert(store_contents(*store) =~= remove_key_set(m0, kv.take(0)));
    }
    while j < keys.len()
        invariant
            j <= keys@.len(),
            store_contents(*store) == remove_key_set(m0, kv.take(j as int)),
        decreases keys@.len() - j,
    {
        store.remove(&keys[j]);
        proof {
            broadcast use vstd::seq_lib::lemma_seq_contains_after_push;

            assert(kv[j as int] == keys@[j as int]@);
            assert(kv.take(j + 1) =~= kv.take(j as int).push(kv[j as int]));
            assert(store_contents(*store) =~= remove_key_set(m0, kv.take(j + 1)));
        }
        j = j + 1;
    }
    proof {
        assert(kv.take(keys@.len() as int) =~= kv);
    }
}

/// First pass of a column cascade: collects every login-cell key of column
/// `x` and the given tenant.
fn collect_column_cell_keys(store: &ByteStore, tenant: &Vec<u8>, x: u8) -> (r: Vec<Vec<u8>>)
    ensures
        forall|p: int|
            0 <= p < r@.len() ==> key_matches_column(#[trigger] r@[p]@, tenant@, x)
                && store_contents(*store).contains_key(r@[p]@),
        forall|k: Seq<u8>|
            #[trigger] store_contents(*store).contains_key(k) && key_matches_column(k, tenant@, x)
                ==> r@.map_values(|v: Vec<u8>| v@).contains(k),
{
    let entries = store.entries();
    let mut r: Vec<Vec<u8>> = Vec::new();
    let mut i: usize = 0;
    while i < entries.len()
        invariant
            i <= entries@.len(),
            forall|p: int|
                0 <= p < r@.len() ==> key_matches_column(#[trigger] r@[p]@, tenant@, x)
                    && store_contents(*store).contains_key(r@[p]@),
            forall|q: int|
                0 <= q < i && key_matches_column(#[trigger] entries@[q].0@, tenant@, x)
                    ==> r@.map_values(|v: Vec<u8>| v@).contains(entries@[q].0@),
        decreases entries@.len() - i,
    {
        let entry_key = &entries[i].0;
        if entry_key.len() >= 2 && entry_key[0] == x && suffix_matches(entry_key, 2, tenant) {
            let ghost prev = r@;
            r.push(bytes_range(entry_key, 0, entry_key.len()));
            proof {
                broadcast use vstd::seq_lib::lemma_seq_contains_after_push;

                assert(entry_key@.subrange(0, entry_key@.len() as int) =~= entry_key@);
                assert(r@[prev.len() as int]@ == entries@[i as int].0@);
                assert(store_contents(*store).contains_pair(
                    entries@[i as int].0@,
                    entries@[i as int].1@,
                ));
                assert(r@.map_values(|v: Vec<u8>| v@) =~= prev.map_values(|v: Vec<u8>| v@).push(
                    entries@[i as int].0@,
                ));
            }
        }
        i = i + 1;
    }
    proof {
        assert forall|k: Seq<u8>|
            #[trigger] store_contents(*store).contains_key(k) && key_matches_column(
                k,
                tenant@,
                x,
            ) implies r@.map_values(|v: Vec<u8>| v@).contains(k) by {
            let q = choose|q: int| 0 <= q < entries@.len() && entries@[q].0@ == k;
            assert(key_matches_column(entries@[q].0@, tenant@, x));
        }
    }
    r
}

/// First pass of a tenant sweep: collects every key of the store whose
/// bytes, after `skip` leading schema bytes, are exactly the tenant's.
fn collect_tenant_keys(store: &ByteStore, tenant: &Vec<u8>, skip: usize) -> (r: Vec<Vec<u8>>)
    ensures
        forall|p: int|
            0 <= p < r@.len() ==> key_matches_tenant(#[trigger] r@[p]@, tenant@, skip as int)
                && store_contents(*store).contains_key(r@[p]@),
        forall|k: Seq<u8>|
            #[trigger] store_contents(*store).contains_key(k) && key_matches_tenant(
                k,
                tenant@,
                skip as int,
            ) ==> r@.map_values(|v: Vec<u8>| v@).contains(k),
{
    let entries = store.entries();
    let mut r: Vec<Vec<u8>> = Vec::new();
    let mut i: usize = 0;
    while i < entries.len()
        invariant
            i <= entries@.len(),
            forall|p: int|
                0 <= p < r@.len() ==> key_matches_tenant(#[trigger] r@[p]@, tenant@, skip as int)
                    && store_contents(*store).contains_key(r@[p]@),
            forall|q: int|
                0 <= q < i && key_matches_tenant(#[trigger] entries@[q].0@, tenant@, skip as int)
                    ==> r@.map_values(|v: Vec<u8>| v@).contains(entries@[q].0@),
        decreases entries@.len() - i,
    {
        let entry_key = &entries[i].0;
        if suffix_matches(entry_key, skip, tenant) {
            let ghost prev = r@;
            r.push(bytes_range(entry_key, 0, entry_key.len()));
            proof {
                broadcast use vstd::seq_lib::lemma_seq_contains_after_push;

                assert(entry_key@.subrange(0, entry_key@.len() as int) =~= entry_key@);
                assert(r@[prev.len() as int]@ == entries@[i as int].0@);
                assert(store_contents(*store).contains_pair(
                    entries@[i as int].0@,
                    entries@[i as int].1@,
                ));
                assert(r@.map_values(|v: Vec<u8>| v@) =~= prev.map_values(|v: Vec<u8>| v@).push(
                    entries@[i as int].0@,
                ));
            }
        }
        i = i + 1;
    }
    proof {
        assert forall|k: Seq<u8>|
            #[trigger] store_contents(*store).contains_key(k) && key_matches_tenant(
                k,
                tenant@,
                skip as int,
            ) implies r@.map_values(|v: Vec<u8>| v@).contains(k) by {
            let q = choose|q: int| 0 <= q < entries@.len() && entries@[q].0@ == k;
            assert(key_matches_tenant(entries@[q].0@, tenant@, skip as int));
        }
    }
    r
}

/// Deletes every login cell of column `x` for the tenant: the cascade that
/// keeps column metadata and cells from diverging. Two passes, because the
/// store cannot be mutated while it is iterated.
pub fn _delete_login_identities(user_id: &Vec<u8>, vault_id: &Vec<u8>, x: u8, lm: &mut ByteStore)
    ensures
        store_contents(*final(lm)) == purge_login_column(
            store_contents(*old(lm)),
            tenant_bytes(user_id@, vault_id@),
            x,
        ),
{
    let mut principals: Vec<u8> = Vec::new();
    push_all(&mut principals, user_id);
    push_all(&mut principals, vault_id);
    let keys_to_delete = collect_column_cell_keys(lm, &principals, x);
    remove_keys(lm, &keys_to_delete);
    proof {
        let m0 = store_contents(*old(lm));
        let t = tenant_bytes(user_id@, vault_id@);
        let kv = keys_to_delete@.map_values(|v: Vec<u8>| v@);
        assert forall|k: Seq<u8>| #[trigger] m0.contains_key(k) implies (kv.contains(k)
            <==> key_matches_column(k, t, x)) by {
            if kv.contains(k) {
                let p = choose|p: int| 0 <= p < kv.len() && kv[p] == k;
                assert(keys_to_delete@[p]@ == k);
            }
        }
        assert(store_contents(*lm) =~= purge_login_column(m0, t, x));
    }
}

/// Sweeps one store clean of a tenant's records, collect-then-remove.
/// `skip` says how many schema bytes stand before the tenant in this store's
/// keys: two for cell stores, one for column and note stores, none for vault
/// names.
pub fn purge_tenant_records(store: &mut ByteStore, tenant: &Vec<u8>, skip: usize)
    ensures
        store_contents(*final(store)) == purge_tenant(
            store_contents(*old(store)),
            tenant@,
            skip as int,
        ),
{
    let keys_to_delete = collect_tenant_keys(store, tenant, skip);
    remove_keys(store, &keys_to_delete);
    proof {
        let m0 = store_contents(*old(store));
        let kv = keys_to_delete@.map_values(|v: Vec<u8>| v@);
        assert forall|k: Seq<u8>| #[trigger] m0.contains_key(k) implies (kv.contains(k)
            <==> key_matches_tenant(k, tenant@, skip as int)) by {
            if kv.contains(k) {
                let p = choose|p: int| 0 <= p < kv.len() && kv[p] == k;
                assert(keys_to_delete@[p]@ == k);
            }
        }
        assert(store_contents(*store) =~= purge_tenant(m0, tenant@, skip as int));
    }
}

// ---------------------------------------------------------------------------
// Login-column metadata: upsert, tombstone-with-cascade
// ---------------------------------------------------------------------------
/// One metadata record against the column store and the cell store: an empty
/// label removes the column's metadata and cascades to its cells; anything
/// else inserts or overwrites the label.
pub open spec fn apply_metadata_record(
    cols: Map<Seq<u8>, Seq<u8>>,
    cells: Map<Seq<u8>, Seq<u8>>,
    t: Seq<u8>,
    rec: (u8, Seq<u8>),
) -> (Map<Seq<u8>, Seq<u8>>, Map<Seq<u8>, Seq<u8>>) {
    if rec.1.len() == 0 {
        (cols.remove(column_key_bytes(rec.0, t)), purge_login_column(cells, t, rec.0))
    } else {
        (cols.insert(column_key_bytes(rec.0, t), rec.1), cells)
    }
}

/// A whole metadata batch, first record first.
pub open spec fn apply_metadata_records(
    cols: Map<Seq<u8>, Seq<u8>>,
    cells: Map<Seq<u8>, Seq<u8>>,
    t: Seq<u8>,
    recs: Seq<(u8, Seq<u8>)>,
) -> (Map<Seq<u8>, Seq<u8>>, Map<Seq<u8>, Seq<u8>>)
    decreases recs.len(),
{
    if recs.len() == 0 {
        (cols, cells)
    } else {
        let next = apply_metadata_record(cols, cells, t, recs[0]);
        apply_metadata_records(next.0, next.1, t, recs.skip(1))
    }
}

/// A metadata-delete batch: every listed column loses its metadata and, by
/// cascade, all of its cells; the record's label plays no part.
pub open spec fn apply_metadata_delete_records(
    cols: Map<Seq<u8>, Seq<u8>>,
    cells: Map<Seq<u8>, Seq<u8>>,
    t: Seq<u8>,
    recs: Seq<(u8, Seq<u8>)>,
) -> (Map<Seq<u8>, Seq<u8>>, Map<Seq<u8>, Seq<u8>>)
    decreases recs.len(),
{
    if recs.len() == 0 {
        (cols, cells)
    } else {
        apply_metadata_delete_records(
            cols.remove(column_key_bytes(recs[0].0, t)),
            purge_login_column(cells, t, recs[0].0),
            t,
            recs.skip(1),
        )
    }
}

pub proof fn lemma_apply_metadata_records_push(
    cols: Map<Seq<u8>, Seq<u8>>,
    cells: Map<Seq<u8>, Seq<u8>>,
    t: Seq<u8>,
    recs: Seq<(u8, Seq<u8>)>,
    rec: (u8, Seq<u8>),
)
    ensures
        apply_metadata_records(cols, cells, t, recs.push(rec)) == apply_metadata_record(
            apply_metadata_records(cols, cells, t, recs).0,
            apply_metadata_records(cols, cells, t, recs).1,
            t,
            rec,
        ),
    decreases recs.len(),
{
    if recs.len() == 0 {
        reveal_with_fuel(apply_metadata_records, 2);
        assert(recs.push(rec)[0] == rec);
        assert(recs.push(rec).skip(1) =~= Seq::<(u8, Seq<u8>)>::empty());
    } else {
        assert(recs.push(rec)[0] == recs[0]);
        assert(recs.push(rec).skip(1) =~= recs.skip(1).push(rec));
        let next = apply_metadata_record(cols, cells, t, recs[0]);
        lemma_apply_metadata_records_push(next.0, next.1, t, recs.skip(1), rec);
    }
}

pub proof fn lemma_apply_metadata_delete_records_push(
    cols: Map<Seq<u8>, Seq<u8>>,
    cells: Map<Seq<u8>, Seq<u8>>,
    t: Seq<u8>,
    recs: Seq<(u8, Seq<u8>)>,
    rec: (u8, Seq<u8>),
)
    ensures
        apply_metadata_delete_records(cols, cells, t, recs.push(rec)) == (
            apply_metadata_delete_records(cols, cells, t, recs).0.remove(
                column_key_bytes(rec.0, t),
            ),
            purge_login_column(apply_metadata_delete_records(cols, cells, t, recs).1, t, rec.0),
        ),
    decreases recs.len(),
{
    if recs.len() == 0 {
        reveal_with_fuel(apply_metadata_delete_records, 2);
        assert(recs.push(rec)[0] == rec);
        assert(recs.push(rec).skip(1) =~= Seq::<(u8, Seq<u8>)>::empty());
    } else {
        assert(recs.push(rec)[0] == recs[0]);
        assert(recs.push(rec).skip(1) =~= recs.skip(1).push(rec));
        lemma_apply_metadata_delete_records_push(
            cols.remove(column_key_bytes(recs[0].0, t)),
            purge_login_column(cells, t, recs[0].0),
            t,
            recs.skip(1),
            rec,
        );
    }
}

pub proof fn lemma_apply_metadata_records_wf(
    cols: Map<Seq<u8>, Seq<u8>>,
    cells: Map<Seq<u8>, Seq<u8>>,
    t: Seq<u8>,
    recs: Seq<(u8, Seq<u8>)>,
)
    requires
        columns_store_wf(cols),
        cells_store_wf(cells),
    ensures
        columns_store_wf(apply_metadata_records(cols, cells, t, recs).0),
        cells_store_wf(apply_metadata_records(cols, cells, t, recs).1),
    decreases recs.len(),
{
    if recs.len() > 0 {
        let next = apply_metadata_record(cols, cells, t, recs[0]);
        assert forall|k: Seq<u8>| #[trigger] next.1.contains_key(k) implies k.len() >= 2
            && next.1[k].len() >= 1 by {
            assert(cells.contains_key(k));
        }
        lemma_apply_metadata_records_wf(next.0, next.1, t, recs.skip(1));
    }
}

pub proof fn lemma_apply_metadata_delete_records_wf(
    cols: Map<Seq<u8>, Seq<u8>>,
    cells: Map<Seq<u8>, Seq<u8>>,
    t: Seq<u8>,
    recs: Seq<(u8, Seq<u8>)>,
)
    requires
        columns_store_wf(cols),
        cells_store_wf(cells),
    ensures
        columns_store_wf(apply_metadata_delete_records(cols, cells, t, recs).0),
        cells_store_wf(apply_metadata_delete_records(cols, cells, t, recs).1),
    decreases recs.len(),
{
    if recs.len() > 0 {
        let cells1 = purge_login_column(cells, t, recs[0].0);
        assert forall|k: Seq<u8>| #[trigger] cells1.contains_key(k) implies k.len() >= 2
            && cells1[k].len() >= 1 by {
            assert(cells.contains_key(k));
        }
        lemma_apply_metadata_delete_records_wf(
            cols.remove(column_key_bytes(recs[0].0, t)),
            cells1,
            t,
            recs.skip(1),
        );
    }
}

/// Applies a decoded metadata batch: upserts labels, and for each tombstone
/// removes the column's metadata and cascades to its login cells.
pub fn _process_metadata(
    user_id: &Vec<u8>,
    vault_id: &Vec<u8>,
    metadata: &LoginMetadata,
    lc: &mut ByteStore,
    lm: &mut ByteStore,
)
    ensures
        store_contents(*final(lc)) == apply_metadata_records(
            store_contents(*old(lc)),
            store_contents(*old(lm)),
            tenant_bytes(user_id@, vault_id@),
            metadata@,
        ).0,
        store_contents(*final(lm)) == apply_metadata_records(
            store_contents(*old(lc)),
            store_contents(*old(lm)),
            tenant_bytes(user_id@, vault_id@),
            metadata@,
        ).1,
{
    let ghost t = tenant_bytes(user_id@, vault_id@);
    let mut i: usize = 0;
    proof {
        assert(metadata@.take(0) =~= Seq::<(u8, Seq<u8>)>::empty());
    }
    while i < metadata.metadatas.len()
        invariant
            i <= metadata.metadatas@.len(),
            store_contents(*lc) == apply_metadata_records(
                store_contents(*old(lc)),
                store_contents(*old(lm)),
                t,
                metadata@.take(i as int),
            ).0,
            store_contents(*lm) == apply_metadata_records(
                store_contents(*old(lc)),
                store_contents(*old(lm)),
                t,
                metadata@.take(i as int),
            ).1,
        decreases metadata.metadatas@.len() - i,
    {
        let meta = &metadata.metadatas[i];
        let column_key = LoginSiteKey::new(user_id, vault_id, meta.header.x);
        let key_bytes = column_key.to_bytes();
        if meta.data.len() == 0 {
            lc.remove(&key_bytes);
            _delete_login_identities(user_id, vault_id, meta.header.x, lm);
        } else {
            let column_name = bytes_range(&meta.data, 0, meta.data.len());
            lc.insert(key_bytes, column_name);
        }
        proof {
            assert(meta.data@.subrange(0, meta.data@.len() as int) =~= meta.data@);
            assert(metadata@[i as int] == metadata.metadatas@[i as int]@);
            lemma_apply_metadata_records_push(
                store_contents(*old(lc)),
                store_contents(*old(lm)),
                t,
                metadata@.take(i as int),
                metadata@[i as int],
            );
            assert(metadata@.take(i as int).push(metadata@[i as int]) =~= metadata@.take(i + 1));
        }
        i = i + 1;
    }
    proof {
        assert(metadata@.take(metadata.metadatas@.len() as int) =~= metadata@);
    }
}

/// Decodes and applies a metadata-only login sync.
pub fn _login_metadata_sync(
    user_id: &Vec<u8>,
    vault_id: &Vec<u8>,
    update: Vec<u8>,
    lc: &mut ByteStore,
    lm: &mut ByteStore,
) -> (r: Result<(), VaultError>)
    ensures
        match r {
            Ok(_) => parse_login_metadata(update@) matches Some(recs) && store_contents(
                *final(lc),
            ) == apply_metadata_records(
                store_contents(*old(lc)),
                store_contents(*old(lm)),
                tenant_bytes(user_id@, vault_id@),
                recs,
            ).0 && store_contents(*final(lm)) == apply_metadata_records(
                store_contents(*old(lc)),
                store_contents(*old(lm)),
                tenant_bytes(user_id@, vault_id@),
                recs,
            ).1,
            Err(e) => parse_login_metadata(update@) is None && e == VaultError::MalformedInput
                && store_contents(*final(lc)) == store_contents(*old(lc)) && store_contents(
                *final(lm),
            ) == store_contents(*old(lm)),
        },
        columns_store_wf(store_contents(*old(lc))) && cells_store_wf(store_contents(*old(lm)))
            ==> columns_store_wf(store_contents(*final(lc))) && cells_store_wf(
            store_contents(*final(lm)),
        ),
{
    if update.len() == 0 {
        proof {
            assert(parse_login_metadata(update@) == Some(Seq::<(u8, Seq<u8>)>::empty()));
        }
        return Ok(());
    }
    let login_data = match deserialise_login_metadata(update) {
        Ok(m) => m,
        Err(e) => {
            return Err(e);
        },
    };
    _process_metadata(user_id, vault_id, &login_data, lc, lm);
    proof {
        if columns_store_wf(store_contents(*old(lc))) && cells_store_wf(
            store_contents(*old(lm)),
        ) {
            lemma_apply_metadata_records_wf(
                store_contents(*old(lc)),
                store_contents(*old(lm)),
                tenant_bytes(user_id@, vault_id@),
                login_data@,
            );
        }
    }
    Ok(())
}

/// Decodes a metadata batch and deletes every listed column: its metadata
/// and, by cascade, all of its login cells.
pub fn _login_metadata_delete(
    user_id: &Vec<u8>,
    vault_id: &Vec<u8>,
    update: Vec<u8>,
    lc: &mut ByteStore,
    lm: &mut ByteStore,
) -> (r: Result<(), VaultError>)
    ensures
        match r {
            Ok(_) => parse_login_metadata(update@) matches Some(recs) && store_contents(
                *final(lc),
            ) == apply_metadata_delete_records(
                store_contents(*old(lc)),
                store_contents(*old(lm)),
                tenant_bytes(user_id@, vault_id@),
                recs,
            ).0 && store_contents(*final(lm)) == apply_metadata_delete_records(
                store_contents(*old(lc)),
                store_contents(*old(lm)),
                tenant_bytes(user_id@, vault_id@),
                recs,
            ).1,
            Err(e) => parse_login_metadata(update@) is None && e == VaultError::MalformedInput
                && store_contents(*final(lc)) == store_contents(*old(lc)) && store_contents(
                *final(lm),
            ) == store_contents(*old(lm)),
        },
        columns_store_wf(store_contents(*old(lc))) && cells_store_wf(store_contents(*old(lm)))
            ==> columns_store_wf(store_contents(*final(lc))) && cells_store_wf(
            store_contents(*final(lm)),
        ),
{
    if update.len() == 0 {
        proof {
            assert(parse_login_metadata(update@) == Some(Seq::<(u8, Seq<u8>)>::empty()));
        }
        return Ok(());
    }
    let deletes = match deserialise_login_metadata(update) {
        Ok(m) => m,
        Err(e) => {
            return Err(e);
        },
    };
    let ghost t = tenant_bytes(user_id@, vault_id@);
    let mut i: usize = 0;
    proof {
        assert(deletes@.take(0) =~= Seq::<(u8, Seq<u8>)>::empty());
    }
    while i < deletes.metadatas.len()
        invariant
            i <= deletes.metadatas@.len(),
            store_contents(*lc) == apply_metadata_delete_records(
                store_contents(*old(lc)),
                store_contents(*old(lm)),
                t,
                deletes@.take(i as int),
            ).0,
            store_contents(*lm) == apply_metadata_delete_records(
                store_contents(*old(lc)),
                store_contents(*old(lm)),
                t,
                deletes@.take(i as int),
            ).1,
        decreases deletes.metadatas@.len() - i,
    {
        let cell = &deletes.metadatas[i];
        let column_key = LoginSiteKey::new(user_id, vault_id, cell.header.x);
        let key_bytes = column_key.to_bytes();
        lc.remove(&key_bytes);
        _delete_login_identities(user_id, vault_id, column_key.x, lm);
        proof {
            assert(deletes@[i as int] == deletes.metadatas@[i as int]@);
            lemma_apply_metadata_delete_records_push(
                store_contents(*old(lc)),
                store_contents(*old(lm)),
                t,
                deletes@.take(i as int),
                deletes@[i as int],
            );
            assert(deletes@.take(i as int).push(deletes@[i as int]) =~= deletes@.take(i + 1));
        }
        i = i + 1;
    }
    proof {
        assert(deletes@.take(deletes.metadatas@.len() as int) =~= deletes@);
        if columns_store_wf(store_contents(*old(lc))) && cells_store_wf(
            store_contents(*old(lm)),
        ) {
            lemma_apply_metadata_delete_records_wf(
                store_contents(*old(lc)),
                store_contents(*old(lm)),
                t,
                deletes@,
            );
        }
    }
    Ok(())
}

/// Decodes and applies a full login sync: the metadata segment first (with
/// its cascades), then the login cells.
pub fn _login_full_sync(
    user_id: &Vec<u8>,
    vault_id: &Vec<u8>,
    update: Vec<u8>,
    lc: &mut ByteStore,
    lm: &mut ByteStore,
) -> (r: Result<(), VaultError>)
    ensures
        match r {
            Ok(_) => (update@.len() == 0 && store_contents(*final(lc)) == store_contents(*old(lc))
                && store_contents(*final(lm)) == store_contents(*old(lm))) || (parse_login_data(
                update@,
            ) matches Some(ld) && store_contents(*final(lc)) == apply_metadata_records(
                store_contents(*old(lc)),
                store_contents(*old(lm)),
                tenant_bytes(user_id@, vault_id@),
                ld.0,
            ).0 && store_contents(*final(lm)) == apply_cell_records(
                apply_metadata_records(
                    store_contents(*old(lc)),
                    store_contents(*old(lm)),
                    tenant_bytes(user_id@, vault_id@),
                    ld.0,
                ).1,
                tenant_bytes(user_id@, vault_id@),
                ld.1,
            )),
            Err(e) => update@.len() > 0 && parse_login_data(update@) is None && e
                == VaultError::MalformedInput && store_contents(*final(lc)) == store_contents(
                *old(lc),
            ) && store_contents(*final(lm)) == store_contents(*old(lm)),
        },
        columns_store_wf(store_contents(*old(lc))) && cells_store_wf(store_contents(*old(lm)))
            ==> columns_store_wf(store_contents(*final(lc))) && cells_store_wf(
            store_contents(*final(lm)),
        ),
{
    if update.len() == 0 {
        return Ok(());
    }
    let login_data = match deserialise_login_full_sync(update) {
        Ok(ld) => ld,
        Err(e) => {
            return Err(e);
        },
    };
    _process_metadata(user_id, vault_id, &login_data.metadata, lc, lm);
    _process_login_data(user_id, vault_id, &login_data.cells, lm);
    proof {
        if columns_store_wf(store_contents(*old(lc))) && cells_store_wf(
            store_contents(*old(lm)),
        ) {
            let t = tenant_bytes(user_id@, vault_id@);
            lemma_apply_metadata_records_wf(
                store_contents(*old(lc)),
                store_contents(*old(lm)),
                t,
                login_data.metadata@,
            );
            lemma_apply_cell_records_wf(
                apply_metadata_records(
                    store_contents(*old(lc)),
                    store_contents(*old(lm)),
                    t,
                    login_data.metadata@,
                ).1,
                t,
                login_data.cells@,
            );
        }
    }
    Ok(())
}

// ---------------------------------------------------------------------------
// Whole-vault deletion
// ---------------------------------------------------------------------------
pub proof fn lemma_purge_tenant_cells_wf(m: Map<Seq<u8>, Seq<u8>>, t: Seq<u8>, skip: int)
    requires
        cells_store_wf(m),
    ensures
        cells_store_wf(purge_tenant(m, t, skip)),
{
    assert forall|k: Seq<u8>| #[trigger] purge_tenant(m, t, skip).contains_key(k) implies k.len()
        >= 2 && purge_tenant(m, t, skip)[k].len() >= 1 by {
        assert(m.contains_key(k));
    }
}

pub proof fn lemma_purge_tenant_columns_wf(m: Map<Seq<u8>, Seq<u8>>, t: Seq<u8>, skip: int)
    requires
        columns_store_wf(m),
    ensures
        columns_store_wf(purge_tenant(m, t, skip)),
{
    assert forall|k: Seq<u8>| #[trigger] purge_tenant(m, t, skip).contains_key(k) implies k.len()
        >= 1 && purge_tenant(m, t, skip)[k].len() >= 1 by {
        assert(m.contains_key(k));
    }
}

pub proof fn lemma_purge_tenant_notes_wf(m: Map<Seq<u8>, Seq<u8>>, t: Seq<u8>, skip: int)
    requires
        notes_store_wf(m),
    ensures
        notes_store_wf(purge_tenant(m, t, skip)),
{
    assert forall|k: Seq<u8>| #[trigger] purge_tenant(m, t, skip).contains_key(k) implies k.len()
        >= 1 && purge_tenant(m, t, skip)[k].len() >= 1 && 1 <= purge_tenant(m, t, skip)[k][0]
        && purge_tenant(m, t, skip)[k][0] + 1 <= purge_tenant(m, t, skip)[k].len() by {
        assert(m.contains_key(k));
    }
}

pub proof fn lemma_purge_tenant_names_wf(m: Map<Seq<u8>, Seq<u8>>, t: Seq<u8>, skip: int)
    requires
        names_store_wf(m),
    ensures
        names_store_wf(purge_tenant(m, t, skip)),
{
    assert forall|k: Seq<u8>| #[trigger] purge_tenant(m, t, skip).contains_key(k) implies
        purge_tenant(m, t, skip)[k].len() >= 1 by {
        assert(m.contains_key(k));
    }
}

/// Sweeps all six entity stores clean of one tenant's records.
pub fn _process_delete_vault(principals: &Vec<u8>, state: &mut GeneralState)
    ensures
        store_contents(final(state).logins_columns) == purge_tenant(
            store_contents(old(state).logins_columns),
            principals@,
            1,
        ),
        store_contents(final(state).spreadsheet_columns) == purge_tenant(
            store_contents(old(state).spreadsheet_columns),
            principals@,
            1,
        ),
        store_contents(final(state).spreadsheet_map) == purge_tenant(
            store_contents(old(state).spreadsheet_map),
            principals@,
            2,
        ),
        store_contents(final(state).logins_map) == purge_tenant(
            store_contents(old(state).logins_map),
            principals@,
            2,
        ),
        store_contents(final(state).notes_map) == purge_tenant(
            store_contents(old(state).notes_map),
            principals@,
            1,
        ),
        store_contents(final(state).vault_names_map) == purge_tenant(
            store_contents(old(state).vault_names_map),
            principals@,
            0,
        ),
        store_contents(final(state).key_management) == store_contents(old(state).key_management),
        old(state).wf() ==> final(state).wf(),
{
    purge_tenant_records(&mut state.logins_columns, principals, 1);
    purge_tenant_records(&mut state.spreadsheet_columns, principals, 1);
    purge_tenant_records(&mut state.spreadsheet_map, principals, 2);
    purge_tenant_records(&mut state.logins_map, principals, 2);
    purge_tenant_records(&mut state.notes_map, principals, 1);
    purge_tenant_records(&mut state.vault_names_map, principals, 0);
    proof {
        if old(state).wf() {
            lemma_purge_tenant_columns_wf(
                store_contents(old(state).logins_columns),
                principals@,
                1,
            );
            lemma_purge_tenant_columns_wf(
                store_contents(old(state).spreadsheet_columns),
                principals@,
                1,
            );
            lemma_purge_tenant_cells_wf(store_contents(old(state).spreadsheet_map), principals@, 2);
            lemma_purge_tenant_cells_wf(store_contents(old(state).logins_map), principals@, 2);
            lemma_purge_tenant_notes_wf(store_contents(old(state).notes_map), principals@, 1);
            lemma_purge_tenant_names_wf(store_contents(old(state).vault_names_map), principals@, 0);
        }
    }
}

/// Deletes every record of one (owner, vault) tenant, across all six stores.
pub fn _delete_vault(user_id: &Vec<u8>, vault_id: &Vec<u8>, state: &mut GeneralState)
    ensures
        store_contents(final(state).logins_columns) == purge_tenant(
            store_contents(old(state).logins_columns),
            tenant_bytes(user_id@, vault_id@),
            1,
        ),
        store_contents(final(state).spreadsheet_columns) == purge_tenant(
            store_contents(old(state).spreadsheet_columns),
            tenant_bytes(user_id@, vault_id@),
            1,
        ),
        store_contents(final(state).spreadsheet_map) == purge_tenant(
            store_contents(old(state).spreadsheet_map),
            tenant_bytes(user_id@, vault_id@),
            2,
        ),
        store_contents(final(state).logins_map) == purge_tenant(
            store_contents(old(state).logins_map),
            tenant_bytes(user_id@, vault_id@),
            2,
        ),
        store_contents(final(state).notes_map) == purge_tenant(
            store_contents(old(state).notes_map),
            tenant_bytes(user_id@, vault_id@),
            1,
        ),
        store_contents(final(state).vault_names_map) == purge_tenant(
            store_contents(old(state).vault_names_map),
            tenant_bytes(user_id@, vault_id@),
            0,
        ),
        store_contents(final(state).key_management) == store_contents(old(state).key_management),
        old(state).wf() ==> final(state).wf(),
{
    let mut principals: Vec<u8> = Vec::new();
    push_all(&mut principals, user_id);
    push_all(&mut principals, vault_id);
    _process_delete_vault(&principals, state);
}

// ---------------------------------------------------------------------------
// Composite ("global") sync
// ---------------------------------------------------------------------------
/// Decodes a global-sync bundle and applies all of its segments against one
/// tenant, in order: login cells, secure notes, login metadata (with its
/// cascades), spreadsheet cells, then spreadsheet column metadata.
pub fn _global_sync(
    user_id: &Vec<u8>,
    vault_id: &Vec<u8>,
    update: Vec<u8>,
    state: &mut GeneralState,
) -> (r: Result<(), VaultError>)
    ensures
        match r {
            Ok(_) => (update@.len() == 0 && *final(state) == *old(state)) || (parse_global(update@)
                matches Some(g) && store_contents(final(state).logins_map)
                == apply_metadata_records(
                store_contents(old(state).logins_columns),
                apply_cell_records(
                    store_contents(old(state).logins_map),
                    tenant_bytes(user_id@, vault_id@),
                    g.3.1,
                ),
                tenant_bytes(user_id@, vault_id@),
                g.3.0,
            ).1 && store_contents(final(state).logins_columns) == apply_metadata_records(
                store_contents(old(state).logins_columns),
                apply_cell_records(
                    store_contents(old(state).logins_map),
                    tenant_bytes(user_id@, vault_id@),
                    g.3.1,
                ),
                tenant_bytes(user_id@, vault_id@),
                g.3.0,
            ).0 && store_contents(final(state).notes_map) == apply_note_records(
                store_contents(old(state).notes_map),
                tenant_bytes(user_id@, vault_id@),
                g.2,
            ) && store_contents(final(state).spreadsheet_map) == apply_cell_records(
                store_contents(old(state).spreadsheet_map),
                tenant_bytes(user_id@, vault_id@),
                g.1,
            ) && store_contents(final(state).spreadsheet_columns) == apply_column_records(
                store_contents(old(state).spreadsheet_columns),
                tenant_bytes(user_id@, vault_id@),
                g.0,
            ) && store_contents(final(state).vault_names_map) == store_contents(
                old(state).vault_names_map,
            ) && store_contents(final(state).key_management) == store_contents(
                old(state).key_management,
            )),
            Err(e) => update@.len() > 0 && parse_global(update@) is None && e
                == VaultError::MalformedInput && *final(state) == *old(state),
        },
        old(state).wf() ==> final(state).wf(),
{
    if update.len() == 0 {
        return Ok(());
    }
    let global_data = match deserialise_global_sync(update) {
        Ok(g) => g,
        Err(e) => {
            return Err(e);
        },
    };
    let ghost t = tenant_bytes(user_id@, vault_id@);
    let ghost lm0 = store_contents(old(state).logins_map);
    let ghost lc0 = store_contents(old(state).logins_columns);
    let ghost nm0 = store_contents(old(state).notes_map);
    let ghost sm0 = store_contents(old(state).spreadsheet_map);
    let ghost sc0 = store_contents(old(state).spreadsheet_columns);
    _process_login_data(user_id, vault_id, &global_data.logins.cells, &mut state.logins_map);
    _process_notes_data(user_id, vault_id, &global_data.secure_notes, &mut state.notes_map);
    _process_metadata(
        user_id,
        vault_id,
        &global_data.logins.metadata,
        &mut state.logins_columns,
        &mut state.logins_map,
    );
    _process_spreadsheet(user_id, vault_id, &global_data.spreadsheet, &mut state.spreadsheet_map);
    _process_spreadsheet_columns(
        user_id,
        vault_id,
        &global_data.spreadsheet_columns,
        &mut state.spreadsheet_columns,
    );
    proof {
        if old(state).wf() {
            lemma_apply_cell_records_wf(lm0, t, global_data.logins.cells@);
            assert forall|i: int|
                0 <= i < global_data.secure_notes@.len() implies ((#[trigger] global_data
                .secure_notes@[i]).1.len() <= 255) by {
                assert(global_data.secure_notes@[i] == global_data.secure_notes.notes@[i]@);
            }
            lemma_apply_note_records_wf(nm0, t, global_data.secure_notes@);
            lemma_apply_metadata_records_wf(
                lc0,
                apply_cell_records(lm0, t, global_data.logins.cells@),
                t,
                global_data.logins.metadata@,
            );
            lemma_apply_cell_records_wf(sm0, t, global_data.spreadsheet@);
            lemma_apply_column_records_wf(sc0, t, global_data.spreadsheet_columns@);
        }
    }
    Ok(())
}

// ---------------------------------------------------------------------------
// Whole-user purge
// ---------------------------------------------------------------------------
/// Does key `k` belong to any of the owner's named vaults? `names` is the
/// vault-name store's contents; a name key with the owner's prefix is one of
/// the owner's tenants.
pub open spec fn owner_tenant_matches(
    names: Map<Seq<u8>, Seq<u8>>,
    owner: Seq<u8>,
    k: Seq<u8>,
    skip: int,
) -> bool {
    exists|vk: Seq<u8>|
        #[trigger] names.contains_key(vk) && vk.len() >= owner.len() && vk.take(owner.len() as int)
            == owner && key_matches_tenant(k, vk, skip)
}

/// The store with every record of every named vault of the owner removed.
pub open spec fn purge_user_records(
    m: Map<Seq<u8>, Seq<u8>>,
    names: Map<Seq<u8>, Seq<u8>>,
    owner: Seq<u8>,
    skip: int,
) -> Map<Seq<u8>, Seq<u8>> {
    Map::new(
        |k: Seq<u8>| m.contains_key(k) && !owner_tenant_matches(names, owner, k, skip),
        |k: Seq<u8>| m[k],
    )
}

/// The store with the records of the first `n` enumerated vaults removed.
pub open spec fn purge_names_prefix(
    m: Map<Seq<u8>, Seq<u8>>,
    names_list: Seq<(Vec<u8>, Vec<u8>)>,
    owner: Seq<u8>,
    n: int,
    skip: int,
) -> Map<Seq<u8>, Seq<u8>> {
    Map::new(
        |k: Seq<u8>|
            m.contains_key(k) && !(exists|p: int|
                0 <= p < n && key_matches_tenant(
                    k,
                    tenant_bytes(owner, (#[trigger] names_list[p]).0@),
                    skip,
                )),
        |k: Seq<u8>| m[k],
    )
}

/// Enumerates every vault name of the owner, then deletes each enumerated
/// vault from all six stores.
pub fn _purge_user(user_id: &Vec<u8>, state: &mut GeneralState)
    ensures
        store_contents(final(state).logins_columns) == purge_user_records(
            store_contents(old(state).logins_columns),
            store_contents(old(state).vault_names_map),
            user_id@,
            1,
        ),
        store_contents(final(state).spreadsheet_columns) == purge_user_records(
            store_contents(old(state).spreadsheet_columns),
            store_contents(old(state).vault_names_map),
            user_id@,
            1,
        ),
        store_contents(final(state).spreadsheet_map) == purge_user_records(
            store_contents(old(state).spreadsheet_map),
            store_contents(old(state).vault_names_map),
            user_id@,
            2,
        ),
        store_contents(final(state).logins_map) == purge_user_records(
            store_contents(old(state).logins_map),
            store_contents(old(state).vault_names_map),
            user_id@,
            2,
        ),
        store_contents(final(state).notes_map) == purge_user_records(
            store_contents(old(state).notes_map),
            store_contents(old(state).vault_names_map),
            user_id@,
            1,
        ),
        store_contents(final(state).vault_names_map) == purge_user_records(
            store_contents(old(state).vault_names_map),
            store_contents(old(state).vault_names_map),
            user_id@,
            0,
        ),
        store_contents(final(state).key_management) == store_contents(old(state).key_management),
        old(state).wf() ==> final(state).wf(),
{
    let ghost owner = user_id@;
    let ghost names0 = store_contents(old(state).vault_names_map);
    let ghost lc0 = store_contents(old(state).logins_columns);
    let ghost sc0 = store_contents(old(state).spreadsheet_columns);
    let ghost sm0 = store_contents(old(state).spreadsheet_map);
    let ghost lm0 = store_contents(old(state).logins_map);
    let ghost nm0 = store_contents(old(state).notes_map);
    let vault_names = crate::api::dev_api::_get_vault_names(user_id, &state.vault_names_map);
    let ghost nl = vault_names.names@;
    let mut i: usize = 0;
    proof {
        assert(store_contents(state.logins_columns) =~= purge_names_prefix(lc0, nl, owner, 0, 1));
        assert(store_contents(state.spreadsheet_columns) =~= purge_names_prefix(
            sc0,
            nl,
            owner,
            0,
            1,
        ));
        assert(store_contents(state.spreadsheet_map) =~= purge_names_prefix(sm0, nl, owner, 0, 2));
        assert(store_contents(state.logins_map) =~= purge_names_prefix(lm0, nl, owner, 0, 2));
        assert(store_contents(state.notes_map) =~= purge_names_prefix(nm0, nl, owner, 0, 1));
        assert(store_contents(state.vault_names_map) =~= purge_names_prefix(
            names0,
            nl,
            owner,
            0,
            0,
        ));
    }
    while i < vault_names.names.len()
        invariant
            i <= nl.len(),
            nl == vault_names.names@,
            store_contents(state.logins_columns) == purge_names_prefix(lc0, nl, owner, i as int, 1),
            store_contents(state.spreadsheet_columns) == purge_names_prefix(
                sc0,
                nl,
                owner,
                i as int,
                1,
            ),
            store_contents(state.spreadsheet_map) == purge_names_prefix(
                sm0,
                nl,
                owner,
                i as int,
                2,
            ),
            store_contents(state.logins_map) == purge_names_prefix(lm0, nl, owner, i as int, 2),
            store_contents(state.notes_map) == purge_names_prefix(nm0, nl, owner, i as int, 1),
            store_contents(state.vault_names_map) == purge_names_prefix(
                names0,
                nl,
                owner,
                i as int,
                0,
            ),
            store_contents(state.key_management) == store_contents(old(state).key_management),
        decreases nl.len() - i,
    {
        let vid = &vault_names.names[i].0;
        _delete_vault(user_id, vid, state);
        proof {
            let ti = tenant_bytes(owner, nl[i as int].0@);
            assert(store_contents(state.logins_columns) =~= purge_names_prefix(
                lc0,
                nl,
                owner,
                i + 1,
                1,
            ));
            assert(store_contents(state.spreadsheet_columns) =~= purge_names_prefix(
                sc0,
                nl,
                owner,
                i + 1,
                1,
            ));
            assert(store_contents(state.spreadsheet_map) =~= purge_names_prefix(
                sm0,
                nl,
                owner,
                i + 1,
                2,
            ));
            assert(store_contents(state.logins_map) =~= purge_names_prefix(
                lm0,
                nl,
                owner,
                i + 1,
                2,
            ));
            assert(store_contents(state.notes_map) =~= purge_names_prefix(
                nm0,
                nl,
                owner,
                i + 1,
                1,
            ));
            assert(store_contents(state.vault_names_map) =~= purge_names_prefix(
                names0,
                nl,
                owner,
                i + 1,
                0,
            ));
        }
        i = i + 1;
    }
    proof {
        assert forall|k: Seq<u8>, skip: int|
            #![trigger owner_tenant_matches(names0, owner, k, skip)]
            (exists|p: int|
                0 <= p < nl.len() && key_matches_tenant(
                    k,
                    tenant_bytes(owner, (#[trigger] nl[p]).0@),
                    skip,
                )) <==> owner_tenant_matches(names0, owner, k, skip) by {
            if exists|p: int|
                0 <= p < nl.len() && key_matches_tenant(
                    k,
                    tenant_bytes(owner, (#[trigger] nl[p]).0@),
                    skip,
                ) {
                let p = choose|p: int|
                    0 <= p < nl.len() && key_matches_tenant(
                        k,
                        tenant_bytes(owner, (#[trigger] nl[p]).0@),
                        skip,
                    );
                assert(crate::api::dev_api::assoc_has_bytes(nl, nl[p].0@, nl[p].1@));
                assert(names0.contains_pair(tenant_bytes(owner, nl[p].0@), nl[p].1@));
                assert(tenant_bytes(owner, nl[p].0@).take(owner.len() as int) =~= owner);
            }
            if owner_tenant_matches(names0, owner, k, skip) {
                let vk = choose|vk: Seq<u8>|
                    #[trigger] names0.contains_key(vk) && vk.len() >= owner.len() && vk.take(
                        owner.len() as int,
                    ) == owner && key_matches_tenant(k, vk, skip);
                assert(names0.contains_pair(vk, names0[vk]));
                assert(vk =~= tenant_bytes(owner, vk.skip(owner.len() as int)));
                assert(crate::api::dev_api::assoc_has_bytes(
                    nl,
                    vk.skip(owner.len() as int),
                    names0[vk],
                ));
                let p = choose|p: int|
                    0 <= p < nl.len() && (#[trigger] nl[p]).0@ == vk.skip(owner.len() as int)
                        && nl[p].1@ == names0[vk];
                assert(key_matches_tenant(k, tenant_bytes(owner, nl[p].0@), skip));
            }
        }
        assert(store_contents(state.logins_columns) =~= purge_user_records(lc0, names0, owner, 1));
        assert(store_contents(state.spreadsheet_columns) =~= purge_user_records(
            sc0,
            names0,
            owner,
            1,
        ));
        assert(store_contents(state.spreadsheet_map) =~= purge_user_records(sm0, names0, owner, 2));
        assert(store_contents(state.logins_map) =~= purge_user_records(lm0, names0, owner, 2));
        assert(store_contents(state.notes_map) =~= purge_user_records(nm0, names0, owner, 1));
        assert(store_contents(state.vault_names_map) =~= purge_user_records(
            names0,
            names0,
            owner,
            0,
        ));
        if old(state).wf() {
            assert forall|k: Seq<u8>|
                #[trigger] store_contents(state.spreadsheet_map).contains_key(k) implies k.len()
                >= 2 && store_contents(state.spreadsheet_map)[k].len() >= 1 by {
                assert(sm0.contains_key(k));
            }
            assert forall|k: Seq<u8>|
                #[trigger] store_contents(state.logins_map).contains_key(k) implies k.len() >= 2
                && store_contents(state.logins_map)[k].len() >= 1 by {
                assert(lm0.contains_key(k));
            }
            assert forall|k: Seq<u8>|
                #[trigger] store_contents(state.logins_columns).contains_key(k) implies k.len()
                >= 1 && store_contents(state.logins_columns)[k].len() >= 1 by {
                assert(lc0.contains_key(k));
            }
            assert forall|k: Seq<u8>|
                #[trigger] store_contents(state.spreadsheet_columns).contains_key(k) implies k.len()
                >= 1 && store_contents(state.spreadsheet_columns)[k].len() >= 1 by {
                assert(sc0.contains_key(k));
            }
            assert forall|k: Seq<u8>|
                #[trigger] store_contents(state.notes_map).contains_key(k) implies k.len() >= 1
                && store_contents(state.notes_map)[k].len() >= 1 && 1 <= store_contents(
                state.notes_map,
            )[k][0] && store_contents(state.notes_map)[k][0] + 1 <= store_contents(
                state.notes_map,
            )[k].len() by {
                assert(nm0.contains_key(k));
            }
            assert forall|k: Seq<u8>|
                #[trigger] store_contents(state.vault_names_map).contains_key(k) implies
                store_contents(state.vault_names_map)[k].len() >= 1 by {
                assert(names0.contains_key(k));
            }
        }
    }
}

} // verus!
