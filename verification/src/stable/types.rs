//! The container of persistent state: one byte-keyed store per entity kind,
//! and the well-formedness each store keeps.
//!
//! Well-formedness records two standing rules of the data model: a record
//! with an empty payload, name or label is never persisted (deletion is
//! tombstone-by-absence), and every stored key is long enough to carry the
//! coordinate or index bytes its schema puts before the tenant.
use crate::store::{empty_contents, store_contents, ByteStore};
use vstd::prelude::*;

verus! {

/// A cell store (spreadsheet cells or login cells): keys carry an (x, y)
/// coordinate pair before the tenant, and no persisted payload is empty.
pub open spec fn cells_store_wf(m: Map<Seq<u8>, Seq<u8>>) -> bool {
    forall|k: Seq<u8>| #[trigger] m.contains_key(k) ==> k.len() >= 2 && m[k].len() >= 1
}

/// A column store (login-column metadata or spreadsheet column metadata):
/// keys carry a column index before the tenant, and no value is empty (a
/// login label is never persisted empty; a spreadsheet column value always
/// holds at least its hidden-flag byte).
pub open spec fn columns_store_wf(m: Map<Seq<u8>, Seq<u8>>) -> bool {
    forall|k: Seq<u8>| #[trigger] m.contains_key(k) ==> k.len() >= 1 && m[k].len() >= 1
}

/// A secure-note store: keys carry the note index before the tenant, and
/// every value is a well-formed note encoding with a non-empty label.
pub open spec fn notes_store_wf(m: Map<Seq<u8>, Seq<u8>>) -> bool {
    forall|k: Seq<u8>| #[trigger] m.contains_key(k) ==> k.len() >= 1 && m[k].len() >= 1
        && 1 <= m[k][0] && m[k][0] + 1 <= m[k].len()
}

/// A vault-name store: keys are the bare tenant bytes, and no persisted name
/// is empty.
pub open spec fn names_store_wf(m: Map<Seq<u8>, Seq<u8>>) -> bool {
    forall|k: Seq<u8>| #[trigger] m.contains_key(k) ==> m[k].len() >= 1
}

/// Store of spreadsheet cells.
pub type SpreadsheetMap = ByteStore;

/// Store of login cells; login data and metadata live in separate stores.
pub type LoginsMap = ByteStore;

/// Store of login-column metadata.
pub type LoginsColumns = ByteStore;

/// Store of secure notes.
pub type NotesMap = ByteStore;

/// Store of spreadsheet column metadata.
pub type ColumnsInfo = ByteStore;

/// Store of vault names.
pub type VaultNamesMap = ByteStore;

/// Store of derived key blobs, kept per owner identifier.
pub type KeyManagementState = ByteStore;

/// The general state of the engine: the six entity stores the mutation and
/// projection engines work on, and the per-owner key-blob cache.
pub struct GeneralState {
    pub key_management: KeyManagementState,
    pub spreadsheet_columns: ColumnsInfo,
    pub spreadsheet_map: SpreadsheetMap,
    pub logins_map: LoginsMap,
    pub logins_columns: LoginsColumns,
    pub notes_map: NotesMap,
    pub vault_names_map: VaultNamesMap,
}

impl GeneralState {
    /// Every store is well-formed. Established by `init` and preserved by
    /// every mutation.
    pub open spec fn wf(self) -> bool {
        &&& cells_store_wf(store_contents(self.spreadsheet_map))
        &&& cells_store_wf(store_contents(self.logins_map))
        &&& columns_store_wf(store_contents(self.logins_columns))
        &&& columns_store_wf(store_contents(self.spreadsheet_columns))
        &&& notes_store_wf(store_contents(self.notes_map))
        &&& names_store_wf(store_contents(self.vault_names_map))
    }

    /// Fresh state: every store empty.
    pub fn init() -> (r: Self)
        ensures
            r.wf(),
            store_contents(r.key_management) == empty_contents(),
            store_contents(r.spreadsheet_columns) == empty_contents(),
            store_contents(r.spreadsheet_map) == empty_contents(),
            store_contents(r.logins_map) == empty_contents(),
            store_contents(r.logins_columns) == empty_contents(),
            store_contents(r.notes_map) == empty_contents(),
            store_contents(r.vault_names_map) == empty_contents(),
    {
        GeneralState {
            key_management: ByteStore::new(),
            spreadsheet_columns: ByteStore::new(),
            spreadsheet_map: ByteStore::new(),
            logins_map: ByteStore::new(),
            logins_columns: ByteStore::new(),
            notes_map: ByteStore::new(),
            vault_names_map: ByteStore::new(),
        }
    }
}

} // verus!
