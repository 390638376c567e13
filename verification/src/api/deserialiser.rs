//! The wire codec's entry points: one decoder per batch format. Each returns
//! the decoded batch exactly as its format's `parse_*` spec function defines
//! it, or `MalformedInput` (and nothing else) when the buffer does not parse.
use crate::api::deserialiser_types::{
    parse_cells, parse_columns, parse_delete_cells, parse_global, parse_login_data,
    parse_login_metadata, parse_notes, parse_vault_names, Cells, DeleteCells, GlobalSyncData,
    LoginData, LoginMetadata, SecureNotesData, SpreadsheetColumns, VaultNames,
};
use crate::VaultError;
use vstd::prelude::*;

verus! {

/// Decodes a vault-name batch.
pub fn deserialise_vault_names(data: &Vec<u8>) -> (r: Result<VaultNames, VaultError>)
    ensures
        match r {
            Ok(n) => parse_vault_names(data@) == Some(n@),
            Err(e) => parse_vault_names(data@) is None && e == VaultError::MalformedInput,
        },
{
    VaultNames::new(data)
}

/// Decodes a spreadsheet cell batch.
pub fn deserialise_spreadsheet(data: Vec<u8>) -> (r: Result<Cells, VaultError>)
    ensures
        match r {
            Ok(c) => parse_cells(data@) == Some(c@),
            Err(e) => parse_cells(data@) is None && e == VaultError::MalformedInput,
        },
{
    Cells::new(data)
}

/// Decodes a coordinate-delete batch.
pub fn deserialise_delete_cells(data: Vec<u8>) -> (r: Result<DeleteCells, VaultError>)
    ensures
        match r {
            Ok(c) => parse_delete_cells(data@) == Some(c@),
            Err(e) => parse_delete_cells(data@) is None && e == VaultError::MalformedInput,
        },
{
    DeleteCells::new(data)
}

/// Decodes a spreadsheet-column-metadata batch.
pub fn deserialise_column_data(data: &Vec<u8>) -> (r: Result<SpreadsheetColumns, VaultError>)
    ensures
        match r {
            Ok(c) => parse_columns(data@) == Some(c@),
            Err(e) => parse_columns(data@) is None && e == VaultError::MalformedInput,
        },
{
    SpreadsheetColumns::new(data)
}

/// Decodes a login full sync: length-prefixed metadata, then cells.
pub fn deserialise_login_full_sync(data: Vec<u8>) -> (r: Result<LoginData, VaultError>)
    ensures
        match r {
            Ok(ld) => parse_login_data(data@) == Some(ld@),
            Err(e) => parse_login_data(data@) is None && e == VaultError::MalformedInput,
        },
{
    LoginData::new(data)
}

/// Decodes a login-cell batch.
pub fn deserialise_login_data_sync(data: Vec<u8>) -> (r: Result<Cells, VaultError>)
    ensures
        match r {
            Ok(c) => parse_cells(data@) == Some(c@),
            Err(e) => parse_cells(data@) is None && e == VaultError::MalformedInput,
        },
{
    Cells::new(data)
}

/// Decodes a login-metadata batch.
pub fn deserialise_login_metadata(data: Vec<u8>) -> (r: Result<LoginMetadata, VaultError>)
    ensures
        match r {
            Ok(m) => parse_login_metadata(data@) == Some(m@),
            Err(e) => parse_login_metadata(data@) is None && e == VaultError::MalformedInput,
        },
{
    LoginMetadata::new(data)
}

/// Decodes a login-cell batch; login cells share the cell wire format.
pub fn deserialise_login_sync(data: Vec<u8>) -> (r: Result<Cells, VaultError>)
    ensures
        match r {
            Ok(c) => parse_cells(data@) == Some(c@),
            Err(e) => parse_cells(data@) is None && e == VaultError::MalformedInput,
        },
{
    Cells::new(data)
}

/// Decodes a secure-note batch.
pub fn deserialise_secure_notes(data: Vec<u8>) -> (r: Result<SecureNotesData, VaultError>)
    ensures
        match r {
            Ok(n) => parse_notes(data@) == Some(n@) && (forall|i: int|
                0 <= i < n.notes@.len() ==> (#[trigger] n.notes@[i]).label@.len() <= 255),
            Err(e) => parse_notes(data@) is None && e == VaultError::MalformedInput,
        },
{
    SecureNotesData::new(data)
}

/// Decodes a global sync bundle.
pub fn deserialise_global_sync(data: Vec<u8>) -> (r: Result<GlobalSyncData, VaultError>)
    ensures
        match r {
            Ok(g) => parse_global(data@) == Some(g@) && (forall|i: int|
                0 <= i < g.secure_notes.notes@.len() ==> (#[trigger] g.secure_notes.notes@[i]).label@.len()
                    <= 255),
            Err(e) => parse_global(data@) is None && e == VaultError::MalformedInput,
        },
{
    GlobalSyncData::new(data)
}

} // verus!
