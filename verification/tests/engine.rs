//! Mutation- and projection-engine tests: batches applied against real
//! stores, tenant isolation, tombstones, cascades, whole-vault and
//! whole-user deletion, and the documented integrity trap.
use candid::Principal;
use vault_core::api::dev_api::{
    _get_columns_info, _get_logins, _get_notes, _get_spreadsheet, _get_user_vaults, _get_vault,
    _get_vault_name, _get_vault_names, Logins, Spreadsheet,
};
use vault_core::api::serial_api::{
    _delete_vault, _global_sync, _login_data_deletes, _login_data_sync, _login_full_sync,
    _login_metadata_delete, _login_metadata_sync, _process_delete_vault, _purge_user,
    _secret_notes_sync, _vault_names_sync, _vault_spreadsheet_columns_sync,
    _vault_spreadsheet_delete, _vault_spreadsheet_sync,
};
use vault_core::stable::types::GeneralState;
use vault_core::store::ByteStore;
use vault_core::vault_type::spreadsheet::{SpreadsheetKey, SpreadsheetValue};
use vault_core::VaultError;

fn some_user_id() -> Vec<u8> {
    Principal::from_text("ryjl3-tyaaa-aaaaa-aaaba-cai").unwrap().as_slice().to_vec()
}

fn some_vault_id() -> Vec<u8> {
    Principal::from_text("rdmx6-jaaaa-aaaaa-aaadq-cai").unwrap().as_slice().to_vec()
}

fn some_other_principal() -> Vec<u8> {
    Principal::from_text("aaaaa-aa").unwrap().as_slice().to_vec()
}

fn some_spreadsheet_data() -> Vec<u8> {
    vec![
        0x00, 0x0F, 0x00, 0x02, 0x74, 0x68, 0x65, 0x20, 0x71, 0x75, 0x69, 0x63, 0x6B, 0x20, 0x62,
        0x72, 0x6F, 0x77, 0x6E, 0x00, 0x00, 0x03, 0x04, 0x00, 0x17, 0x0B, 0x05, 0x66, 0x6F, 0x78,
        0x20, 0x6A, 0x75, 0x6D, 0x70, 0x73, 0x20, 0x6F, 0x76, 0x65, 0x72, 0x20, 0x74, 0x68, 0x65,
        0x20, 0x6C, 0x61, 0x7A, 0x79, 0x00, 0x03, 0x04, 0x6B, 0x64, 0x6F, 0x67,
    ]
}

fn some_more_spreadsheet_data() -> Vec<u8> {
    vec![
        0x00, 0x0F, 0x01, 0x05, 0x74, 0x68, 0x65, 0x20, 0x71, 0x75, 0x69, 0x63, 0x6B, 0x20, 0x62,
        0x72, 0x6F, 0x77, 0x6E, 0x00, 0x03, 0x03, 0x04, 0x20, 0x71, 0x75, 0x00, 0x17, 0x0B, 0x05,
        0x66, 0x6F, 0x78, 0x20, 0x6A, 0x75, 0x6D, 0x70, 0x73, 0x20, 0x6F, 0x76, 0x65, 0x72, 0x20,
        0x74, 0x68, 0x65, 0x20, 0x6C, 0x61, 0x7A, 0x79, 0x00, 0x03, 0x04, 0x6B, 0x64, 0x6F, 0x67,
    ]
}

fn some_login_data() -> Vec<u8> {
    vec![
        0x00, 0x01, 0x00, 0x09, 0x00, 0x06, 0x74, 0x68, 0x65, 0x20, 0x71, 0x75, 0x69, 0x63, 0x6B,
        0x20, 0x62, 0x72, 0x6F, 0x77, 0x6E, 0x00, 0x02, 0x00, 0x01, 0x00, 0x02, 0x20, 0x71, 0x75,
        0x01, 0x01, 0x00, 0x07, 0x00, 0x10, 0x66, 0x6F, 0x78, 0x20, 0x6A, 0x75, 0x6D, 0x70, 0x73,
        0x20, 0x6F, 0x76, 0x65, 0x72, 0x20, 0x74, 0x68, 0x65, 0x20, 0x6C, 0x61, 0x7A, 0x79, 0x02,
        0x01, 0x00, 0x01, 0x00, 0x02, 0x64, 0x6F, 0x67,
    ]
}

fn some_login_metadata() -> Vec<u8> {
    vec![
        0x00, 0x0F, 0x00, 0x74, 0x68, 0x65, 0x20, 0x71, 0x75, 0x69, 0x63, 0x6B, 0x20, 0x62, 0x72,
        0x6F, 0x77, 0x6E, 0x00, 0x17, 0x01, 0x66, 0x6F, 0x78, 0x20, 0x6A, 0x75, 0x6D, 0x70, 0x73,
        0x20, 0x6F, 0x76, 0x65, 0x72, 0x20, 0x74, 0x68, 0x65, 0x20, 0x6C, 0x61, 0x7A, 0x79, 0x00,
        0x03, 0x02, 0x64, 0x6F, 0x67,
    ]
}

fn some_notes_data() -> Vec<u8> {
    vec![
        0x05, 0x00, 0x0e, 0x00, b'l', b'a', b'b', b'e', b'l', b's', b'o', b'm', b'e', b' ', b'n',
        b'o', b't', b'e', b' ', b'd', b'a', b't', b'a', 0x02, 0x00, 0x05, 0x01, b'l', b'a', b's',
        b'o', b'm', b'e', b' ',
    ]
}

fn some_vault_names() -> Vec<u8> {
    let vault_1_principal: Vec<u8> = some_vault_id();
    let vault_2_principal: Vec<u8> = some_user_id();
    let mut data = Vec::new();

    let mut key_1: Vec<u8> = Vec::new();
    key_1.extend_from_slice(&vault_1_principal);
    let val_1: Vec<u8> = b"My First Vault".to_vec();
    let principal_len = key_1.len() as u8;
    let name_len = val_1.len() as u16;
    let mut header = Vec::with_capacity(3);
    header.push(principal_len);
    header.push((name_len >> 8) as u8);
    header.push((name_len & 0xFF) as u8);
    data.extend_from_slice(&header);
    data.extend_from_slice(&key_1);
    data.extend_from_slice(&val_1);

    let mut key_2: Vec<u8> = Vec::new();
    key_2.extend_from_slice(&vault_2_principal);
    let val_2: Vec<u8> = b"Other Vault".to_vec();
    let principal_len = key_2.len() as u8;
    let name_len = val_2.len() as u16;
    let mut header = Vec::with_capacity(3);
    header.push(principal_len);
    header.push((name_len >> 8) as u8);
    header.push((name_len & 0xFF) as u8);
    data.extend_from_slice(&header);
    data.extend_from_slice(&key_2);
    data.extend_from_slice(&val_2);

    data
}

fn sheet_cell(sheet: &Spreadsheet, x: u8, y: u8) -> Option<Vec<u8>> {
    let column = sheet.columns.iter().find(|c| c.0 == x)?;
    column.1.rows.iter().find(|r| r.0 == y).map(|r| r.1.clone())
}

fn login_cell(logins: &Logins, x: u8, y: u8) -> Option<Vec<u8>> {
    let column = logins.columns.iter().find(|c| c.0 == x)?;
    column.1.rows.iter().find(|r| r.0 == y).map(|r| r.1.clone())
}

#[test]
fn test_deserialise_vault_names() {
    let data = some_vault_names();
    let user_id = some_user_id();
    let other_user_id = some_vault_id();
    let vault_id_1 = some_vault_id();
    let vault_id_2 = some_user_id();

    let mut vault_names_map = ByteStore::new();

    // Deserialise into the vault-names store
    _vault_names_sync(&user_id, &data, &mut vault_names_map).unwrap();

    // Add extra noise associated with another user to ensure we filter
    // properly for the caller
    _vault_names_sync(&other_user_id, &data, &mut vault_names_map).unwrap();

    assert_eq!(vault_names_map.len(), 4);

    let names = _get_vault_names(&user_id, &vault_names_map);

    assert_eq!(
        names.names.iter().find(|n| n.0 == vault_id_1).unwrap().1,
        b"My First Vault".to_vec()
    );
    assert_eq!(
        names.names.iter().find(|n| n.0 == vault_id_2).unwrap().1,
        b"Other Vault".to_vec()
    );
    assert_eq!(names.names.len(), 2);
}

#[test]
fn test_vault_spreadsheet_sync() {
    let mut spreadsheet_map = ByteStore::new();

    let user_id = some_user_id();
    let vault_id = some_vault_id();
    let data: Vec<u8> = some_spreadsheet_data();

    let key2 = SpreadsheetKey::new(&user_id, &vault_id, 3, 4);
    spreadsheet_map.insert(
        key2.to_bytes(),
        SpreadsheetValue::new(vec![0x61, 0x62, 0x63]).to_bytes(),
    );

    _vault_spreadsheet_sync(&user_id, &vault_id, data.clone(), &mut spreadsheet_map).unwrap();

    let key1 = SpreadsheetKey::new(&user_id, &vault_id, 0, 2);
    let key3 = SpreadsheetKey::new(&user_id, &vault_id, 11, 5);
    let key4 = SpreadsheetKey::new(&user_id, &vault_id, 4, 107);

    let first = spreadsheet_map.get(&key1.to_bytes());
    let second = spreadsheet_map.get(&key2.to_bytes());
    let third = spreadsheet_map.get(&key3.to_bytes());
    let fourth = spreadsheet_map.get(&key4.to_bytes());
    assert_eq!(
        SpreadsheetValue::from_bytes(&first.unwrap()).data,
        vec![0x74, 0x68, 0x65, 0x20, 0x71, 0x75, 0x69, 0x63, 0x6B, 0x20, 0x62, 0x72, 0x6F, 0x77, 0x6E]
    );
    assert_eq!(second.is_some(), false);
    assert_eq!(
        SpreadsheetValue::from_bytes(&third.unwrap()).data,
        vec![
            0x66, 0x6F, 0x78, 0x20, 0x6A, 0x75, 0x6D, 0x70, 0x73, 0x20, 0x6F, 0x76, 0x65, 0x72,
            0x20, 0x74, 0x68, 0x65, 0x20, 0x6C, 0x61, 0x7A, 0x79
        ]
    );
    assert_eq!(SpreadsheetValue::from_bytes(&fourth.unwrap()).data, vec![0x64, 0x6F, 0x67]);
}

#[test]
fn test_get_vault_data() {
    let mut spreadsheet_map = ByteStore::new();

    let user_id = some_user_id();
    let vault_id = some_vault_id();
    let some_other_id = some_other_principal();
    let data: Vec<u8> = some_spreadsheet_data();
    let some_more_data: Vec<u8> = some_more_spreadsheet_data();

    // populate with target data
    _vault_spreadsheet_sync(&user_id, &vault_id, data.clone(), &mut spreadsheet_map).unwrap();

    // add some noise
    _vault_spreadsheet_sync(&user_id, &some_other_id, data.clone(), &mut spreadsheet_map).unwrap();
    _vault_spreadsheet_sync(&some_other_id, &vault_id, some_more_data.clone(), &mut spreadsheet_map)
        .unwrap();

    for entry in spreadsheet_map.entries() {
        let key = SpreadsheetKey::from_bytes(&entry.0);
        println!(
            "Key: x: {}, y: {}, principals: {:?} => Value: {:?}",
            key.x, key.y, key.principals, entry.1
        );
    }

    let spreadsheet = _get_spreadsheet(&user_id, &vault_id, &spreadsheet_map);
    assert_eq!(spreadsheet.columns.len(), 3);
    assert_eq!(
        sheet_cell(&spreadsheet, 0, 2).unwrap(),
        vec![0x74, 0x68, 0x65, 0x20, 0x71, 0x75, 0x69, 0x63, 0x6B, 0x20, 0x62, 0x72, 0x6F, 0x77, 0x6E]
    );
    assert_eq!(
        sheet_cell(&spreadsheet, 11, 5).unwrap(),
        vec![
            0x66, 0x6F, 0x78, 0x20, 0x6A, 0x75, 0x6D, 0x70, 0x73, 0x20, 0x6F, 0x76, 0x65, 0x72,
            0x20, 0x74, 0x68, 0x65, 0x20, 0x6C, 0x61, 0x7A, 0x79
        ]
    );
    assert_eq!(spreadsheet.columns.iter().find(|c| c.0 == 3).is_none(), true);
    assert_eq!(sheet_cell(&spreadsheet, 4, 107).unwrap(), vec![0x64, 0x6F, 0x67]);
}

#[test]
fn test_get_logins() {
    let mut logins = ByteStore::new();
    let mut logins_columns = ByteStore::new();

    let user_id = some_user_id();
    let vault_id = some_vault_id();
    let login_data = some_login_data();
    let login_metadata = some_login_metadata();

    // this login-cell buffer does not parse as a cell batch: its second
    // record's header would read past the end, a fatal parse fault that
    // leaves the store untouched
    assert_eq!(
        _login_data_sync(&user_id, &vault_id, login_data.clone(), &mut logins).unwrap_err(),
        VaultError::MalformedInput
    );
    _login_metadata_sync(&user_id, &vault_id, login_metadata.clone(), &mut logins_columns, &mut logins)
        .unwrap();

    let logins_data = _get_logins(&user_id, &vault_id, &logins, &logins_columns).unwrap();
    assert_eq!(logins_data.columns.len(), 3);
}

#[test]
fn test_get_notes() {
    let mut notes = ByteStore::new();

    let user_id = some_user_id();
    let vault_id = some_vault_id();
    let notes_data = some_notes_data();

    _secret_notes_sync(&user_id, &vault_id, notes_data, &mut notes).unwrap();

    assert_eq!(notes.is_empty(), false);

    let get_notes = _get_notes(&user_id, &vault_id, &notes);

    assert_eq!(get_notes.notes.len(), 2);
}

#[test]
fn cell_batch_applies_and_projects_single_cell() {
    // batch [size=2, x=0, y=2, "he"] -> {0: {2: "he"}}
    let mut sm = ByteStore::new();
    let user_id = some_user_id();
    let vault_id = some_vault_id();
    _vault_spreadsheet_sync(&user_id, &vault_id, vec![0x00, 0x02, 0x00, 0x02, b'h', b'e'], &mut sm)
        .unwrap();
    let sheet = _get_spreadsheet(&user_id, &vault_id, &sm);
    assert_eq!(sheet.columns.len(), 1);
    assert_eq!(sheet.columns[0].0, 0);
    assert_eq!(sheet.columns[0].1.rows.len(), 1);
    assert_eq!(sheet.columns[0].1.rows[0].0, 2);
    assert_eq!(sheet.columns[0].1.rows[0].1, b"he".to_vec());
}

#[test]
fn coordinate_delete_removes_cell_from_projection() {
    // insert (x=3, y=4, "ab"), then delete (3, 4): no x=3 entry remains
    let mut sm = ByteStore::new();
    let user_id = some_user_id();
    let vault_id = some_vault_id();
    _vault_spreadsheet_sync(&user_id, &vault_id, vec![0x00, 0x02, 0x03, 0x04, b'a', b'b'], &mut sm)
        .unwrap();
    _vault_spreadsheet_delete(&user_id, &vault_id, vec![3, 4], &mut sm).unwrap();
    let sheet = _get_spreadsheet(&user_id, &vault_id, &sm);
    assert!(sheet.columns.iter().find(|c| c.0 == 3).is_none());
    assert_eq!(sheet.columns.len(), 0);
}

#[test]
fn tenants_with_same_coordinates_stay_isolated() {
    // two tenants insert at (0, 0) with different payloads; projecting one
    // returns only that tenant's payload
    let mut sm = ByteStore::new();
    let user_a = some_user_id();
    let user_b = some_other_principal();
    let vault_id = some_vault_id();
    _vault_spreadsheet_sync(&user_a, &vault_id, vec![0x00, 0x01, 0x00, 0x00, b'a'], &mut sm)
        .unwrap();
    _vault_spreadsheet_sync(&user_b, &vault_id, vec![0x00, 0x01, 0x00, 0x00, b'b'], &mut sm)
        .unwrap();
    let sheet_a = _get_spreadsheet(&user_a, &vault_id, &sm);
    let sheet_b = _get_spreadsheet(&user_b, &vault_id, &sm);
    assert_eq!(sheet_cell(&sheet_a, 0, 0).unwrap(), b"a".to_vec());
    assert_eq!(sheet_cell(&sheet_b, 0, 0).unwrap(), b"b".to_vec());
    assert_eq!(sheet_a.columns.len(), 1);
    assert_eq!(sheet_a.columns[0].1.rows.len(), 1);
}

#[test]
fn tombstone_batch_removes_previously_stored_cell() {
    let mut sm = ByteStore::new();
    let user_id = some_user_id();
    let vault_id = some_vault_id();
    _vault_spreadsheet_sync(&user_id, &vault_id, vec![0x00, 0x02, 0x01, 0x01, b'a', b'a'], &mut sm)
        .unwrap();
    assert!(sheet_cell(&_get_spreadsheet(&user_id, &vault_id, &sm), 1, 1).is_some());
    // same coordinate, size = 0: tombstone
    _vault_spreadsheet_sync(&user_id, &vault_id, vec![0x00, 0x00, 0x01, 0x01], &mut sm).unwrap();
    let sheet = _get_spreadsheet(&user_id, &vault_id, &sm);
    assert!(sheet_cell(&sheet, 1, 1).is_none());
    assert!(sheet.columns.iter().find(|c| c.0 == 1).is_none());
}

#[test]
fn applying_the_same_batch_twice_changes_nothing_more() {
    let mut sm1 = ByteStore::new();
    let mut sm2 = ByteStore::new();
    let user_id = some_user_id();
    let vault_id = some_vault_id();
    let batch = some_spreadsheet_data();
    _vault_spreadsheet_sync(&user_id, &vault_id, batch.clone(), &mut sm1).unwrap();
    _vault_spreadsheet_sync(&user_id, &vault_id, batch.clone(), &mut sm2).unwrap();
    _vault_spreadsheet_sync(&user_id, &vault_id, batch.clone(), &mut sm2).unwrap();
    let once = _get_spreadsheet(&user_id, &vault_id, &sm1);
    let twice = _get_spreadsheet(&user_id, &vault_id, &sm2);
    assert_eq!(sm1.len(), sm2.len());
    for column in &once.columns {
        for row in &column.1.rows {
            assert_eq!(sheet_cell(&twice, column.0, row.0).unwrap(), row.1);
        }
    }
    for column in &twice.columns {
        for row in &column.1.rows {
            assert_eq!(sheet_cell(&once, column.0, row.0).unwrap(), row.1);
        }
    }
}

#[test]
fn metadata_delete_cascades_to_login_cells() {
    // login metadata at x=5 ("site"), login cell at (5, 1, "user");
    // deleting metadata at x=5 removes both from the projection
    let mut lc = ByteStore::new();
    let mut lm = ByteStore::new();
    let user_id = some_user_id();
    let vault_id = some_vault_id();
    _login_metadata_sync(
        &user_id,
        &vault_id,
        vec![0x00, 0x04, 0x05, b's', b'i', b't', b'e'],
        &mut lc,
        &mut lm,
    )
    .unwrap();
    _login_data_sync(&user_id, &vault_id, vec![0x00, 0x04, 0x05, 0x01, b'u', b's', b'e', b'r'], &mut lm)
        .unwrap();
    let before = _get_logins(&user_id, &vault_id, &lm, &lc).unwrap();
    assert_eq!(login_cell(&before, 5, 1).unwrap(), b"user".to_vec());

    _login_metadata_delete(&user_id, &vault_id, vec![0x00, 0x00, 0x05], &mut lc, &mut lm).unwrap();
    let after = _get_logins(&user_id, &vault_id, &lm, &lc).unwrap();
    assert!(after.columns.iter().find(|c| c.0 == 5).is_none());
    assert!(login_cell(&after, 5, 1).is_none());
    assert_eq!(lm.len(), 0);
    assert_eq!(lc.len(), 0);
}

#[test]
fn cascade_spares_other_columns_and_tenants() {
    let mut lc = ByteStore::new();
    let mut lm = ByteStore::new();
    let user_a = some_user_id();
    let user_b = some_other_principal();
    let vault_id = some_vault_id();
    // tenant A: columns 5 and 6, one cell each
    _login_metadata_sync(
        &user_a,
        &vault_id,
        vec![0x00, 0x01, 0x05, b'a', 0x00, 0x01, 0x06, b'b'],
        &mut lc,
        &mut lm,
    )
    .unwrap();
    _login_data_sync(
        &user_a,
        &vault_id,
        vec![0x00, 0x01, 0x05, 0x01, b'x', 0x00, 0x01, 0x06, 0x01, b'y'],
        &mut lm,
    )
    .unwrap();
    // tenant B: column 5 with one cell
    _login_metadata_sync(&user_b, &vault_id, vec![0x00, 0x01, 0x05, b'c'], &mut lc, &mut lm)
        .unwrap();
    _login_data_sync(&user_b, &vault_id, vec![0x00, 0x01, 0x05, 0x01, b'z'], &mut lm).unwrap();

    // tombstone metadata record for column 5 under tenant A
    _login_metadata_sync(&user_a, &vault_id, vec![0x00, 0x00, 0x05], &mut lc, &mut lm).unwrap();

    let logins_a = _get_logins(&user_a, &vault_id, &lm, &lc).unwrap();
    assert!(logins_a.columns.iter().find(|c| c.0 == 5).is_none());
    assert_eq!(login_cell(&logins_a, 6, 1).unwrap(), b"y".to_vec());
    let logins_b = _get_logins(&user_b, &vault_id, &lm, &lc).unwrap();
    assert_eq!(login_cell(&logins_b, 5, 1).unwrap(), b"z".to_vec());
}

#[test]
fn empty_vault_name_removes_vault_from_enumeration() {
    let mut vnm = ByteStore::new();
    let user_id = some_user_id();
    // name vault [0xAA, 0xBB]
    let mut batch = vec![0x02, 0x00, 0x04];
    batch.extend_from_slice(&[0xAA, 0xBB]);
    batch.extend_from_slice(b"mine");
    _vault_names_sync(&user_id, &batch, &mut vnm).unwrap();
    assert_eq!(_get_vault_names(&user_id, &vnm).names.len(), 1);

    // same vault, empty name: the record is removed
    let tombstone = vec![0x02, 0x00, 0x00, 0xAA, 0xBB];
    _vault_names_sync(&user_id, &tombstone, &mut vnm).unwrap();
    assert_eq!(_get_vault_names(&user_id, &vnm).names.len(), 0);
    assert_eq!(vnm.len(), 0);
}

#[test]
fn vault_name_lookup_returns_name_or_empty() {
    let mut vnm = ByteStore::new();
    let user_id = some_user_id();
    let vault_id = some_vault_id();
    assert_eq!(_get_vault_name(&user_id, &vault_id, &vnm), Vec::<u8>::new());
    let mut batch = vec![vault_id.len() as u8, 0x00, 0x02];
    batch.extend_from_slice(&vault_id);
    batch.extend_from_slice(b"hi");
    _vault_names_sync(&user_id, &batch, &mut vnm).unwrap();
    assert_eq!(_get_vault_name(&user_id, &vault_id, &vnm), b"hi".to_vec());
}

#[test]
fn orphaned_login_cell_is_an_integrity_violation() {
    let mut lc = ByteStore::new();
    let mut lm = ByteStore::new();
    let user_id = some_user_id();
    let vault_id = some_vault_id();
    // a login cell with no metadata for its column
    _login_data_sync(&user_id, &vault_id, vec![0x00, 0x01, 0x09, 0x01, b'u'], &mut lm).unwrap();
    assert_eq!(
        _get_logins(&user_id, &vault_id, &lm, &lc).unwrap_err(),
        VaultError::IntegrityViolation
    );
}

#[test]
fn login_full_sync_applies_metadata_then_cells() {
    let mut lc = ByteStore::new();
    let mut lm = ByteStore::new();
    let user_id = some_user_id();
    let vault_id = some_vault_id();
    let mut data = vec![0x00, 0x00, 0x00, 0x07];
    data.extend_from_slice(&[0x00, 0x04, 0x02, b's', b'i', b't', b'e']);
    data.extend_from_slice(&[0x00, 0x02, 0x02, 0x01, b'h', b'i']);
    _login_full_sync(&user_id, &vault_id, data, &mut lc, &mut lm).unwrap();
    let logins = _get_logins(&user_id, &vault_id, &lm, &lc).unwrap();
    assert_eq!(logins.columns.len(), 1);
    assert_eq!(logins.columns[0].0, 2);
    assert_eq!(logins.columns[0].1.label, b"site".to_vec());
    assert_eq!(login_cell(&logins, 2, 1).unwrap(), b"hi".to_vec());
}

#[test]
fn login_data_deletes_remove_named_coordinates() {
    let mut lc = ByteStore::new();
    let mut lm = ByteStore::new();
    let user_id = some_user_id();
    let vault_id = some_vault_id();
    _login_metadata_sync(&user_id, &vault_id, vec![0x00, 0x01, 0x02, b's'], &mut lc, &mut lm)
        .unwrap();
    _login_data_sync(&user_id, &vault_id, vec![0x00, 0x02, 0x02, 0x01, b'h', b'i'], &mut lm)
        .unwrap();
    _login_data_deletes(&user_id, &vault_id, vec![0x02, 0x01], &mut lm).unwrap();
    let logins = _get_logins(&user_id, &vault_id, &lm, &lc).unwrap();
    assert_eq!(logins.columns.len(), 1);
    assert!(login_cell(&logins, 2, 1).is_none());
}

#[test]
fn note_with_empty_label_is_removed() {
    let mut nm = ByteStore::new();
    let user_id = some_user_id();
    let vault_id = some_vault_id();
    _secret_notes_sync(
        &user_id,
        &vault_id,
        vec![0x01, 0x00, 0x01, 0x03, b'l', b'n'],
        &mut nm,
    )
    .unwrap();
    assert_eq!(_get_notes(&user_id, &vault_id, &nm).notes.len(), 1);
    // empty label at the same index: tombstone (the note text is ignored)
    _secret_notes_sync(&user_id, &vault_id, vec![0x00, 0x00, 0x01, 0x03, b'z'], &mut nm).unwrap();
    assert_eq!(_get_notes(&user_id, &vault_id, &nm).notes.len(), 0);
    assert_eq!(nm.len(), 0);
}

#[test]
fn column_metadata_sync_and_projection() {
    let mut sc = ByteStore::new();
    let user_id = some_user_id();
    let vault_id = some_vault_id();
    let batch = vec![0x00, 0x03, 0x02, 0x01, b'c', b'o', b'l', 0x00, 0x01, 0x05, 0x00, b'd'];
    _vault_spreadsheet_columns_sync(&user_id, &vault_id, batch, &mut sc).unwrap();
    let info = _get_columns_info(&user_id, &vault_id, &sc);
    assert_eq!(info.len(), 2);
    let col2 = info.iter().find(|c| c.0 == 2).unwrap();
    assert_eq!(col2.1 .0, b"col".to_vec());
    assert_eq!(col2.1 .1, true);
    let col5 = info.iter().find(|c| c.0 == 5).unwrap();
    assert_eq!(col5.1 .0, b"d".to_vec());
    assert_eq!(col5.1 .1, false);

    // an empty name with the hidden flag set keeps the column
    _vault_spreadsheet_columns_sync(&user_id, &vault_id, vec![0x00, 0x00, 0x05, 0x01], &mut sc)
        .unwrap();
    let info = _get_columns_info(&user_id, &vault_id, &sc);
    assert_eq!(info.len(), 2);
    let col5 = info.iter().find(|c| c.0 == 5).unwrap();
    assert_eq!(col5.1 .0, Vec::<u8>::new());
    assert_eq!(col5.1 .1, true);

    // an empty name with the hidden flag clear removes the column
    _vault_spreadsheet_columns_sync(&user_id, &vault_id, vec![0x00, 0x00, 0x02, 0x00], &mut sc)
        .unwrap();
    let info = _get_columns_info(&user_id, &vault_id, &sc);
    assert_eq!(info.len(), 1);
    assert!(info.iter().find(|c| c.0 == 2).is_none());
}

#[test]
fn global_sync_applies_every_segment_atomically() {
    let mut state = GeneralState::init();
    let user_id = some_user_id();
    let vault_id = some_vault_id();

    let columns = vec![0x00, 0x01, 0x00, 0x00, b'c'];
    let sheet = vec![0x00, 0x02, 0x00, 0x02, b'h', b'e'];
    let notes = vec![0x01, 0x00, 0x01, 0x03, b'l', b'n'];
    let mut login = vec![0x00, 0x00, 0x00, 0x04];
    login.extend_from_slice(&[0x00, 0x01, 0x05, b's']);
    login.extend_from_slice(&[0x00, 0x01, 0x05, 0x01, b'u']);

    let mut data = Vec::new();
    data.extend_from_slice(&(columns.len() as u32).to_be_bytes());
    data.extend_from_slice(&columns);
    data.extend_from_slice(&(sheet.len() as u32).to_be_bytes());
    data.extend_from_slice(&sheet);
    data.extend_from_slice(&(notes.len() as u32).to_be_bytes());
    data.extend_from_slice(&notes);
    data.extend_from_slice(&login);

    _global_sync(&user_id, &vault_id, data, &mut state).unwrap();

    let sheet_view = _get_spreadsheet(&user_id, &vault_id, &state.spreadsheet_map);
    assert_eq!(sheet_cell(&sheet_view, 0, 2).unwrap(), b"he".to_vec());
    let info = _get_columns_info(&user_id, &vault_id, &state.spreadsheet_columns);
    assert_eq!(info.iter().find(|c| c.0 == 0).unwrap().1 .0, b"c".to_vec());
    let notes_view = _get_notes(&user_id, &vault_id, &state.notes_map);
    assert_eq!(notes_view.notes.len(), 1);
    let logins_view = _get_logins(&user_id, &vault_id, &state.logins_map, &state.logins_columns)
        .unwrap();
    assert_eq!(login_cell(&logins_view, 5, 1).unwrap(), b"u".to_vec());

    // a malformed global buffer leaves every store untouched
    let before = state.spreadsheet_map.len();
    assert_eq!(
        _global_sync(&user_id, &vault_id, vec![0x00, 0x00, 0x00, 0x63], &mut state).unwrap_err(),
        VaultError::MalformedInput
    );
    assert_eq!(state.spreadsheet_map.len(), before);
}

#[test]
fn delete_vault_sweeps_all_six_stores_for_one_tenant() {
    let mut state = GeneralState::init();
    let user_id = some_user_id();
    let vault_a = some_vault_id();
    let vault_b = some_other_principal();

    for vault in [&vault_a, &vault_b] {
        _vault_spreadsheet_sync(&user_id, vault, vec![0x00, 0x01, 0x00, 0x00, b'p'], &mut state.spreadsheet_map).unwrap();
        _vault_spreadsheet_columns_sync(&user_id, vault, vec![0x00, 0x01, 0x00, 0x00, b'c'], &mut state.spreadsheet_columns).unwrap();
        _login_metadata_sync(&user_id, vault, vec![0x00, 0x01, 0x01, b's'], &mut state.logins_columns, &mut state.logins_map).unwrap();
        _login_data_sync(&user_id, vault, vec![0x00, 0x01, 0x01, 0x01, b'u'], &mut state.logins_map).unwrap();
        _secret_notes_sync(&user_id, vault, vec![0x01, 0x00, 0x01, 0x00, b'l', b'n'], &mut state.notes_map).unwrap();
        let mut names = vec![vault.len() as u8, 0x00, 0x01];
        names.extend_from_slice(vault);
        names.push(b'v');
        _vault_names_sync(&user_id, &names, &mut state.vault_names_map).unwrap();
    }
    assert_eq!(state.spreadsheet_map.len(), 2);
    assert_eq!(state.vault_names_map.len(), 2);

    _delete_vault(&user_id, &vault_a, &mut state);

    assert!(sheet_cell(&_get_spreadsheet(&user_id, &vault_a, &state.spreadsheet_map), 0, 0).is_none());
    assert_eq!(sheet_cell(&_get_spreadsheet(&user_id, &vault_b, &state.spreadsheet_map), 0, 0).unwrap(), b"p".to_vec());
    assert_eq!(state.spreadsheet_map.len(), 1);
    assert_eq!(state.spreadsheet_columns.len(), 1);
    assert_eq!(state.logins_map.len(), 1);
    assert_eq!(state.logins_columns.len(), 1);
    assert_eq!(state.notes_map.len(), 1);
    assert_eq!(state.vault_names_map.len(), 1);
    assert_eq!(_get_vault_name(&user_id, &vault_a, &state.vault_names_map), Vec::<u8>::new());
    assert_eq!(_get_vault_name(&user_id, &vault_b, &state.vault_names_map), b"v".to_vec());
}

#[test]
fn purge_user_deletes_every_named_vault_of_the_owner() {
    let mut state = GeneralState::init();
    let user_a = some_user_id();
    let user_b = some_other_principal();
    let vault_id = some_vault_id();

    for user in [&user_a, &user_b] {
        _vault_spreadsheet_sync(user, &vault_id, vec![0x00, 0x01, 0x00, 0x00, b'p'], &mut state.spreadsheet_map).unwrap();
        _secret_notes_sync(user, &vault_id, vec![0x01, 0x00, 0x01, 0x00, b'l', b'n'], &mut state.notes_map).unwrap();
        let mut names = vec![vault_id.len() as u8, 0x00, 0x01];
        names.extend_from_slice(&vault_id);
        names.push(b'v');
        _vault_names_sync(user, &names, &mut state.vault_names_map).unwrap();
    }

    _purge_user(&user_a, &mut state);

    assert_eq!(_get_vault_names(&user_a, &state.vault_names_map).names.len(), 0);
    assert_eq!(_get_vault_names(&user_b, &state.vault_names_map).names.len(), 1);
    assert!(sheet_cell(&_get_spreadsheet(&user_a, &vault_id, &state.spreadsheet_map), 0, 0).is_none());
    assert_eq!(sheet_cell(&_get_spreadsheet(&user_b, &vault_id, &state.spreadsheet_map), 0, 0).unwrap(), b"p".to_vec());
    assert_eq!(_get_notes(&user_a, &vault_id, &state.notes_map).notes.len(), 0);
    assert_eq!(_get_notes(&user_b, &vault_id, &state.notes_map).notes.len(), 1);
}

#[test]
fn whole_vault_and_user_aggregates_combine_views() {
    let mut state = GeneralState::init();
    let user_id = some_user_id();
    let vault_id = some_vault_id();

    _vault_spreadsheet_sync(&user_id, &vault_id, vec![0x00, 0x02, 0x00, 0x02, b'h', b'e'], &mut state.spreadsheet_map).unwrap();
    _login_metadata_sync(&user_id, &vault_id, vec![0x00, 0x01, 0x01, b's'], &mut state.logins_columns, &mut state.logins_map).unwrap();
    _secret_notes_sync(&user_id, &vault_id, vec![0x01, 0x00, 0x01, 0x00, b'l', b'n'], &mut state.notes_map).unwrap();
    let mut names = vec![vault_id.len() as u8, 0x00, 0x04];
    names.extend_from_slice(&vault_id);
    names.extend_from_slice(b"mine");
    _vault_names_sync(&user_id, &names, &mut state.vault_names_map).unwrap();

    let name = _get_vault_name(&user_id, &vault_id, &state.vault_names_map);
    let vault = _get_vault(&name, &user_id, &vault_id, &state).unwrap();
    assert_eq!(vault.vault_name, b"mine".to_vec());
    assert_eq!(sheet_cell(&vault.spreadsheet, 0, 2).unwrap(), b"he".to_vec());
    assert_eq!(vault.logins.columns.len(), 1);
    assert_eq!(vault.notes.notes.len(), 1);

    let all = _get_user_vaults(&user_id, &state).unwrap();
    assert_eq!(all.vaults.len(), 1);
    assert_eq!(all.vaults[0].0, vault_id);
    assert_eq!(all.vaults[0].1.vault_name, b"mine".to_vec());
}

#[test]
fn empty_updates_are_silent_no_ops() {
    let mut state = GeneralState::init();
    let user_id = some_user_id();
    let vault_id = some_vault_id();
    _vault_spreadsheet_sync(&user_id, &vault_id, vec![], &mut state.spreadsheet_map).unwrap();
    _vault_names_sync(&user_id, &vec![], &mut state.vault_names_map).unwrap();
    _login_full_sync(&user_id, &vault_id, vec![], &mut state.logins_columns, &mut state.logins_map).unwrap();
    _global_sync(&user_id, &vault_id, vec![], &mut state).unwrap();
    _secret_notes_sync(&user_id, &vault_id, vec![], &mut state.notes_map).unwrap();
    assert_eq!(state.spreadsheet_map.len(), 0);
    assert_eq!(state.vault_names_map.len(), 0);
    assert_eq!(state.logins_map.len(), 0);
    assert_eq!(state.notes_map.len(), 0);
}

#[test]
fn process_delete_vault_takes_raw_tenant_bytes() {
    let mut state = GeneralState::init();
    let user_id = some_user_id();
    let vault_id = some_vault_id();
    _vault_spreadsheet_sync(&user_id, &vault_id, vec![0x00, 0x01, 0x00, 0x00, b'p'], &mut state.spreadsheet_map).unwrap();
    let mut principals = user_id.clone();
    principals.extend_from_slice(&vault_id);
    _process_delete_vault(&principals, &mut state);
    assert_eq!(state.spreadsheet_map.len(), 0);
}

#[test]
fn encoded_record_set_round_trips_through_apply_and_project() {
    // encode three non-empty records as a cell batch, apply, project:
    // exactly that set comes back, grouped by column, then row
    let records: Vec<(u8, u8, Vec<u8>)> = vec![
        (1, 2, b"ab".to_vec()),
        (3, 4, b"cd".to_vec()),
        (1, 7, b"ef".to_vec()),
    ];
    let mut batch: Vec<u8> = Vec::new();
    for (x, y, payload) in &records {
        batch.extend_from_slice(&(payload.len() as u16).to_be_bytes());
        batch.push(*x);
        batch.push(*y);
        batch.extend_from_slice(payload);
    }
    let mut sm = ByteStore::new();
    let user_id = some_user_id();
    let vault_id = some_vault_id();
    _vault_spreadsheet_sync(&user_id, &vault_id, batch, &mut sm).unwrap();
    let sheet = _get_spreadsheet(&user_id, &vault_id, &sm);
    for (x, y, payload) in &records {
        assert_eq!(sheet_cell(&sheet, *x, *y).unwrap(), *payload);
    }
    let total: usize = sheet.columns.iter().map(|c| c.1.rows.len()).sum();
    assert_eq!(total, records.len());
    assert_eq!(sheet.columns.len(), 2);
}

#[test]
fn later_record_for_same_coordinate_wins() {
    // one batch writes (1,1) twice; the later payload is the stored one,
    // and a payload longer than 255 bytes exercises the high length byte
    let long_payload = vec![0x7A; 300];
    let mut batch: Vec<u8> = vec![0x00, 0x01, 0x01, 0x01, b'a'];
    batch.extend_from_slice(&(long_payload.len() as u16).to_be_bytes());
    batch.push(0x01);
    batch.push(0x01);
    batch.extend_from_slice(&long_payload);
    let mut sm = ByteStore::new();
    let user_id = some_user_id();
    let vault_id = some_vault_id();
    _vault_spreadsheet_sync(&user_id, &vault_id, batch, &mut sm).unwrap();
    let sheet = _get_spreadsheet(&user_id, &vault_id, &sm);
    assert_eq!(sheet_cell(&sheet, 1, 1).unwrap(), long_payload);
    assert_eq!(sm.len(), 1);
}
