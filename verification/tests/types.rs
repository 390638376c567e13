//! Storage-record type tests: key and value encodings round-trip, tenant
//! comparisons behave as documented, and the key-blob cache stores per owner.
use vault_core::api::key_api::{retrieve_vetkey_per_user, save_vetkey_for_user, storage_user_of, Scope};
use vault_core::store::ByteStore;
use vault_core::vault_type::logins::LoginSiteKey;
use vault_core::vault_type::secure_notes::{SecureNote, SecureNoteKey};
use vault_core::vault_type::spreadsheet::{
    ColumnData, ColumnKey, LoginValue, SpreadsheetKey, SpreadsheetValue,
};
use vault_core::vault_type::vault_names::{VaultNameKey, VaultNameValue};

#[test]
fn spreadsheet_key_orders_coordinates_before_tenant() {
    let user = vec![0x01, 0x02];
    let vault = vec![0x03];
    let key = SpreadsheetKey::new(&user, &vault, 7, 9);
    assert_eq!(key.principals, vec![0x01, 0x02, 0x03]);
    let bytes = key.to_bytes();
    assert_eq!(bytes, vec![7, 9, 0x01, 0x02, 0x03]);
    let back = SpreadsheetKey::from_bytes(&bytes);
    assert_eq!(back.x, 7);
    assert_eq!(back.y, 9);
    assert_eq!(back.principals, vec![0x01, 0x02, 0x03]);
    assert!(key.principals_match(&vec![0x01, 0x02, 0x03]));
    assert!(!key.principals_match(&vec![0x01, 0x02]));
}

#[test]
fn login_site_key_orders_column_before_tenant() {
    let key = LoginSiteKey::new(&vec![0xAA], &vec![0xBB], 4);
    assert_eq!(key.to_bytes(), vec![4, 0xAA, 0xBB]);
    let back = LoginSiteKey::from_bytes(&vec![4, 0xAA, 0xBB]);
    assert_eq!(back.x, 4);
    assert_eq!(back.principals, vec![0xAA, 0xBB]);
    assert!(key.principals_match(&vec![0xAA, 0xBB]));
}

#[test]
fn column_key_and_data_round_trip() {
    let key = ColumnKey::new(&vec![0x01], &vec![0x02], 3);
    assert_eq!(key.to_bytes(), vec![3, 0x01, 0x02]);
    let back = ColumnKey::from_bytes(&key.to_bytes());
    assert_eq!(back.x, 3);
    assert_eq!(back.principals, vec![0x01, 0x02]);

    let hidden = ColumnData::new(true, b"name".to_vec());
    assert_eq!(hidden.to_bytes(), vec![1, b'n', b'a', b'm', b'e']);
    let shown = ColumnData::new(false, b"n".to_vec());
    assert_eq!(shown.to_bytes(), vec![0, b'n']);
    let decoded = ColumnData::from_bytes(&hidden.to_bytes());
    assert_eq!(decoded.hidden, true);
    assert_eq!(decoded.name, b"name".to_vec());
}

#[test]
fn spreadsheet_value_is_stored_as_is() {
    let value = SpreadsheetValue::new(vec![1, 2, 3]);
    assert_eq!(value.to_bytes(), vec![1, 2, 3]);
    assert_eq!(SpreadsheetValue::from_bytes(&vec![1, 2, 3]).data, vec![1, 2, 3]);
}

#[test]
fn login_value_prefixes_username_length() {
    let value = LoginValue::new(b"user".to_vec(), b"pw".to_vec());
    let bytes = value.to_bytes();
    assert_eq!(bytes, vec![0, 4, b'u', b's', b'e', b'r', b'p', b'w']);
    let back = LoginValue::from_bytes(&bytes);
    assert_eq!(back.username, b"user".to_vec());
    assert_eq!(back.password, b"pw".to_vec());
}

#[test]
fn secure_note_encodes_label_length_label_then_note() {
    let note = SecureNote::new(b"lab".to_vec(), b"note".to_vec());
    let bytes = note.to_bytes();
    assert_eq!(bytes, vec![3, b'l', b'a', b'b', b'n', b'o', b't', b'e']);
    let back = SecureNote::from_bytes(&bytes);
    assert_eq!(back.label, b"lab".to_vec());
    assert_eq!(back.note, b"note".to_vec());

    let key = SecureNoteKey { index: 9, principals: vec![0xAA] };
    assert_eq!(key.to_bytes(), vec![9, 0xAA]);
    let kback = SecureNoteKey::from_bytes(&key.to_bytes());
    assert_eq!(kback.index, 9);
    assert_eq!(kback.principals, vec![0xAA]);
    assert!(key.principals_match(&vec![0xAA]));
}

#[test]
fn vault_name_key_matches_owner_by_prefix_only() {
    let key = VaultNameKey::new(&vec![0x01, 0x02], &vec![0x03, 0x04]);
    assert_eq!(key.principals, vec![0x01, 0x02, 0x03, 0x04]);
    assert_eq!(key.to_bytes(), vec![0x01, 0x02, 0x03, 0x04]);
    assert!(key.user_principals_match(&vec![0x01, 0x02]));
    assert!(!key.user_principals_match(&vec![0x02]));
    assert!(key.principals_match(&vec![0x01, 0x02, 0x03, 0x04]));
    assert!(!key.principals_match(&vec![0x01, 0x02]));
    let back = VaultNameKey::from_bytes(&vec![0x05, 0x06]);
    assert_eq!(back.principals, vec![0x05, 0x06]);

    let value = VaultNameValue::new(&b"home".to_vec());
    assert_eq!(value.to_bytes(), b"home".to_vec());
    assert_eq!(VaultNameValue::from_bytes(&b"home".to_vec()).name, b"home".to_vec());
}

#[test]
fn key_blob_cache_stores_and_retrieves_per_owner() {
    let mut km = ByteStore::new();
    let owner = b"owner-a".to_vec();
    let other = b"owner-b".to_vec();
    assert!(retrieve_vetkey_per_user(&owner, &km).is_none());
    save_vetkey_for_user(&owner, vec![9, 9, 9], &mut km);
    assert_eq!(retrieve_vetkey_per_user(&owner, &km).unwrap(), vec![9, 9, 9]);
    assert!(retrieve_vetkey_per_user(&other, &km).is_none());
}

#[test]
fn storage_user_is_the_named_user_only_for_per_user_scope() {
    let named = Scope::PerUser { user: vec![0x01] };
    assert_eq!(storage_user_of(&named).unwrap(), vec![0x01]);
    assert!(storage_user_of(&Scope::PerCanister).is_none());
    assert!(storage_user_of(&Scope::PerOrg { org_id: vec![0x02] }).is_none());
}
