//! Wire-codec tests: each batch format decoded from concrete buffers, the
//! documented failure mode on truncated input, and the empty-buffer case.
use vault_core::api::deserialiser::{
    deserialise_column_data, deserialise_delete_cells, deserialise_global_sync,
    deserialise_login_full_sync, deserialise_login_metadata, deserialise_secure_notes,
    deserialise_spreadsheet, deserialise_vault_names,
};
use vault_core::api::deserialiser_types::DeleteMetadatas;
use vault_core::VaultError;

fn spreadsheet_fixture() -> Vec<u8> {
    vec![
        0x00, 0x0F, 0x00, 0x02, 0x74, 0x68, 0x65, 0x20, 0x71, 0x75, 0x69, 0x63, 0x6B, 0x20, 0x62,
        0x72, 0x6F, 0x77, 0x6E, 0x00, 0x00, 0x03, 0x04, 0x00, 0x17, 0x0B, 0x05, 0x66, 0x6F, 0x78,
        0x20, 0x6A, 0x75, 0x6D, 0x70, 0x73, 0x20, 0x6F, 0x76, 0x65, 0x72, 0x20, 0x74, 0x68, 0x65,
        0x20, 0x6C, 0x61, 0x7A, 0x79, 0x00, 0x03, 0x04, 0x6B, 0x64, 0x6F, 0x67,
    ]
}

#[test]
fn lib_test_deserialise_spreadsheet() {
    let data: Vec<u8> = vec![
        0x00, 0x0F, 0x00, 0x02, 0x74, 0x68, 0x65, 0x20, 0x71, 0x75, 0x69, 0x63, 0x6B, 0x20, 0x62,
        0x72, 0x6F, 0x77, 0x6E, 0x00, 0x00, 0x03, 0x04, 0x00, 0x17, 0x0B, 0x05, 0x66, 0x6F, 0x78,
        0x20, 0x6A, 0x75, 0x6D, 0x70, 0x73, 0x20, 0x6F, 0x76, 0x65, 0x72, 0x20, 0x74, 0x68, 0x65,
        0x20, 0x6C, 0x61, 0x7A, 0x79, 0x00, 0x03, 0x04, 0x6B, 0x64, 0x6F, 0x67,
    ];
    let cells = deserialise_spreadsheet(data).unwrap();
    assert_eq!(cells.cells[0].header.x, 0);
    assert_eq!(cells.cells[0].header.y, 2);
    assert_eq!(
        cells.cells[0].data,
        vec![0x74, 0x68, 0x65, 0x20, 0x71, 0x75, 0x69, 0x63, 0x6B, 0x20, 0x62, 0x72, 0x6F, 0x77, 0x6E]
    );
    assert_eq!(cells.cells[1].header.x, 3);
    assert_eq!(cells.cells[1].header.y, 4);
    assert_eq!(cells.cells[2].header.x, 11);
    assert_eq!(cells.cells[2].header.y, 5);
    assert_eq!(
        cells.cells[2].data,
        vec![
            0x66, 0x6F, 0x78, 0x20, 0x6A, 0x75, 0x6D, 0x70, 0x73, 0x20, 0x6F, 0x76, 0x65, 0x72,
            0x20, 0x74, 0x68, 0x65, 0x20, 0x6C, 0x61, 0x7A, 0x79
        ]
    );
    assert_eq!(cells.cells[3].header.x, 4);
    assert_eq!(cells.cells[3].header.y, 107);
    assert_eq!(cells.cells[3].data, vec![0x64, 0x6F, 0x67]);
}

#[test]
fn test_test_deserialise_spreadsheet() {
    let data: Vec<u8> = spreadsheet_fixture();
    let cells = deserialise_spreadsheet(data).unwrap();
    assert_eq!(cells.cells[0].header.x, 0);
    assert_eq!(cells.cells[0].header.y, 2);
    assert_eq!(
        cells.cells[0].data,
        vec![0x74, 0x68, 0x65, 0x20, 0x71, 0x75, 0x69, 0x63, 0x6B, 0x20, 0x62, 0x72, 0x6F, 0x77, 0x6E]
    );
    assert_eq!(cells.cells[1].header.x, 3);
    assert_eq!(cells.cells[1].header.y, 4);
    assert_eq!(cells.cells[2].header.x, 11);
    assert_eq!(cells.cells[2].header.y, 5);
    assert_eq!(
        cells.cells[2].data,
        vec![
            0x66, 0x6F, 0x78, 0x20, 0x6A, 0x75, 0x6D, 0x70, 0x73, 0x20, 0x6F, 0x76, 0x65, 0x72,
            0x20, 0x74, 0x68, 0x65, 0x20, 0x6C, 0x61, 0x7A, 0x79
        ]
    );
    assert_eq!(cells.cells[3].header.x, 4);
    assert_eq!(cells.cells[3].header.y, 107);
    assert_eq!(cells.cells[3].data, vec![0x64, 0x6F, 0x67]);
}

#[test]
fn empty_buffers_decode_to_empty_batches() {
    assert_eq!(deserialise_spreadsheet(vec![]).unwrap().cells.len(), 0);
    assert_eq!(deserialise_delete_cells(vec![]).unwrap().cells.len(), 0);
    assert_eq!(deserialise_login_metadata(vec![]).unwrap().metadatas.len(), 0);
    assert_eq!(deserialise_secure_notes(vec![]).unwrap().notes.len(), 0);
    assert_eq!(deserialise_vault_names(&vec![]).unwrap().names.len(), 0);
    assert_eq!(deserialise_column_data(&vec![]).unwrap().columns.len(), 0);
}

#[test]
fn truncated_cell_batch_is_malformed() {
    // header shorter than four bytes
    assert_eq!(
        deserialise_spreadsheet(vec![0x00, 0x02, 0x01]).unwrap_err(),
        VaultError::MalformedInput
    );
    // payload shorter than the size field says
    assert_eq!(
        deserialise_spreadsheet(vec![0x00, 0x02, 0x01, 0x01, 0x61]).unwrap_err(),
        VaultError::MalformedInput
    );
}

#[test]
fn tombstone_cell_record_occupies_only_its_header() {
    // size = 0: no payload bytes are consumed and the cell decodes empty
    let cells = deserialise_spreadsheet(vec![0x00, 0x00, 0x07, 0x09, 0x00, 0x01, 0x01, 0x02, 0x61])
        .unwrap();
    assert_eq!(cells.cells.len(), 2);
    assert_eq!(cells.cells[0].header.x, 7);
    assert_eq!(cells.cells[0].header.y, 9);
    assert_eq!(cells.cells[0].data, Vec::<u8>::new());
    assert_eq!(cells.cells[1].header.x, 1);
    assert_eq!(cells.cells[1].header.y, 2);
    assert_eq!(cells.cells[1].data, vec![0x61]);
}

#[test]
fn delete_cells_batch_decodes_coordinate_pairs() {
    let deletes = deserialise_delete_cells(vec![3, 4, 11, 5]).unwrap();
    assert_eq!(deletes.cells.len(), 2);
    assert_eq!(deletes.cells[0].x, 3);
    assert_eq!(deletes.cells[0].y, 4);
    assert_eq!(deletes.cells[1].x, 11);
    assert_eq!(deletes.cells[1].y, 5);
    // an odd byte count cannot be a delete batch
    assert_eq!(
        deserialise_delete_cells(vec![3, 4, 11]).unwrap_err(),
        VaultError::MalformedInput
    );
}

#[test]
fn login_metadata_batch_decodes_labels() {
    let data = vec![0x00, 0x04, 0x02, b's', b'i', b't', b'e', 0x00, 0x00, 0x07];
    let metadata = deserialise_login_metadata(data).unwrap();
    assert_eq!(metadata.metadatas.len(), 2);
    assert_eq!(metadata.metadatas[0].header.x, 2);
    assert_eq!(metadata.metadatas[0].data, b"site".to_vec());
    assert_eq!(metadata.metadatas[1].header.x, 7);
    assert_eq!(metadata.metadatas[1].data, Vec::<u8>::new());
    assert_eq!(
        deserialise_login_metadata(vec![0x00, 0x05, 0x02, b'a']).unwrap_err(),
        VaultError::MalformedInput
    );
}

#[test]
fn secure_note_batch_decodes_labels_and_notes() {
    let data = vec![
        0x05, 0x00, 0x0e, 0x00, b'l', b'a', b'b', b'e', b'l', b's', b'o', b'm', b'e', b' ', b'n',
        b'o', b't', b'e', b' ', b'd', b'a', b't', b'a', 0x02, 0x00, 0x05, 0x01, b'l', b'a', b's',
        b'o', b'm', b'e', b' ',
    ];
    let notes = deserialise_secure_notes(data).unwrap();
    assert_eq!(notes.notes.len(), 2);
    assert_eq!(notes.notes[0].header.x, 0);
    assert_eq!(notes.notes[0].label, b"label".to_vec());
    assert_eq!(notes.notes[0].note, b"some note data".to_vec());
    assert_eq!(notes.notes[1].header.x, 1);
    assert_eq!(notes.notes[1].label, b"la".to_vec());
    assert_eq!(notes.notes[1].note, b"some ".to_vec());
}

#[test]
fn vault_name_batch_decodes_ids_and_names() {
    let mut data = vec![0x03, 0x00, 0x05];
    data.extend_from_slice(&[0xAA, 0xBB, 0xCC]);
    data.extend_from_slice(b"vault");
    let names = deserialise_vault_names(&data).unwrap();
    assert_eq!(names.names.len(), 1);
    assert_eq!(names.names[0].header.principal_size, 3);
    assert_eq!(names.names[0].header.name_size, 5);
    assert_eq!(names.names[0].vault_id, vec![0xAA, 0xBB, 0xCC]);
    assert_eq!(names.names[0].vault_name, b"vault".to_vec());
    // a record shorter than its header says is malformed
    assert_eq!(
        deserialise_vault_names(&vec![0x03, 0x00, 0x05, 0xAA]).unwrap_err(),
        VaultError::MalformedInput
    );
}

#[test]
fn column_metadata_batch_decodes_names_and_hidden_flags() {
    // size:u16, x, hidden, name
    let data = vec![0x00, 0x03, 0x02, 0x01, b'c', b'o', b'l', 0x00, 0x00, 0x05, 0x00];
    let columns = deserialise_column_data(&data).unwrap();
    assert_eq!(columns.columns.len(), 2);
    assert_eq!(columns.columns[0].header.x, 2);
    assert_eq!(columns.columns[0].header.hidden, 1);
    assert_eq!(columns.columns[0].name, b"col".to_vec());
    assert_eq!(columns.columns[1].header.x, 5);
    assert_eq!(columns.columns[1].header.hidden, 0);
    assert_eq!(columns.columns[1].name, Vec::<u8>::new());
}

#[test]
fn delete_metadata_batch_takes_every_byte_as_a_column() {
    let deletes = DeleteMetadatas::new(vec![5, 9, 0]);
    assert_eq!(deletes.metadatas.len(), 3);
    assert_eq!(deletes.metadatas[0].x, 5);
    assert_eq!(deletes.metadatas[1].x, 9);
    assert_eq!(deletes.metadatas[2].x, 0);
}

#[test]
fn login_full_sync_decodes_prefixed_metadata_then_cells() {
    // 4-byte metadata byte count, metadata segment, then cells
    let mut data = vec![0x00, 0x00, 0x00, 0x07];
    data.extend_from_slice(&[0x00, 0x04, 0x02, b's', b'i', b't', b'e']);
    data.extend_from_slice(&[0x00, 0x02, 0x02, 0x01, b'h', b'i']);
    let login = deserialise_login_full_sync(data).unwrap();
    assert_eq!(login.metadata.metadatas.len(), 1);
    assert_eq!(login.metadata.metadatas[0].header.x, 2);
    assert_eq!(login.metadata.metadatas[0].data, b"site".to_vec());
    assert_eq!(login.cells.cells.len(), 1);
    assert_eq!(login.cells.cells[0].header.x, 2);
    assert_eq!(login.cells.cells[0].header.y, 1);
    assert_eq!(login.cells.cells[0].data, b"hi".to_vec());
    // buffer shorter than the length prefix implies
    assert_eq!(
        deserialise_login_full_sync(vec![0x00, 0x00, 0x00, 0x07, 0x00]).unwrap_err(),
        VaultError::MalformedInput
    );
    // an empty login full-sync buffer cannot carry its length prefix
    assert_eq!(
        deserialise_login_full_sync(vec![]).unwrap_err(),
        VaultError::MalformedInput
    );
}

#[test]
fn global_sync_decodes_all_four_segments() {
    // column-metadata segment
    let columns = vec![0x00, 0x01, 0x00, 0x00, b'c'];
    // spreadsheet-cell segment
    let sheet = vec![0x00, 0x02, 0x00, 0x02, b'h', b'e'];
    // secure-note segment
    let notes = vec![0x01, 0x00, 0x01, 0x03, b'l', b'n'];
    // login segment: metadata byte count, metadata, cells
    let mut login = vec![0x00, 0x00, 0x00, 0x04];
    login.extend_from_slice(&[0x00, 0x01, 0x05, b's']);
    login.extend_from_slice(&[0x00, 0x01, 0x05, 0x01, b'u']);

    let mut data = Vec::new();
    data.extend_from_slice(&(columns.len() as u32).to_be_bytes());
    data.extend_from_slice(&columns);
    data.extend_from_slice(&(sheet.len() as u32).to_be_bytes());
    data.extend_from_slice(&sheet);
    data.extend_from_slice(&(notes.len() as u32).to_be_bytes());
    data.extend_from_slice(&notes);
    data.extend_from_slice(&login);

    let global = deserialise_global_sync(data).unwrap();
    assert_eq!(global.spreadsheet_columns.columns.len(), 1);
    assert_eq!(global.spreadsheet_columns.columns[0].header.x, 0);
    assert_eq!(global.spreadsheet_columns.columns[0].name, b"c".to_vec());
    assert_eq!(global.spreadsheet.cells.len(), 1);
    assert_eq!(global.spreadsheet.cells[0].data, b"he".to_vec());
    assert_eq!(global.secure_notes.notes.len(), 1);
    assert_eq!(global.secure_notes.notes[0].header.x, 3);
    assert_eq!(global.secure_notes.notes[0].label, b"l".to_vec());
    assert_eq!(global.secure_notes.notes[0].note, b"n".to_vec());
    assert_eq!(global.logins.metadata.metadatas.len(), 1);
    assert_eq!(global.logins.metadata.metadatas[0].header.x, 5);
    assert_eq!(global.logins.cells.cells.len(), 1);
    assert_eq!(global.logins.cells.cells[0].header.x, 5);
    assert_eq!(global.logins.cells.cells[0].header.y, 1);
    assert_eq!(global.logins.cells.cells[0].data, b"u".to_vec());

    // a segment length pointing past the buffer is malformed
    assert_eq!(
        deserialise_global_sync(vec![0x00, 0x00, 0x00, 0x09, 0x01]).unwrap_err(),
        VaultError::MalformedInput
    );
}
