//! Decoded update batches and the wire formats they come from.
//!
//! Every format is purely sequential. Repeated formats (cells, coordinate
//! deletes, login metadata, vault names, secure notes, column metadata) parse
//! records until the buffer is exhausted; an empty buffer decodes to an empty
//! batch. The composite formats (login full sync, global sync) delimit their
//! segments with 32-bit big-endian byte-count prefixes; one length-prefix
//! convention is used everywhere.
//!
//! A buffer whose remaining bytes are shorter than a decoded header or length
//! field implies is malformed; decoding fails as a whole with
//! `VaultError::MalformedInput` and nothing is returned. The `parse_*` spec
//! functions below are the formats' definitions: each decoder returns `Ok`
//! exactly when its spec function parses the buffer, and returns precisely
//! the parsed records.
use crate::bytes::{be16, be32, bytes_range, read_be32};
use crate::VaultError;
use vstd::prelude::*;

verus! {

/// Records of a cell batch: `(x, y, payload)`. An empty payload is a delete
/// signal for that coordinate.
pub open spec fn parse_cells(s: Seq<u8>) -> Option<Seq<(u8, u8, Seq<u8>)>>
    decreases s.len(),
{
    if s.len() == 0 {
        Some(Seq::empty())
    } else if s.len() < 4 {
        None
    } else {
        let size = be16(s[0], s[1]);
        if 4 + size > s.len() {
            None
        } else {
            match parse_cells(s.skip(4 + size)) {
                Some(rest) => Some(seq![(s[2], s[3], s.subrange(4, 4 + size))] + rest),
                None => None,
            }
        }
    }
}

/// Records of a coordinate-delete batch: bare `(x, y)` pairs.
pub open spec fn parse_delete_cells(s: Seq<u8>) -> Option<Seq<(u8, u8)>>
    decreases s.len(),
{
    if s.len() == 0 {
        Some(Seq::empty())
    } else if s.len() < 2 {
        None
    } else {
        match parse_delete_cells(s.skip(2)) {
            Some(rest) => Some(seq![(s[0], s[1])] + rest),
            None => None,
        }
    }
}

/// Records of a login-metadata batch: `(x, label)`. An empty label is a
/// delete signal for that column's metadata (and, through the mutation
/// engine, for all of its cells).
pub open spec fn parse_login_metadata(s: Seq<u8>) -> Option<Seq<(u8, Seq<u8>)>>
    decreases s.len(),
{
    if s.len() == 0 {
        Some(Seq::empty())
    } else if s.len() < 3 {
        None
    } else {
        let size = be16(s[0], s[1]);
        if 3 + size > s.len() {
            None
        } else {
            match parse_login_metadata(s.skip(3 + size)) {
                Some(rest) => Some(seq![(s[2], s.subrange(3, 3 + size))] + rest),
                None => None,
            }
        }
    }
}

/// Records of a spreadsheet-column-metadata batch: `(x, hidden, name)`.
pub open spec fn parse_columns(s: Seq<u8>) -> Option<Seq<(u8, bool, Seq<u8>)>>
    decreases s.len(),
{
    if s.len() == 0 {
        Some(Seq::empty())
    } else if s.len() < 4 {
        None
    } else {
        let size = be16(s[0], s[1]);
        if 4 + size > s.len() {
            None
        } else {
            match parse_columns(s.skip(4 + size)) {
                Some(rest) => Some(seq![(s[2], s[3] != 0, s.subrange(4, 4 + size))] + rest),
                None => None,
            }
        }
    }
}

/// Records of a secure-note batch: `(x, label, note)`. An empty label is the
/// delete signal; the note text plays no part in deletion.
pub open spec fn parse_notes(s: Seq<u8>) -> Option<Seq<(u8, Seq<u8>, Seq<u8>)>>
    decreases s.len(),
{
    if s.len() == 0 {
        Some(Seq::empty())
    } else if s.len() < 4 {
        None
    } else {
        let llen = s[0] as int;
        let nlen = be16(s[1], s[2]);
        if 4 + llen + nlen > s.len() {
            None
        } else {
            match parse_notes(s.skip(4 + llen + nlen)) {
                Some(rest) => Some(
                    seq![(s[3], s.subrange(4, 4 + llen), s.subrange(4 + llen, 4 + llen + nlen))]
                        + rest,
                ),
                None => None,
            }
        }
    }
}

/// Records of a vault-name batch: `(vault_id, name)`. An empty name is a
/// delete signal for that vault's name entry.
pub open spec fn parse_vault_names(s: Seq<u8>) -> Option<Seq<(Seq<u8>, Seq<u8>)>>
    decreases s.len(),
{
    if s.len() == 0 {
        Some(Seq::empty())
    } else if s.len() < 3 {
        None
    } else {
        let plen = s[0] as int;
        let nlen = be16(s[1], s[2]);
        if 3 + plen + nlen > s.len() {
            None
        } else {
            match parse_vault_names(s.skip(3 + plen + nlen)) {
                Some(rest) => Some(
                    seq![(s.subrange(3, 3 + plen), s.subrange(3 + plen, 3 + plen + nlen))] + rest,
                ),
                None => None,
            }
        }
    }
}

/// A login full sync: a 32-bit byte-count prefix, that many bytes of login
/// metadata, then login cells to the end of the buffer.
pub open spec fn parse_login_data(s: Seq<u8>) -> Option<
    (Seq<(u8, Seq<u8>)>, Seq<(u8, u8, Seq<u8>)>),
> {
    if s.len() < 4 {
        None
    } else {
        let mlen = be32(s[0], s[1], s[2], s[3]);
        if 4 + mlen > s.len() {
            None
        } else {
            match (
                parse_login_metadata(s.subrange(4, 4 + mlen)),
                parse_cells(s.subrange(4 + mlen, s.len() as int)),
            ) {
                (Some(md), Some(cs)) => Some((md, cs)),
                _ => None,
            }
        }
    }
}

/// The decoded segments of a global sync, in wire order: spreadsheet column
/// metadata, spreadsheet cells, secure notes, and the login segment.
pub type GlobalView = (
    Seq<(u8, bool, Seq<u8>)>,
    Seq<(u8, u8, Seq<u8>)>,
    Seq<(u8, Seq<u8>, Seq<u8>)>,
    (Seq<(u8, Seq<u8>)>, Seq<(u8, u8, Seq<u8>)>),
);

/// A global sync: three 32-bit-length-prefixed segments (column metadata,
/// spreadsheet cells, secure notes), then a login segment to the end of the
/// buffer.
pub open spec fn parse_global(s: Seq<u8>) -> Option<GlobalView> {
    if s.len() < 4 {
        None
    } else {
        let clen = be32(s[0], s[1], s[2], s[3]);
        if 4 + clen + 4 > s.len() {
            None
        } else {
            let p1 = 4 + clen;
            let slen = be32(s[p1], s[p1 + 1], s[p1 + 2], s[p1 + 3]);
            if p1 + 4 + slen + 4 > s.len() {
                None
            } else {
                let p2 = p1 + 4 + slen;
                let nlen = be32(s[p2], s[p2 + 1], s[p2 + 2], s[p2 + 3]);
                if p2 + 4 + nlen > s.len() {
                    None
                } else {
                    let p3 = p2 + 4 + nlen;
                    match (
                        parse_columns(s.subrange(4, p1)),
                        parse_cells(s.subrange(p1 + 4, p2)),
                        parse_notes(s.subrange(p2 + 4, p3)),
                        parse_login_data(s.subrange(p3, s.len() as int)),
                    ) {
                        (Some(cols), Some(sheet), Some(notes), Some(login)) => Some(
                            (cols, sheet, notes, login),
                        ),
                        _ => None,
                    }
                }
            }
        }
    }
}

/// Joins an already-decoded prefix with the outcome of parsing the rest of a
/// buffer.
pub open spec fn prepend_parsed<T>(prefix: Seq<T>, rest: Option<Seq<T>>) -> Option<Seq<T>> {
    match rest {
        Some(r) => Some(prefix + r),
        None => None,
    }
}

// ---------------------------------------------------------------------------
// Cell batches (spreadsheet sync, login-cell sync)
// ---------------------------------------------------------------------------
/// Fixed-size header of one cell record. `size` counts the payload bytes
/// that follow the header; `x` and `y` place the cell in 2D space and become
/// part of its storage key.
#[derive(Debug)]
pub struct CellHeader {
    pub size: u16,
    pub x: u8,
    pub y: u8,
}

impl CellHeader {
    /// Decodes the four header bytes at `at`.
    pub fn new(data: &Vec<u8>, at: usize) -> (r: Self)
        requires
            at + 4 <= data.len(),
        ensures
            r.size == be16(data@[at as int], data@[at + 1]),
            r.x == data@[at + 2],
            r.y == data@[at + 3],
    {
        let size: u16 = (data[at] as u16) * 256 + (data[at + 1] as u16);
        let x = data[at + 2];
        let y = data[at + 3];
        CellHeader { size, x, y }
    }
}

/// One cell in 2D space, shared by logins and spreadsheets.
#[derive(Debug)]
pub struct Cell {
    pub header: CellHeader,
    pub data: Vec<u8>,
}

impl Cell {
    pub fn new(header: CellHeader, data: Vec<u8>) -> (r: Self)
        ensures
            r.header == header,
            r.data == data,
    {
        Cell { header, data }
    }
}

impl View for Cell {
    type V = (u8, u8, Seq<u8>);

    open spec fn view(&self) -> (u8, u8, Seq<u8>) {
        (self.header.x, self.header.y, self.data@)
    }
}

/// The records of a decoded cell sequence, in batch order.
pub open spec fn cells_view(cells: Seq<Cell>) -> Seq<(u8, u8, Seq<u8>)> {
    cells.map_values(|c: Cell| c@)
}

/// A batch of cells: 2D space transformed to a 1D record sequence.
#[derive(Debug)]
pub struct Cells {
    pub cells: Vec<Cell>,
}

impl View for Cells {
    type V = Seq<(u8, u8, Seq<u8>)>;

    open spec fn view(&self) -> Seq<(u8, u8, Seq<u8>)> {
        cells_view(self.cells@)
    }
}

impl Cells {
    /// Decodes a whole cell batch, or fails without a partial result.
    pub fn new(data: Vec<u8>) -> (r: Result<Cells, VaultError>)
        ensures
            match r {
                Ok(c) => {
                    &&& parse_cells(data@) == Some(c@)
                    &&& forall|i: int|
                        0 <= i < c.cells@.len() ==> (#[trigger] c.cells@[i]).header.size
                            == c.cells@[i].data@.len()
                },
                Err(e) => parse_cells(data@) is None && e == VaultError::MalformedInput,
            },
    {
        let mut index: usize = 0;
        let mut result: Vec<Cell> = Vec::new();
        proof {
            assert(data@.skip(0) =~= data@);
            if parse_cells(data@) is Some {
                assert(cells_view(result@) + parse_cells(data@)->Some_0 =~= parse_cells(
                    data@,
                )->Some_0);
            }
        }
        while index < data.len()
            invariant
                index <= data.len(),
                parse_cells(data@.skip(index as int)) is Some ==> parse_cells(data@) == Some(
                    cells_view(result@) + parse_cells(data@.skip(index as int))->Some_0,
                ),
                parse_cells(data@.skip(index as int)) is None ==> parse_cells(data@) is None,
                forall|i: int|
                    0 <= i < result@.len() ==> (#[trigger] result@[i]).header.size
                        == result@[i].data@.len(),
            decreases data@.len() - index,
        {
            let remaining = data.len() - index;
            if remaining < 4 {
                proof {
                    assert(parse_cells(data@.skip(index as int)) is None);
                }
                return Err(VaultError::MalformedInput);
            }
            let header = CellHeader::new(&data, index);
            let size = header.size as usize;
            proof {
                let s = data@.skip(index as int);
                assert(s[0] == data@[index as int]);
                assert(s[1] == data@[index as int + 1]);
                assert(s[2] == data@[index as int + 2]);
                assert(s[3] == data@[index as int + 3]);
            }
            if size > remaining - 4 {
                proof {
                    assert(parse_cells(data@.skip(index as int)) is None);
                }
                return Err(VaultError::MalformedInput);
            }
            let payload = bytes_range(&data, index + 4, index + 4 + size);
            let ghost prev = result@;
            let cell = Cell::new(header, payload);
            result.push(cell);
            proof {
                let s = data@.skip(index as int);
                let sz = be16(s[0], s[1]);
                assert(sz == size);
                assert(s.subrange(4, 4 + sz) =~= data@.subrange(
                    index + 4,
                    index + 4 + size as int,
                ));
                assert(s.skip(4 + sz) =~= data@.skip(index + 4 + size as int));
                let rec = (s[2], s[3], s.subrange(4, 4 + sz));
                assert(cell@ == rec);
                assert(cells_view(result@) =~= cells_view(prev).push(cell@));
                if parse_cells(s.skip(4 + sz)) is Some {
                    assert(parse_cells(s) == Some(
                        seq![rec] + parse_cells(s.skip(4 + sz))->Some_0,
                    ));
                    assert(cells_view(prev) + (seq![rec] + parse_cells(s.skip(4 + sz))->Some_0)
                        =~= cells_view(result@) + parse_cells(s.skip(4 + sz))->Some_0);
                } else {
                    assert(parse_cells(s) is None);
                }
            }
            index = index + 4 + size;
        }
        proof {
            assert(data@.skip(index as int).len() == 0);
            assert(parse_cells(data@.skip(index as int)) == Some(Seq::<(u8, u8, Seq<u8>)>::empty()));
            assert(cells_view(result@) + Seq::<(u8, u8, Seq<u8>)>::empty() =~= cells_view(result@));
        }
        Ok(Cells { cells: result })
    }
}

// ---------------------------------------------------------------------------
// Coordinate-delete batches
// ---------------------------------------------------------------------------
/// A cell named for unconditional removal: coordinates only, no payload.
#[derive(Debug)]
pub struct DeleteCell {
    pub x: u8,
    pub y: u8,
}

impl DeleteCell {
    /// Decodes the two coordinate bytes at `at`.
    pub fn new(data: &Vec<u8>, at: usize) -> (r: Self)
        requires
            at + 2 <= data.len(),
        ensures
            r.x == data@[at as int],
            r.y == data@[at + 1],
    {
        DeleteCell { x: data[at], y: data[at + 1] }
    }
}

impl View for DeleteCell {
    type V = (u8, u8);

    open spec fn view(&self) -> (u8, u8) {
        (self.x, self.y)
    }
}

/// The records of a decoded delete sequence, in batch order.
pub open spec fn delete_cells_view(cells: Seq<DeleteCell>) -> Seq<(u8, u8)> {
    cells.map_values(|c: DeleteCell| c@)
}

/// A batch of cells to delete.
#[derive(Debug)]
pub struct DeleteCells {
    pub cells: Vec<DeleteCell>,
}

impl View for DeleteCells {
    type V = Seq<(u8, u8)>;

    open spec fn view(&self) -> Seq<(u8, u8)> {
        delete_cells_view(self.cells@)
    }
}

impl DeleteCells {
    /// Decodes a whole coordinate-delete batch, or fails without a partial
    /// result.
    pub fn new(data: Vec<u8>) -> (r: Result<DeleteCells, VaultError>)
        ensures
            match r {
                Ok(c) => parse_delete_cells(data@) == Some(c@),
                Err(e) => parse_delete_cells(data@) is None && e == VaultError::MalformedInput,
            },
    {
        let mut index: usize = 0;
        let mut result: Vec<DeleteCell> = Vec::new();
        proof {
            assert(data@.skip(0) =~= data@);
            if parse_delete_cells(data@) is Some {
                assert(delete_cells_view(result@) + parse_delete_cells(data@)->Some_0
                    =~= parse_delete_cells(data@)->Some_0);
            }
        }
        while index < data.len()
            invariant
                index <= data.len(),
                parse_delete_cells(data@.skip(index as int)) is Some ==> parse_delete_cells(data@)
                    == Some(
                    delete_cells_view(result@) + parse_delete_cells(
                        data@.skip(index as int),
                    )->Some_0,
                ),
                parse_delete_cells(data@.skip(index as int)) is None ==> parse_delete_cells(data@)
                    is None,
            decreases data@.len() - index,
        {
            if data.len() - index < 2 {
                proof {
                    assert(parse_delete_cells(data@.skip(index as int)) is None);
                }
                return Err(VaultError::MalformedInput);
            }
            let ghost prev = result@;
            let cell = DeleteCell::new(&data, index);
            result.push(cell);
            proof {
                let s = data@.skip(index as int);
                assert(s[0] == data@[index as int]);
                assert(s[1] == data@[index as int + 1]);
                assert(s.skip(2) =~= data@.skip(index + 2));
                let rec = (s[0], s[1]);
                assert(cell@ == rec);
                assert(delete_cells_view(result@) =~= delete_cells_view(prev).push(cell@));
                if parse_delete_cells(s.skip(2)) is Some {
                    assert(parse_delete_cells(s) == Some(
                        seq![rec] + parse_delete_cells(s.skip(2))->Some_0,
                    ));
                    assert(delete_cells_view(prev) + (seq![rec] + parse_delete_cells(
                        s.skip(2),
                    )->Some_0) =~= delete_cells_view(result@) + parse_delete_cells(
                        s.skip(2),
                    )->Some_0);
                } else {
                    assert(parse_delete_cells(s) is None);
                }
            }
            index = index + 2;
        }
        proof {
            assert(data@.skip(index as int).len() == 0);
            assert(parse_delete_cells(data@.skip(index as int)) == Some(Seq::<(u8, u8)>::empty()));
            assert(delete_cells_view(result@) + Seq::<(u8, u8)>::empty() =~= delete_cells_view(
                result@,
            ));
        }
        Ok(DeleteCells { cells: result })
    }
}

// ---------------------------------------------------------------------------
// Login-metadata batches
// ---------------------------------------------------------------------------
/// Fixed-size header of one login-metadata record. The label it prefixes
/// names the site or app of a login column, so only `x` locates it.
#[derive(Debug)]
pub struct LoginMetadataHeader {
    pub size: u16,
    pub x: u8,
}

impl LoginMetadataHeader {
    /// Decodes the three header bytes at `at`.
    pub fn new(data: &Vec<u8>, at: usize) -> (r: Self)
        requires
            at + 3 <= data.len(),
        ensures
            r.size == be16(data@[at as int], data@[at + 1]),
            r.x == data@[at + 2],
    {
        let size: u16 = (data[at] as u16) * 256 + (data[at + 1] as u16);
        let x = data[at + 2];
        LoginMetadataHeader { size, x }
    }
}

/// The metadata of one login column: its header and label bytes.
#[derive(Debug)]
pub struct LoginMetadataEntry {
    pub header: LoginMetadataHeader,
    pub data: Vec<u8>,
}

impl LoginMetadataEntry {
    pub fn new(header: LoginMetadataHeader, data: Vec<u8>) -> (r: Self)
        ensures
            r.header == header,
            r.data == data,
    {
        LoginMetadataEntry { header, data }
    }
}

impl View for LoginMetadataEntry {
    type V = (u8, Seq<u8>);

    open spec fn view(&self) -> (u8, Seq<u8>) {
        (self.header.x, self.data@)
    }
}

/// The records of a decoded metadata sequence, in batch order.
pub open spec fn login_metadata_view(entries: Seq<LoginMetadataEntry>) -> Seq<(u8, Seq<u8>)> {
    entries.map_values(|e: LoginMetadataEntry| e@)
}

/// A batch of login-column metadata records.
#[derive(Debug)]
pub struct LoginMetadata {
    pub metadatas: Vec<LoginMetadataEntry>,
}

impl View for LoginMetadata {
    type V = Seq<(u8, Seq<u8>)>;

    open spec fn view(&self) -> Seq<(u8, Seq<u8>)> {
        login_metadata_view(self.metadatas@)
    }
}

impl LoginMetadata {
    /// Decodes a whole login-metadata batch, or fails without a partial
    /// result.
    pub fn new(data: Vec<u8>) -> (r: Result<LoginMetadata, VaultError>)
        ensures
            match r {
                Ok(m) => parse_login_metadata(data@) == Some(m@),
                Err(e) => parse_login_metadata(data@) is None && e == VaultError::MalformedInput,
            },
    {
        let mut index: usize = 0;
        let mut result: Vec<LoginMetadataEntry> = Vec::new();
        proof {
            assert(data@.skip(0) =~= data@);
            if parse_login_metadata(data@) is Some {
                assert(login_metadata_view(result@) + parse_login_metadata(data@)->Some_0
                    =~= parse_login_metadata(data@)->Some_0);
            }
        }
        while index < data.len()
            invariant
                index <= data.len(),
                parse_login_metadata(data@.skip(index as int)) is Some ==> parse_login_metadata(
                    data@,
                ) == Some(
                    login_metadata_view(result@) + parse_login_metadata(
                        data@.skip(index as int),
                    )->Some_0,
                ),
                parse_login_metadata(data@.skip(index as int)) is None ==> parse_login_metadata(
                    data@,
                ) is None,
            decreases data@.len() - index,
        {
            let remaining = data.len() - index;
            if remaining < 3 {
                proof {
                    assert(parse_login_metadata(data@.skip(index as int)) is None);
                }
                return Err(VaultError::MalformedInput);
            }
            let header = LoginMetadataHeader::new(&data, index);
            let size = header.size as usize;
            proof {
                let s = data@.skip(index as int);
                assert(s[0] == data@[index as int]);
                assert(s[1] == data@[index as int + 1]);
                assert(s[2] == data@[index as int + 2]);
            }
            if size > remaining - 3 {
                proof {
                    assert(parse_login_metadata(data@.skip(index as int)) is None);
                }
                return Err(VaultError::MalformedInput);
            }
            let label = bytes_range(&data, index + 3, index + 3 + size);
            let ghost prev = result@;
            let entry = LoginMetadataEntry::new(header, label);
            result.push(entry);
            proof {
                let s = data@.skip(index as int);
                let sz = be16(s[0], s[1]);
                assert(sz == size);
                assert(s.subrange(3, 3 + sz) =~= data@.subrange(
                    index + 3,
                    index + 3 + size as int,
                ));
                assert(s.skip(3 + sz) =~= data@.skip(index + 3 + size as int));
                let rec = (s[2], s.subrange(3, 3 + sz));
                assert(entry@ == rec);
                assert(login_metadata_view(result@) =~= login_metadata_view(prev).push(entry@));
                if parse_login_metadata(s.skip(3 + sz)) is Some {
                    assert(parse_login_metadata(s) == Some(
                        seq![rec] + parse_login_metadata(s.skip(3 + sz))->Some_0,
                    ));
                    assert(login_metadata_view(prev) + (seq![rec] + parse_login_metadata(
                        s.skip(3 + sz),
                    )->Some_0) =~= login_metadata_view(result@) + parse_login_metadata(
                        s.skip(3 + sz),
                    )->Some_0);
                } else {
                    assert(parse_login_metadata(s) is None);
                }
            }
            index = index + 3 + size;
        }
        proof {
            assert(data@.skip(index as int).len() == 0);
            assert(parse_login_metadata(data@.skip(index as int)) == Some(
                Seq::<(u8, Seq<u8>)>::empty(),
            ));
            assert(login_metadata_view(result@) + Seq::<(u8, Seq<u8>)>::empty()
                =~= login_metadata_view(result@));
        }
        Ok(LoginMetadata { metadatas: result })
    }
}

// ---------------------------------------------------------------------------
// Metadata-delete batches
// ---------------------------------------------------------------------------
/// A login column named for metadata deletion: the column index alone.
#[derive(Debug)]
pub struct DeleteMetadataEntry {
    pub x: u8,
}

impl DeleteMetadataEntry {
    pub fn new(x: u8) -> (r: Self)
        ensures
            r.x == x,
    {
        DeleteMetadataEntry { x }
    }
}

/// A batch of login columns whose metadata is to be deleted: every byte of
/// the buffer is one column index. This format cannot be malformed.
#[derive(Debug)]
pub struct DeleteMetadatas {
    pub metadatas: Vec<DeleteMetadataEntry>,
}

impl DeleteMetadatas {
    pub fn new(data: Vec<u8>) -> (r: Self)
        ensures
            r.metadatas@.map_values(|e: DeleteMetadataEntry| e.x) == data@,
    {
        let mut result: Vec<DeleteMetadataEntry> = Vec::new();
        let mut index: usize = 0;
        while index < data.len()
            invariant
                index <= data.len(),
                result@.map_values(|e: DeleteMetadataEntry| e.x) == data@.subrange(0, index as int),
            decreases data@.len() - index,
        {
            let ghost prev = result@;
            result.push(DeleteMetadataEntry::new(data[index]));
            proof {
                assert(result@.map_values(|e: DeleteMetadataEntry| e.x) =~= prev.map_values(
                    |e: DeleteMetadataEntry| e.x,
                ).push(data@[index as int]));
                assert(prev.map_values(|e: DeleteMetadataEntry| e.x).push(data@[index as int])
                    =~= data@.subrange(0, index + 1));
            }
            index = index + 1;
        }
        proof {
            assert(data@.subrange(0, data@.len() as int) =~= data@);
        }
        DeleteMetadatas { metadatas: result }
    }
}

// ---------------------------------------------------------------------------
// Secure-note batches
// ---------------------------------------------------------------------------
/// Fixed-size header of one secure-note record.
#[derive(Debug)]
pub struct SecureNoteHeader {
    pub label_size: u8,
    pub note_size: u16,
    pub x: u8,
}

impl SecureNoteHeader {
    /// Decodes the four header bytes at `at`.
    pub fn new(data: &Vec<u8>, at: usize) -> (r: Self)
        requires
            at + 4 <= data.len(),
        ensures
            r.label_size == data@[at as int],
            r.note_size == be16(data@[at + 1], data@[at + 2]),
            r.x == data@[at + 3],
    {
        let label_size = data[at];
        let note_size: u16 = (data[at + 1] as u16) * 256 + (data[at + 2] as u16);
        let x = data[at + 3];
        SecureNoteHeader { label_size, note_size, x }
    }
}

/// One secure-note record: its header, label bytes and note bytes.
#[derive(Debug)]
pub struct SecureNoteEntry {
    pub header: SecureNoteHeader,
    pub label: Vec<u8>,
    pub note: Vec<u8>,
}

impl SecureNoteEntry {
    /// Decodes the whole record at `at`.
    pub fn new(data: &Vec<u8>, at: usize) -> (r: Self)
        requires
            at + 4 <= data.len(),
            at + 4 + data@[at as int] + be16(data@[at + 1], data@[at + 2]) <= data.len(),
        ensures
            r.header.label_size == data@[at as int],
            r.header.note_size == be16(data@[at + 1], data@[at + 2]),
            r.header.x == data@[at + 3],
            r.label@ == data@.subrange(at + 4, at + 4 + data@[at as int]),
            r.note@ == data@.subrange(
                at + 4 + data@[at as int],
                at + 4 + data@[at as int] + be16(data@[at + 1], data@[at + 2]),
            ),
    {
        let header = SecureNoteHeader::new(data, at);
        let llen = header.label_size as usize;
        let nlen = header.note_size as usize;
        let label = bytes_range(data, at + 4, at + 4 + llen);
        let note = bytes_range(data, at + 4 + llen, at + 4 + llen + nlen);
        SecureNoteEntry { header, label, note }
    }
}

impl View for SecureNoteEntry {
    type V = (u8, Seq<u8>, Seq<u8>);

    open spec fn view(&self) -> (u8, Seq<u8>, Seq<u8>) {
        (self.header.x, self.label@, self.note@)
    }
}

/// The records of a decoded note sequence, in batch order.
pub open spec fn notes_view(notes: Seq<SecureNoteEntry>) -> Seq<(u8, Seq<u8>, Seq<u8>)> {
    notes.map_values(|n: SecureNoteEntry| n@)
}

/// A batch of secure-note records.
#[derive(Debug)]
pub struct SecureNotesData {
    pub notes: Vec<SecureNoteEntry>,
}

impl View for SecureNotesData {
    type V = Seq<(u8, Seq<u8>, Seq<u8>)>;

    open spec fn view(&self) -> Seq<(u8, Seq<u8>, Seq<u8>)> {
        notes_view(self.notes@)
    }
}

impl SecureNotesData {
    /// Decodes a whole secure-note batch, or fails without a partial result.
    pub fn new(data: Vec<u8>) -> (r: Result<SecureNotesData, VaultError>)
        ensures
            match r {
                Ok(n) => {
                    &&& parse_notes(data@) == Some(n@)
                    &&& forall|i: int|
                        0 <= i < n.notes@.len() ==> (#[trigger] n.notes@[i]).label@.len() <= 255
                },
                Err(e) => parse_notes(data@) is None && e == VaultError::MalformedInput,
            },
    {
        let mut index: usize = 0;
        let mut result: Vec<SecureNoteEntry> = Vec::new();
        proof {
            assert(data@.skip(0) =~= data@);
            if parse_notes(data@) is Some {
                assert(notes_view(result@) + parse_notes(data@)->Some_0 =~= parse_notes(
                    data@,
                )->Some_0);
            }
        }
        while index < data.len()
            invariant
                index <= data.len(),
                parse_notes(data@.skip(index as int)) is Some ==> parse_notes(data@) == Some(
                    notes_view(result@) + parse_notes(data@.skip(index as int))->Some_0,
                ),
                parse_notes(data@.skip(index as int)) is None ==> parse_notes(data@) is None,
                forall|i: int|
                    0 <= i < result@.len() ==> (#[trigger] result@[i]).label@.len() <= 255,
            decreases data@.len() - index,
        {
            let remaining = data.len() - index;
            if remaining < 4 {
                proof {
                    assert(parse_notes(data@.skip(index as int)) is None);
                }
                return Err(VaultError::MalformedInput);
            }
            let llen = data[index] as usize;
            let nlen = (data[index + 1] as usize) * 256 + (data[index + 2] as usize);
            proof {
                let s = data@.skip(index as int);
                assert(s[0] == data@[index as int]);
                assert(s[1] == data@[index as int + 1]);
                assert(s[2] == data@[index as int + 2]);
                assert(s[3] == data@[index as int + 3]);
            }
            if llen > remaining - 4 || nlen > remaining - 4 - llen {
                proof {
                    assert(parse_notes(data@.skip(index as int)) is None);
                }
                return Err(VaultError::MalformedInput);
            }
            let ghost prev = result@;
            let entry = SecureNoteEntry::new(&data, index);
            result.push(entry);
            proof {
                let s = data@.skip(index as int);
                let ll = s[0] as int;
                let nl = be16(s[1], s[2]);
                assert(ll == llen && nl == nlen);
                assert(s.subrange(4, 4 + ll) =~= data@.subrange(index + 4, index + 4 + llen));
                assert(s.subrange(4 + ll, 4 + ll + nl) =~= data@.subrange(
                    index + 4 + llen,
                    index + 4 + llen + nlen,
                ));
                assert(s.skip(4 + ll + nl) =~= data@.skip(index + 4 + llen + nlen));
                let rec = (s[3], s.subrange(4, 4 + ll), s.subrange(4 + ll, 4 + ll + nl));
                assert(entry@ == rec);
                assert(notes_view(result@) =~= notes_view(prev).push(entry@));
                if parse_notes(s.skip(4 + ll + nl)) is Some {
                    assert(parse_notes(s) == Some(
                        seq![rec] + parse_notes(s.skip(4 + ll + nl))->Some_0,
                    ));
                    assert(notes_view(prev) + (seq![rec] + parse_notes(
                        s.skip(4 + ll + nl),
                    )->Some_0) =~= notes_view(result@) + parse_notes(
                        s.skip(4 + ll + nl),
                    )->Some_0);
                } else {
                    assert(parse_notes(s) is None);
                }
            }
            index = index + 4 + llen + nlen;
        }
        proof {
            assert(data@.skip(index as int).len() == 0);
            assert(parse_notes(data@.skip(index as int)) == Some(
                Seq::<(u8, Seq<u8>, Seq<u8>)>::empty(),
            ));
            assert(notes_view(result@) + Seq::<(u8, Seq<u8>, Seq<u8>)>::empty() =~= notes_view(
                result@,
            ));
        }
        Ok(SecureNotesData { notes: result })
    }
}

// ---------------------------------------------------------------------------
// Vault-name batches
// ---------------------------------------------------------------------------
/// Fixed-size header of one vault-name record: the vault identifier's length
/// in one byte, then the name's length in two big-endian bytes.
#[derive(Debug)]
pub struct VaultNameHeader {
    pub principal_size: u8,
    pub name_size: u16,
}

impl VaultNameHeader {
    /// Decodes the three header bytes at `at`.
    pub fn new(data: &Vec<u8>, at: usize) -> (r: Self)
        requires
            at + 3 <= data.len(),
        ensures
            r.principal_size == data@[at as int],
            r.name_size == be16(data@[at + 1], data@[at + 2]),
    {
        let principal_size = data[at];
        let name_size: u16 = (data[at + 1] as u16) * 256 + (data[at + 2] as u16);
        VaultNameHeader { principal_size, name_size }
    }
}

/// One vault-name record: the vault identifier and its display name.
#[derive(Debug)]
pub struct VaultName {
    pub header: VaultNameHeader,
    pub vault_id: Vec<u8>,
    pub vault_name: Vec<u8>,
}

impl VaultName {
    /// Decodes the whole record at `at`: a three-byte header, then the vault
    /// identifier, then the name, each exactly as long as the header says.
    pub fn new(data: &Vec<u8>, at: usize) -> (r: Self)
        requires
            at + 3 <= data.len(),
            at + 3 + data@[at as int] + be16(data@[at + 1], data@[at + 2]) <= data.len(),
        ensures
            r.header.principal_size == data@[at as int],
            r.header.name_size == be16(data@[at + 1], data@[at + 2]),
            r.vault_id@ == data@.subrange(at + 3, at + 3 + data@[at as int]),
            r.vault_name@ == data@.subrange(
                at + 3 + data@[at as int],
                at + 3 + data@[at as int] + be16(data@[at + 1], data@[at + 2]),
            ),
    {
        let header = VaultNameHeader::new(data, at);
        let plen = header.principal_size as usize;
        let nlen = header.name_size as usize;
        let vault_id = bytes_range(data, at + 3, at + 3 + plen);
        let vault_name = bytes_range(data, at + 3 + plen, at + 3 + plen + nlen);
        VaultName { header, vault_id, vault_name }
    }
}

impl View for VaultName {
    type V = (Seq<u8>, Seq<u8>);

    open spec fn view(&self) -> (Seq<u8>, Seq<u8>) {
        (self.vault_id@, self.vault_name@)
    }
}

/// The records of a decoded vault-name sequence, in batch order.
pub open spec fn vault_names_view(names: Seq<VaultName>) -> Seq<(Seq<u8>, Seq<u8>)> {
    names.map_values(|n: VaultName| n@)
}

/// A batch of vault-name records.
#[derive(Debug)]
pub struct VaultNames {
    pub names: Vec<VaultName>,
}

impl View for VaultNames {
    type V = Seq<(Seq<u8>, Seq<u8>)>;

    open spec fn view(&self) -> Seq<(Seq<u8>, Seq<u8>)> {
        vault_names_view(self.names@)
    }
}

impl VaultNames {
    /// Decodes a whole vault-name batch, or fails without a partial result.
    pub fn new(data: &Vec<u8>) -> (r: Result<VaultNames, VaultError>)
        ensures
            match r {
                Ok(n) => parse_vault_names(data@) == Some(n@),
                Err(e) => parse_vault_names(data@) is None && e == VaultError::MalformedInput,
            },
    {
        let mut index: usize = 0;
        let mut result: Vec<VaultName> = Vec::new();
        proof {
            assert(data@.skip(0) =~= data@);
            if parse_vault_names(data@) is Some {
                assert(vault_names_view(result@) + parse_vault_names(data@)->Some_0
                    =~= parse_vault_names(data@)->Some_0);
            }
        }
        while index < data.len()
            invariant
                index <= data.len(),
                parse_vault_names(data@.skip(index as int)) is Some ==> parse_vault_names(data@)
                    == Some(
                    vault_names_view(result@) + parse_vault_names(
                        data@.skip(index as int),
                    )->Some_0,
                ),
                parse_vault_names(data@.skip(index as int)) is None ==> parse_vault_names(data@)
                    is None,
            decreases data@.len() - index,
        {
            let remaining = data.len() - index;
            if remaining < 3 {
                proof {
                    assert(parse_vault_names(data@.skip(index as int)) is None);
                }
                return Err(VaultError::MalformedInput);
            }
            let plen = data[index] as usize;
            let nlen = (data[index + 1] as usize) * 256 + (data[index + 2] as usize);
            proof {
                let s = data@.skip(index as int);
                assert(s[0] == data@[index as int]);
                assert(s[1] == data@[index as int + 1]);
                assert(s[2] == data@[index as int + 2]);
            }
            if plen > remaining - 3 || nlen > remaining - 3 - plen {
                proof {
                    assert(parse_vault_names(data@.skip(index as int)) is None);
                }
                return Err(VaultError::MalformedInput);
            }
            let ghost prev = result@;
            let entry = VaultName::new(data, index);
            result.push(entry);
            proof {
                let s = data@.skip(index as int);
                let pl = s[0] as int;
                let nl = be16(s[1], s[2]);
                assert(pl == plen && nl == nlen);
                assert(s.subrange(3, 3 + pl) =~= data@.subrange(index + 3, index + 3 + plen));
                assert(s.subrange(3 + pl, 3 + pl + nl) =~= data@.subrange(
                    index + 3 + plen,
                    index + 3 + plen + nlen,
                ));
                assert(s.skip(3 + pl + nl) =~= data@.skip(index + 3 + plen + nlen));
                let rec = (s.subrange(3, 3 + pl), s.subrange(3 + pl, 3 + pl + nl));
                assert(entry@ == rec);
                assert(vault_names_view(result@) =~= vault_names_view(prev).push(entry@));
                if parse_vault_names(s.skip(3 + pl + nl)) is Some {
                    assert(parse_vault_names(s) == Some(
                        seq![rec] + parse_vault_names(s.skip(3 + pl + nl))->Some_0,
                    ));
                    assert(vault_names_view(prev) + (seq![rec] + parse_vault_names(
                        s.skip(3 + pl + nl),
                    )->Some_0) =~= vault_names_view(result@) + parse_vault_names(
                        s.skip(3 + pl + nl),
                    )->Some_0);
                } else {
                    assert(parse_vault_names(s) is None);
                }
            }
            index = index + 3 + plen + nlen;
        }
        proof {
            assert(data@.skip(index as int).len() == 0);
            assert(parse_vault_names(data@.skip(index as int)) == Some(
                Seq::<(Seq<u8>, Seq<u8>)>::empty(),
            ));
            assert(vault_names_view(result@) + Seq::<(Seq<u8>, Seq<u8>)>::empty()
                =~= vault_names_view(result@));
        }
        Ok(VaultNames { names: result })
    }
}

// ---------------------------------------------------------------------------
// Spreadsheet-column-metadata batches
// ---------------------------------------------------------------------------
/// Fixed-size header of one column-metadata record: the display name's
/// length in two big-endian bytes, the column index, and a hidden flag byte
/// (nonzero means hidden).
#[derive(Debug)]
pub struct SpreadsheetColumnHeader {
    pub size: u16,
    pub x: u8,
    pub hidden: u8,
}

impl SpreadsheetColumnHeader {
    /// Decodes the four header bytes at `at`.
    pub fn new(data: &Vec<u8>, at: usize) -> (r: Self)
        requires
            at + 4 <= data.len(),
        ensures
            r.size == be16(data@[at as int], data@[at + 1]),
            r.x == data@[at + 2],
            r.hidden == data@[at + 3],
    {
        let size: u16 = (data[at] as u16) * 256 + (data[at + 1] as u16);
        SpreadsheetColumnHeader { size, x: data[at + 2], hidden: data[at + 3] }
    }
}

/// One column-metadata record: its header and display-name bytes.
#[derive(Debug)]
pub struct SpreadsheetColumnEntry {
    pub header: SpreadsheetColumnHeader,
    pub name: Vec<u8>,
}

impl View for SpreadsheetColumnEntry {
    type V = (u8, bool, Seq<u8>);

    open spec fn view(&self) -> (u8, bool, Seq<u8>) {
        (self.header.x, self.header.hidden != 0, self.name@)
    }
}

/// The records of a decoded column-metadata sequence, in batch order.
pub open spec fn columns_view(cols: Seq<SpreadsheetColumnEntry>) -> Seq<(u8, bool, Seq<u8>)> {
    cols.map_values(|c: SpreadsheetColumnEntry| c@)
}

/// A batch of spreadsheet column-metadata records.
#[derive(Debug)]
pub struct SpreadsheetColumns {
    pub columns: Vec<SpreadsheetColumnEntry>,
}

impl View for SpreadsheetColumns {
    type V = Seq<(u8, bool, Seq<u8>)>;

    open spec fn view(&self) -> Seq<(u8, bool, Seq<u8>)> {
        columns_view(self.columns@)
    }
}

impl SpreadsheetColumns {
    /// Decodes a whole column-metadata batch, or fails without a partial
    /// result.
    pub fn new(data: &Vec<u8>) -> (r: Result<SpreadsheetColumns, VaultError>)
        ensures
            match r {
                Ok(c) => parse_columns(data@) == Some(c@),
                Err(e) => parse_columns(data@) is None && e == VaultError::MalformedInput,
            },
    {
        let mut index: usize = 0;
        let mut result: Vec<SpreadsheetColumnEntry> = Vec::new();
        proof {
            assert(data@.skip(0) =~= data@);
            if parse_columns(data@) is Some {
                assert(columns_view(result@) + parse_columns(data@)->Some_0 =~= parse_columns(
                    data@,
                )->Some_0);
            }
        }
        while index < data.len()
            invariant
                index <= data.len(),
                parse_columns(data@.skip(index as int)) is Some ==> parse_columns(data@) == Some(
                    columns_view(result@) + parse_columns(data@.skip(index as int))->Some_0,
                ),
                parse_columns(data@.skip(index as int)) is None ==> parse_columns(data@) is None,
            decreases data@.len() - index,
        {
            let remaining = data.len() - index;
            if remaining < 4 {
                proof {
                    assert(parse_columns(data@.skip(index as int)) is None);
                }
                return Err(VaultError::MalformedInput);
            }
            let header = SpreadsheetColumnHeader::new(data, index);
            let size = header.size as usize;
            proof {
                let s = data@.skip(index as int);
                assert(s[0] == data@[index as int]);
                assert(s[1] == data@[index as int + 1]);
                assert(s[2] == data@[index as int + 2]);
                assert(s[3] == data@[index as int + 3]);
            }
            if size > remaining - 4 {
                proof {
                    assert(parse_columns(data@.skip(index as int)) is None);
                }
                return Err(VaultError::MalformedInput);
            }
            let name = bytes_range(data, index + 4, index + 4 + size);
            let ghost prev = result@;
            let entry = SpreadsheetColumnEntry { header, name };
            result.push(entry);
            proof {
                let s = data@.skip(index as int);
                let sz = be16(s[0], s[1]);
                assert(sz == size);
                assert(s.subrange(4, 4 + sz) =~= data@.subrange(
                    index + 4,
                    index + 4 + size as int,
                ));
                assert(s.skip(4 + sz) =~= data@.skip(index + 4 + size as int));
                let rec = (s[2], s[3] != 0, s.subrange(4, 4 + sz));
                assert(entry@ == rec);
                assert(columns_view(result@) =~= columns_view(prev).push(entry@));
                if parse_columns(s.skip(4 + sz)) is Some {
                    assert(parse_columns(s) == Some(
                        seq![rec] + parse_columns(s.skip(4 + sz))->Some_0,
                    ));
                    assert(columns_view(prev) + (seq![rec] + parse_columns(s.skip(4 + sz))->Some_0)
                        =~= columns_view(result@) + parse_columns(s.skip(4 + sz))->Some_0);
                } else {
                    assert(parse_columns(s) is None);
                }
            }
            index = index + 4 + size;
        }
        proof {
            assert(data@.skip(index as int).len() == 0);
            assert(parse_columns(data@.skip(index as int)) == Some(
                Seq::<(u8, bool, Seq<u8>)>::empty(),
            ));
            assert(columns_view(result@) + Seq::<(u8, bool, Seq<u8>)>::empty() =~= columns_view(
                result@,
            ));
        }
        Ok(SpreadsheetColumns { columns: result })
    }
}

// ---------------------------------------------------------------------------
// Composite formats
// ---------------------------------------------------------------------------
/// A full login sync: column metadata and cells, decoded from one buffer.
#[derive(Debug)]
pub struct LoginData {
    pub metadata: LoginMetadata,
    pub cells: Cells,
}

impl View for LoginData {
    type V = (Seq<(u8, Seq<u8>)>, Seq<(u8, u8, Seq<u8>)>);

    open spec fn view(&self) -> (Seq<(u8, Seq<u8>)>, Seq<(u8, u8, Seq<u8>)>) {
        (self.metadata@, self.cells@)
    }
}

impl LoginData {
    /// Decodes a login full-sync buffer: a 32-bit metadata byte count, that
    /// many bytes of login metadata, then login cells to the end.
    pub fn new(data: Vec<u8>) -> (r: Result<LoginData, VaultError>)
        ensures
            match r {
                Ok(ld) => parse_login_data(data@) == Some(ld@),
                Err(e) => parse_login_data(data@) is None && e == VaultError::MalformedInput,
            },
    {
        if data.len() < 4 {
            return Err(VaultError::MalformedInput);
        }
        let mlen = read_be32(&data, 0) as usize;
        if mlen > data.len() - 4 {
            return Err(VaultError::MalformedInput);
        }
        let meta_bytes = bytes_range(&data, 4, 4 + mlen);
        let cell_bytes = bytes_range(&data, 4 + mlen, data.len());
        let metadata = match LoginMetadata::new(meta_bytes) {
            Ok(m) => m,
            Err(e) => {
                return Err(e);
            },
        };
        let cells = match Cells::new(cell_bytes) {
            Ok(c) => c,
            Err(e) => {
                return Err(e);
            },
        };
        Ok(LoginData { metadata, cells })
    }
}

/// A global sync: complete column metadata, spreadsheet, secure-note and
/// login data, decoded from one buffer.
#[derive(Debug)]
pub struct GlobalSyncData {
    pub spreadsheet_columns: SpreadsheetColumns,
    pub spreadsheet: Cells,
    pub secure_notes: SecureNotesData,
    pub logins: LoginData,
}

impl View for GlobalSyncData {
    type V = GlobalView;

    open spec fn view(&self) -> GlobalView {
        (self.spreadsheet_columns@, self.spreadsheet@, self.secure_notes@, self.logins@)
    }
}

impl GlobalSyncData {
    /// Decodes a global-sync buffer: 32-bit-length-prefixed column-metadata,
    /// spreadsheet-cell and secure-note segments, then the login segment.
    pub fn new(data: Vec<u8>) -> (r: Result<GlobalSyncData, VaultError>)
        ensures
            match r {
                Ok(g) => {
                    &&& parse_global(data@) == Some(g@)
                    &&& forall|i: int|
                        0 <= i < g.secure_notes.notes@.len() ==> (
                        #[trigger] g.secure_notes.notes@[i]).label@.len() <= 255
                },
                Err(e) => parse_global(data@) is None && e == VaultError::MalformedInput,
            },
    {
        if data.len() < 4 {
            return Err(VaultError::MalformedInput);
        }
        let clen = read_be32(&data, 0) as usize;
        if clen > data.len() - 4 || 4 > data.len() - 4 - clen {
            return Err(VaultError::MalformedInput);
        }
        let p1 = 4 + clen;
        let slen = read_be32(&data, p1) as usize;
        if slen > data.len() - p1 - 4 || 4 > data.len() - p1 - 4 - slen {
            return Err(VaultError::MalformedInput);
        }
        let p2 = p1 + 4 + slen;
        let nlen = read_be32(&data, p2) as usize;
        if nlen > data.len() - p2 - 4 {
            return Err(VaultError::MalformedInput);
        }
        let p3 = p2 + 4 + nlen;
        let cols_bytes = bytes_range(&data, 4, p1);
        let sheet_bytes = bytes_range(&data, p1 + 4, p2);
        let notes_bytes = bytes_range(&data, p2 + 4, p3);
        let login_bytes = bytes_range(&data, p3, data.len());
        let spreadsheet_columns = match SpreadsheetColumns::new(&cols_bytes) {
            Ok(c) => c,
            Err(e) => {
                return Err(e);
            },
        };
        let spreadsheet = match Cells::new(sheet_bytes) {
            Ok(c) => c,
            Err(e) => {
                return Err(e);
            },
        };
        let secure_notes = match SecureNotesData::new(notes_bytes) {
            Ok(n) => n,
            Err(e) => {
                return Err(e);
            },
        };
        let logins = match LoginData::new(login_bytes) {
            Ok(l) => l,
            Err(e) => {
                return Err(e);
            },
        };
        Ok(GlobalSyncData { spreadsheet_columns, spreadsheet, secure_notes, logins })
    }
}

} // verus!
