//! The standing guarantees of the engine, stated and proved against the spec
//! functions that the mutation and projection contracts use: cross-tenant
//! isolation, codec round-tripping, idempotence of batch application, the
//! tombstone rule, and the metadata-to-cell cascade.
use crate::api::deserialiser_types::parse_cells;
use crate::api::dev_api::{
    login_cell_has, login_col_has, logins_matches, sheet_has, sheet_matches, Logins, Spreadsheet,
};
use crate::api::serial_api::{
    apply_cell_record, apply_cell_records, apply_column_records, apply_delete_records,
    apply_metadata_records, apply_name_records, apply_note_records, key_matches_column,
    purge_login_column,
};
use crate::bytes::be16;
use crate::store::empty_contents;
use crate::vault_type::secure_notes::note_key_bytes;
use crate::vault_type::spreadsheet::{cell_key_bytes, column_key_bytes};
use crate::vault_type::tenant_bytes;
use vstd::prelude::*;

verus! {

// ---------------------------------------------------------------------------
// Isolation: a batch applied under one tenant never becomes visible under
// another tenant's records. Tenant keys are compared as exact byte strings.
// ---------------------------------------------------------------------------
/// A cell batch applied under tenant `ta` leaves every cell record of any
/// other tenant `tb` exactly as it was.
pub proof fn law_cell_batch_isolation(
    m: Map<Seq<u8>, Seq<u8>>,
    ta: Seq<u8>,
    tb: Seq<u8>,
    recs: Seq<(u8, u8, Seq<u8>)>,
)
    requires
        ta != tb,
    ensures
        forall|x: u8, y: u8, v: Seq<u8>|
            #![trigger apply_cell_records(m, ta, recs).contains_pair(cell_key_bytes(x, y, tb), v)]
            apply_cell_records(m, ta, recs).contains_pair(cell_key_bytes(x, y, tb), v)
                <==> m.contains_pair(cell_key_bytes(x, y, tb), v),
    decreases recs.len(),
{
    if recs.len() > 0 {
        let m1 = apply_cell_record(m, ta, recs[0]);
        assert forall|x: u8, y: u8, v: Seq<u8>|
            m1.contains_pair(cell_key_bytes(x, y, tb), v) <==> #[trigger] m.contains_pair(
                cell_key_bytes(x, y, tb),
                v,
            ) by {
            assert(cell_key_bytes(x, y, tb).skip(2) =~= tb);
            assert(cell_key_bytes(recs[0].0, recs[0].1, ta).skip(2) =~= ta);
        }
        law_cell_batch_isolation(m1, ta, tb, recs.skip(1));
        assert forall|x: u8, y: u8, v: Seq<u8>|
            #![trigger apply_cell_records(m, ta, recs).contains_pair(cell_key_bytes(x, y, tb), v)]
            apply_cell_records(m, ta, recs).contains_pair(cell_key_bytes(x, y, tb), v)
                <==> m.contains_pair(cell_key_bytes(x, y, tb), v) by {
            assert(apply_cell_records(m1, ta, recs.skip(1)).contains_pair(
                cell_key_bytes(x, y, tb),
                v,
            ) <==> m1.contains_pair(cell_key_bytes(x, y, tb), v));
        }
    }
}

/// Isolation seen through the spreadsheet projection: projecting tenant `tb`
/// before and after a cell batch was applied under `ta` yields the same
/// cells.
pub proof fn law_cell_batch_isolation_projection(
    m: Map<Seq<u8>, Seq<u8>>,
    ta: Seq<u8>,
    tb: Seq<u8>,
    recs: Seq<(u8, u8, Seq<u8>)>,
    s1: Spreadsheet,
    s2: Spreadsheet,
)
    requires
        ta != tb,
        sheet_matches(s1, m, tb),
        sheet_matches(s2, apply_cell_records(m, ta, recs), tb),
    ensures
        forall|x: u8, y: u8, v: Seq<u8>|
            #![trigger sheet_has(s1, x, y, v)]
            #![trigger sheet_has(s2, x, y, v)]
            sheet_has(s1, x, y, v) <==> sheet_has(s2, x, y, v),
{
    law_cell_batch_isolation(m, ta, tb, recs);
}

/// A metadata batch applied under tenant `ta`, cascades included, leaves
/// every login-column record and every login cell of any other tenant `tb`
/// exactly as it was.
pub proof fn law_metadata_batch_isolation(
    cols: Map<Seq<u8>, Seq<u8>>,
    cells: Map<Seq<u8>, Seq<u8>>,
    ta: Seq<u8>,
    tb: Seq<u8>,
    recs: Seq<(u8, Seq<u8>)>,
)
    requires
        ta != tb,
    ensures
        forall|x: u8, label: Seq<u8>|
            #![trigger apply_metadata_records(cols, cells, ta, recs).0.contains_pair(column_key_bytes(x, tb), label)]
            apply_metadata_records(cols, cells, ta, recs).0.contains_pair(
                column_key_bytes(x, tb),
                label,
            ) <==> cols.contains_pair(column_key_bytes(x, tb), label),
        forall|x: u8, y: u8, v: Seq<u8>|
            #![trigger apply_metadata_records(cols, cells, ta, recs).1.contains_pair(cell_key_bytes(x, y, tb), v)]
            apply_metadata_records(cols, cells, ta, recs).1.contains_pair(
                cell_key_bytes(x, y, tb),
                v,
            ) <==> cells.contains_pair(cell_key_bytes(x, y, tb), v),
    decreases recs.len(),
{
    if recs.len() > 0 {
        let next = crate::api::serial_api::apply_metadata_record(cols, cells, ta, recs[0]);
        assert forall|x: u8, label: Seq<u8>|
            next.0.contains_pair(column_key_bytes(x, tb), label) <==> #[trigger] cols.contains_pair(
                column_key_bytes(x, tb),
                label,
            ) by {
            assert(column_key_bytes(x, tb).skip(1) =~= tb);
            assert(column_key_bytes(recs[0].0, ta).skip(1) =~= ta);
        }
        assert forall|x: u8, y: u8, v: Seq<u8>|
            next.1.contains_pair(cell_key_bytes(x, y, tb), v) <==> #[trigger] cells.contains_pair(
                cell_key_bytes(x, y, tb),
                v,
            ) by {
            assert(cell_key_bytes(x, y, tb).skip(2) =~= tb);
        }
        law_metadata_batch_isolation(next.0, next.1, ta, tb, recs.skip(1));
        assert forall|x: u8, label: Seq<u8>|
            #![trigger apply_metadata_records(cols, cells, ta, recs).0.contains_pair(column_key_bytes(x, tb), label)]
            apply_metadata_records(cols, cells, ta, recs).0.contains_pair(
                column_key_bytes(x, tb),
                label,
            ) <==> cols.contains_pair(column_key_bytes(x, tb), label) by {
            assert(apply_metadata_records(next.0, next.1, ta, recs.skip(1)).0.contains_pair(
                column_key_bytes(x, tb),
                label,
            ) <==> next.0.contains_pair(column_key_bytes(x, tb), label));
        }
        assert forall|x: u8, y: u8, v: Seq<u8>|
            #![trigger apply_metadata_records(cols, cells, ta, recs).1.contains_pair(cell_key_bytes(x, y, tb), v)]
            apply_metadata_records(cols, cells, ta, recs).1.contains_pair(
                cell_key_bytes(x, y, tb),
                v,
            ) <==> cells.contains_pair(cell_key_bytes(x, y, tb), v) by {
            assert(apply_metadata_records(next.0, next.1, ta, recs.skip(1)).1.contains_pair(
                cell_key_bytes(x, y, tb),
                v,
            ) <==> next.1.contains_pair(cell_key_bytes(x, y, tb), v));
        }
    }
}

/// A secure-note batch applied under tenant `ta` leaves every note record of
/// any other tenant `tb` exactly as it was.
pub proof fn law_note_batch_isolation(
    m: Map<Seq<u8>, Seq<u8>>,
    ta: Seq<u8>,
    tb: Seq<u8>,
    recs: Seq<(u8, Seq<u8>, Seq<u8>)>,
)
    requires
        ta != tb,
    ensures
        forall|x: u8, v: Seq<u8>|
            #![trigger apply_note_records(m, ta, recs).contains_pair(note_key_bytes(x, tb), v)]
            apply_note_records(m, ta, recs).contains_pair(note_key_bytes(x, tb), v)
                <==> m.contains_pair(note_key_bytes(x, tb), v),
    decreases recs.len(),
{
    if recs.len() > 0 {
        let m1 = crate::api::serial_api::apply_note_record(m, ta, recs[0]);
        assert forall|x: u8, v: Seq<u8>|
            m1.contains_pair(note_key_bytes(x, tb), v) <==> #[trigger] m.contains_pair(
                note_key_bytes(x, tb),
                v,
            ) by {
            assert(note_key_bytes(x, tb).skip(1) =~= tb);
            assert(note_key_bytes(recs[0].0, ta).skip(1) =~= ta);
        }
        law_note_batch_isolation(m1, ta, tb, recs.skip(1));
        assert forall|x: u8, v: Seq<u8>|
            #![trigger apply_note_records(m, ta, recs).contains_pair(note_key_bytes(x, tb), v)]
            apply_note_records(m, ta, recs).contains_pair(note_key_bytes(x, tb), v)
                <==> m.contains_pair(note_key_bytes(x, tb), v) by {
            assert(apply_note_records(m1, ta, recs.skip(1)).contains_pair(note_key_bytes(x, tb), v)
                <==> m1.contains_pair(note_key_bytes(x, tb), v));
        }
    }
}

/// A vault-name batch applied under one owner leaves every name record of
/// any other owner's tenants exactly as it was. Owners' identifiers have one
/// fixed format, so their tenant keys differ whenever the owners do.
pub proof fn law_name_batch_isolation(
    m: Map<Seq<u8>, Seq<u8>>,
    oa: Seq<u8>,
    ob: Seq<u8>,
    recs: Seq<(Seq<u8>, Seq<u8>)>,
    vid: Seq<u8>,
    name: Seq<u8>,
)
    requires
        forall|vid2: Seq<u8>| tenant_bytes(oa, vid2) != tenant_bytes(ob, vid),
    ensures
        apply_name_records(m, oa, recs).contains_pair(tenant_bytes(ob, vid), name)
            <==> m.contains_pair(tenant_bytes(ob, vid), name),
    decreases recs.len(),
{
    if recs.len() > 0 {
        let m1 = crate::api::serial_api::apply_name_record(m, oa, recs[0]);
        assert(tenant_bytes(oa, recs[0].0) != tenant_bytes(ob, vid));
        law_name_batch_isolation(m1, oa, ob, recs.skip(1), vid, name);
    }
}

// ---------------------------------------------------------------------------
// Round trip: encode, decode, apply, project
// ---------------------------------------------------------------------------
/// The wire encoding of one cell record.
pub open spec fn encode_cell(rec: (u8, u8, Seq<u8>)) -> Seq<u8> {
    seq![(rec.2.len() / 256) as u8, (rec.2.len() % 256) as u8, rec.0, rec.1] + rec.2
}

/// The wire encoding of a whole cell batch, record after record.
pub open spec fn encode_cells(recs: Seq<(u8, u8, Seq<u8>)>) -> Seq<u8>
    decreases recs.len(),
{
    if recs.len() == 0 {
        Seq::empty()
    } else {
        encode_cell(recs[0]) + encode_cells(recs.skip(1))
    }
}

/// Decoding inverts encoding, for payloads that fit the 16-bit length field.
pub proof fn law_cells_codec_round_trip(recs: Seq<(u8, u8, Seq<u8>)>)
    requires
        forall|i: int| 0 <= i < recs.len() ==> (#[trigger] recs[i]).2.len() <= 65535,
    ensures
        parse_cells(encode_cells(recs)) == Some(recs),
    decreases recs.len(),
{
    if recs.len() == 0 {
        assert(encode_cells(recs).len() == 0);
        assert(parse_cells(encode_cells(recs)) == Some(Seq::<(u8, u8, Seq<u8>)>::empty()));
        assert(Seq::<(u8, u8, Seq<u8>)>::empty() =~= recs);
    } else {
        let s = encode_cells(recs);
        let head = encode_cell(recs[0]);
        let rest = encode_cells(recs.skip(1));
        let l = recs[0].2.len() as int;
        assert(head.len() == 4 + l);
        assert(s == head + rest);
        assert(s.len() >= 4);
        assert(s[0] == (l / 256) as u8 && s[1] == (l % 256) as u8);
        assert(0 <= l / 256 <= 255 && 0 <= l % 256 <= 255);
        assert(be16(s[0], s[1]) == (l / 256) * 256 + (l % 256));
        assert((l / 256) * 256 + (l % 256) == l);
        assert(s[2] == recs[0].0 && s[3] == recs[0].1);
        assert(s.subrange(4, 4 + l) =~= recs[0].2);
        assert(s.skip(4 + l) =~= rest);
        law_cells_codec_round_trip(recs.skip(1));
        assert(parse_cells(s) == Some(
            seq![(s[2], s[3], s.subrange(4, 4 + l))] + parse_cells(s.skip(4 + l))->Some_0,
        ));
        assert(seq![(recs[0].0, recs[0].1, recs[0].2)] + recs.skip(1) =~= recs);
    }
}

/// Does the batch write to the cell at (x, y)?
pub open spec fn batch_covers(recs: Seq<(u8, u8, Seq<u8>)>, t: Seq<u8>, k: Seq<u8>) -> bool {
    exists|i: int| 0 <= i < recs.len() && k == cell_key_bytes((#[trigger] recs[i]).0, recs[i].1, t)
}

/// Applying a batch leaves every key it does not cover untouched.
pub proof fn lemma_apply_cells_frame(m: Map<Seq<u8>, Seq<u8>>, t: Seq<u8>, recs: Seq<(u8, u8, Seq<u8>)>)
    ensures
        forall|k: Seq<u8>|
            !batch_covers(recs, t, k) ==> (#[trigger] apply_cell_records(m, t, recs).contains_key(
                k,
            ) <==> m.contains_key(k)) && (m.contains_key(k) ==> apply_cell_records(m, t, recs)[k]
                == m[k]),
    decreases recs.len(),
{
    if recs.len() > 0 {
        let m1 = apply_cell_record(m, t, recs[0]);
        lemma_apply_cells_frame(m1, t, recs.skip(1));
        assert forall|k: Seq<u8>| !batch_covers(recs, t, k) implies (
        #[trigger] apply_cell_records(m, t, recs).contains_key(k) <==> m.contains_key(k)) && (
        m.contains_key(k) ==> apply_cell_records(m, t, recs)[k] == m[k]) by {
            if k == cell_key_bytes(recs[0].0, recs[0].1, t) {
                assert(batch_covers(recs, t, k));
            }
            assert forall|i: int|
                0 <= i < recs.skip(1).len() implies k != cell_key_bytes(
                (#[trigger] recs.skip(1)[i]).0,
                recs.skip(1)[i].1,
                t,
            ) by {
                assert(recs.skip(1)[i] == recs[i + 1]);
            }
            assert(!batch_covers(recs.skip(1), t, k));
            assert(apply_cell_records(m, t, recs) == apply_cell_records(m1, t, recs.skip(1)));
            assert(apply_cell_records(m1, t, recs.skip(1)).contains_key(k) <==> m1.contains_key(
                k,
            ));
            assert(m1.contains_key(k) ==> apply_cell_records(m1, t, recs.skip(1))[k] == m1[k]);
        }
    }
}

/// Applying a batch of pairwise-distinct, non-deleting records to a store
/// that holds none of their keys stores exactly those records.
pub proof fn lemma_apply_cells_distinct(
    m: Map<Seq<u8>, Seq<u8>>,
    t: Seq<u8>,
    recs: Seq<(u8, u8, Seq<u8>)>,
)
    requires
        forall|i: int| 0 <= i < recs.len() ==> (#[trigger] recs[i]).2.len() >= 1,
        forall|i: int, j: int|
            0 <= i < j < recs.len() ==> ((#[trigger] recs[i]).0 != (#[trigger] recs[j]).0
                || recs[i].1 != recs[j].1),
        forall|i: int|
            0 <= i < recs.len() ==> !m.contains_key(
                cell_key_bytes((#[trigger] recs[i]).0, recs[i].1, t),
            ),
    ensures
        forall|x: u8, y: u8, v: Seq<u8>|
            #![trigger apply_cell_records(m, t, recs).contains_pair(cell_key_bytes(x, y, t), v)]
            apply_cell_records(m, t, recs).contains_pair(cell_key_bytes(x, y, t), v) <==> (
            m.contains_pair(cell_key_bytes(x, y, t), v) || recs.contains((x, y, v))),
    decreases recs.len(),
{
    if recs.len() == 0 {
        assert forall|x: u8, y: u8, v: Seq<u8>| !recs.contains((x, y, v)) by {
            if recs.contains((x, y, v)) {
                let i = choose|i: int| 0 <= i < recs.len() && recs[i] == (x, y, v);
            }
        }
    } else {
        let r0 = recs[0];
        let k0 = cell_key_bytes(r0.0, r0.1, t);
        let m1 = apply_cell_record(m, t, recs[0]);
        assert(m1 == m.insert(k0, r0.2));
        assert forall|i: int|
            0 <= i < recs.skip(1).len() implies !m1.contains_key(
            cell_key_bytes((#[trigger] recs.skip(1)[i]).0, recs.skip(1)[i].1, t),
        ) by {
            assert(recs.skip(1)[i] == recs[i + 1]);
            let ki = cell_key_bytes(recs[i + 1].0, recs[i + 1].1, t);
            assert(ki[0] == recs[i + 1].0 && ki[1] == recs[i + 1].1);
            assert(k0[0] == r0.0 && k0[1] == r0.1);
            assert(ki != k0);
        }
        lemma_apply_cells_distinct(m1, t, recs.skip(1));
        assert forall|x: u8, y: u8, v: Seq<u8>|
            #![trigger apply_cell_records(m, t, recs).contains_pair(cell_key_bytes(x, y, t), v)]
            apply_cell_records(m, t, recs).contains_pair(cell_key_bytes(x, y, t), v) <==> (
        m.contains_pair(cell_key_bytes(x, y, t), v) || recs.contains((x, y, v))) by {
            let k = cell_key_bytes(x, y, t);
            assert(k[0] == x && k[1] == y);
            assert(k0[0] == r0.0 && k0[1] == r0.1);
            assert(apply_cell_records(m, t, recs) == apply_cell_records(m1, t, recs.skip(1)));
            if recs.contains((x, y, v)) {
                let i = choose|i: int| 0 <= i < recs.len() && recs[i] == (x, y, v);
                if i == 0 {
                    assert(m1.contains_pair(k, v));
                } else {
                    assert(recs.skip(1)[i - 1] == recs[i]);
                    assert(recs.skip(1).contains((x, y, v)));
                }
            }
            if recs.skip(1).contains((x, y, v)) {
                let i = choose|i: int| 0 <= i < recs.skip(1).len() && recs.skip(1)[i] == (x, y, v);
                assert(recs[i + 1] == (x, y, v));
                assert(recs.contains((x, y, v)));
            }
            if m1.contains_pair(k, v) && !m.contains_pair(k, v) {
                assert(k == k0 && v == r0.2);
                assert(recs.contains((x, y, v)));
            }
        }
    }
}

/// The round-trip law: a set of non-empty cell records with distinct
/// coordinates, encoded as a cell batch, applied to an empty store and
/// projected, yields exactly that set, grouped by column, then row.
pub proof fn law_cell_round_trip(recs: Seq<(u8, u8, Seq<u8>)>, t: Seq<u8>, s: Spreadsheet)
    requires
        forall|i: int| 0 <= i < recs.len() ==> 1 <= (#[trigger] recs[i]).2.len() <= 65535,
        forall|i: int, j: int|
            0 <= i < j < recs.len() ==> ((#[trigger] recs[i]).0 != (#[trigger] recs[j]).0
                || recs[i].1 != recs[j].1),
        sheet_matches(
            s,
            apply_cell_records(empty_contents(), t, parse_cells(encode_cells(recs))->Some_0),
            t,
        ),
    ensures
        parse_cells(encode_cells(recs)) == Some(recs),
        forall|x: u8, y: u8, v: Seq<u8>|
            #![trigger sheet_has(s, x, y, v)]
            sheet_has(s, x, y, v) <==> recs.contains((x, y, v)),
{
    law_cells_codec_round_trip(recs);
    lemma_apply_cells_distinct(empty_contents(), t, recs);
}

// ---------------------------------------------------------------------------
// Idempotence
// ---------------------------------------------------------------------------
/// Do `m1` and `m2` agree at key `k`?
pub open spec fn same_at(m1: Map<Seq<u8>, Seq<u8>>, m2: Map<Seq<u8>, Seq<u8>>, k: Seq<u8>) -> bool {
    (m1.contains_key(k) <==> m2.contains_key(k)) && (m1.contains_key(k) ==> m1[k] == m2[k])
}

/// Two stores that agree on every key a batch does not cover end up equal
/// after the batch: the batch rewrites every key it covers the same way.
pub proof fn lemma_apply_cells_agree(
    m1: Map<Seq<u8>, Seq<u8>>,
    m2: Map<Seq<u8>, Seq<u8>>,
    t: Seq<u8>,
    recs: Seq<(u8, u8, Seq<u8>)>,
)
    requires
        forall|k: Seq<u8>| !batch_covers(recs, t, k) ==> #[trigger] same_at(m1, m2, k),
    ensures
        apply_cell_records(m1, t, recs) == apply_cell_records(m2, t, recs),
    decreases recs.len(),
{
    if recs.len() == 0 {
        assert forall|k: Seq<u8>| #[trigger] m1.contains_key(k) <==> m2.contains_key(k) by {
            assert(!batch_covers(recs, t, k));
            assert(same_at(m1, m2, k));
        }
        assert forall|k: Seq<u8>| #[trigger] m1.contains_key(k) implies m1[k] == m2[k] by {
            assert(!batch_covers(recs, t, k));
            assert(same_at(m1, m2, k));
        }
        assert(m1 =~= m2);
    } else {
        let n1 = apply_cell_record(m1, t, recs[0]);
        let n2 = apply_cell_record(m2, t, recs[0]);
        let k0 = cell_key_bytes(recs[0].0, recs[0].1, t);
        assert forall|k: Seq<u8>| !batch_covers(recs.skip(1), t, k) implies #[trigger] same_at(
            n1,
            n2,
            k,
        ) by {
            if k == k0 {
                assert(same_at(n1, n2, k));
            } else {
                assert forall|i: int|
                    0 <= i < recs.len() implies k != cell_key_bytes(
                    (#[trigger] recs[i]).0,
                    recs[i].1,
                    t,
                ) by {
                    if i > 0 {
                        assert(recs.skip(1)[i - 1] == recs[i]);
                    }
                }
                assert(!batch_covers(recs, t, k));
                assert(same_at(m1, m2, k));
            }
        }
        lemma_apply_cells_agree(n1, n2, t, recs.skip(1));
    }
}

/// Idempotence: applying one cell batch twice yields the same store as
/// applying it once. This holds for every batch; in particular for the
/// non-deleting ones.
pub proof fn law_apply_cells_idempotent(m: Map<Seq<u8>, Seq<u8>>, t: Seq<u8>, recs: Seq<(u8, u8, Seq<u8>)>)
    ensures
        apply_cell_records(apply_cell_records(m, t, recs), t, recs) == apply_cell_records(
            m,
            t,
            recs,
        ),
{
    lemma_apply_cells_frame(m, t, recs);
    assert forall|k: Seq<u8>| !batch_covers(recs, t, k) implies #[trigger] same_at(
        apply_cell_records(m, t, recs),
        m,
        k,
    ) by {}
    lemma_apply_cells_agree(apply_cell_records(m, t, recs), m, t, recs);
}

/// Two projections of equal store contents show the same cells: the
/// projected state after applying a batch twice equals the one after
/// applying it once.
pub proof fn law_projection_deterministic(
    s1: Spreadsheet,
    s2: Spreadsheet,
    m: Map<Seq<u8>, Seq<u8>>,
    t: Seq<u8>,
)
    requires
        sheet_matches(s1, m, t),
        sheet_matches(s2, m, t),
    ensures
        forall|x: u8, y: u8, v: Seq<u8>|
            #![trigger sheet_has(s1, x, y, v)]
            #![trigger sheet_has(s2, x, y, v)]
            sheet_has(s1, x, y, v) <==> sheet_has(s2, x, y, v),
{
}

// ---------------------------------------------------------------------------
// Tombstones and cascades
// ---------------------------------------------------------------------------
/// The tombstone law: a cell batch holding (x, y) with an empty payload
/// removes whatever was stored at (x, y); a subsequent projection omits
/// (x, y) entirely.
pub proof fn law_tombstone(
    m: Map<Seq<u8>, Seq<u8>>,
    t: Seq<u8>,
    x: u8,
    y: u8,
    s: Spreadsheet,
)
    requires
        sheet_matches(s, apply_cell_records(m, t, seq![(x, y, Seq::<u8>::empty())]), t),
    ensures
        !apply_cell_records(m, t, seq![(x, y, Seq::<u8>::empty())]).contains_key(
            cell_key_bytes(x, y, t),
        ),
        forall|v: Seq<u8>| !sheet_has(s, x, y, v),
{
    reveal_with_fuel(apply_cell_records, 2);
    let recs = seq![(x, y, Seq::<u8>::empty())];
    assert(recs.skip(1) =~= Seq::<(u8, u8, Seq<u8>)>::empty());
    assert(apply_cell_records(m, t, recs) == m.remove(cell_key_bytes(x, y, t)));
}

/// The cascade law: deleting login-column metadata at `x` removes every
/// login cell at `x` for the same tenant, and a subsequent login projection
/// holds neither a column nor any cell at `x`.
pub proof fn law_cascade(
    cols: Map<Seq<u8>, Seq<u8>>,
    cells: Map<Seq<u8>, Seq<u8>>,
    t: Seq<u8>,
    x: u8,
    l: Logins,
)
    requires
        logins_matches(
            l,
            apply_metadata_records(cols, cells, t, seq![(x, Seq::<u8>::empty())]).0,
            apply_metadata_records(cols, cells, t, seq![(x, Seq::<u8>::empty())]).1,
            t,
        ),
    ensures
        forall|y: u8, v: Seq<u8>|
            !apply_metadata_records(cols, cells, t, seq![(x, Seq::<u8>::empty())]).1.contains_pair(
                cell_key_bytes(x, y, t),
                v,
            ),
        forall|label: Seq<u8>| !login_col_has(l, x, label),
        forall|y: u8, v: Seq<u8>| !login_cell_has(l, x, y, v),
{
    reveal_with_fuel(apply_metadata_records, 2);
    let recs = seq![(x, Seq::<u8>::empty())];
    assert(recs.skip(1) =~= Seq::<(u8, Seq<u8>)>::empty());
    let after = apply_metadata_records(cols, cells, t, recs);
    assert(after.0 == cols.remove(column_key_bytes(x, t)));
    assert(after.1 == purge_login_column(cells, t, x));
    assert forall|y: u8, v: Seq<u8>|
        !after.1.contains_pair(cell_key_bytes(x, y, t), v) by {
        let k = cell_key_bytes(x, y, t);
        assert(k[0] == x);
        assert(k.skip(2) =~= t);
        assert(key_matches_column(k, t, x));
    }
}

/// A coordinate-delete batch applied under tenant `ta` leaves every cell
/// record of any other tenant `tb` exactly as it was.
pub proof fn law_delete_batch_isolation(
    m: Map<Seq<u8>, Seq<u8>>,
    ta: Seq<u8>,
    tb: Seq<u8>,
    recs: Seq<(u8, u8)>,
)
    requires
        ta != tb,
    ensures
        forall|x: u8, y: u8, v: Seq<u8>|
            #![trigger apply_delete_records(m, ta, recs).contains_pair(cell_key_bytes(x, y, tb), v)]
            apply_delete_records(m, ta, recs).contains_pair(cell_key_bytes(x, y, tb), v)
                <==> m.contains_pair(cell_key_bytes(x, y, tb), v),
    decreases recs.len(),
{
    if recs.len() > 0 {
        let m1 = m.remove(cell_key_bytes(recs[0].0, recs[0].1, ta));
        assert forall|x: u8, y: u8, v: Seq<u8>|
            m1.contains_pair(cell_key_bytes(x, y, tb), v) <==> #[trigger] m.contains_pair(
                cell_key_bytes(x, y, tb),
                v,
            ) by {
            assert(cell_key_bytes(x, y, tb).skip(2) =~= tb);
            assert(cell_key_bytes(recs[0].0, recs[0].1, ta).skip(2) =~= ta);
        }
        law_delete_batch_isolation(m1, ta, tb, recs.skip(1));
        assert forall|x: u8, y: u8, v: Seq<u8>|
            #![trigger apply_delete_records(m, ta, recs).contains_pair(cell_key_bytes(x, y, tb), v)]
            apply_delete_records(m, ta, recs).contains_pair(cell_key_bytes(x, y, tb), v)
                <==> m.contains_pair(cell_key_bytes(x, y, tb), v) by {
            assert(apply_delete_records(m1, ta, recs.skip(1)).contains_pair(
                cell_key_bytes(x, y, tb),
                v,
            ) <==> m1.contains_pair(cell_key_bytes(x, y, tb), v));
        }
    }
}

/// A column-metadata batch applied under tenant `ta` leaves every
/// column-metadata record of any other tenant `tb` exactly as it was.
pub proof fn law_column_batch_isolation(
    m: Map<Seq<u8>, Seq<u8>>,
    ta: Seq<u8>,
    tb: Seq<u8>,
    recs: Seq<(u8, bool, Seq<u8>)>,
)
    requires
        ta != tb,
    ensures
        forall|x: u8, v: Seq<u8>|
            #![trigger apply_column_records(m, ta, recs).contains_pair(column_key_bytes(x, tb), v)]
            apply_column_records(m, ta, recs).contains_pair(column_key_bytes(x, tb), v)
                <==> m.contains_pair(column_key_bytes(x, tb), v),
    decreases recs.len(),
{
    if recs.len() > 0 {
        let m1 = crate::api::serial_api::apply_column_record(m, ta, recs[0]);
        assert forall|x: u8, v: Seq<u8>|
            m1.contains_pair(column_key_bytes(x, tb), v) <==> #[trigger] m.contains_pair(
                column_key_bytes(x, tb),
                v,
            ) by {
            assert(column_key_bytes(x, tb).skip(1) =~= tb);
            assert(column_key_bytes(recs[0].0, ta).skip(1) =~= ta);
        }
        law_column_batch_isolation(m1, ta, tb, recs.skip(1));
        assert forall|x: u8, v: Seq<u8>|
            #![trigger apply_column_records(m, ta, recs).contains_pair(column_key_bytes(x, tb), v)]
            apply_column_records(m, ta, recs).contains_pair(column_key_bytes(x, tb), v)
                <==> m.contains_pair(column_key_bytes(x, tb), v) by {
            assert(apply_column_records(m1, ta, recs.skip(1)).contains_pair(
                column_key_bytes(x, tb),
                v,
            ) <==> m1.contains_pair(column_key_bytes(x, tb), v));
        }
    }
}

} // verus!
