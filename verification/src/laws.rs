//! Laws of the storage contract, stated over the same view transformations
//! that every backend's contracts are written in, and proved once here.
use vstd::prelude::*;

use crate::alter::add_col_rows;
use crate::alter::drop_col_rows;
use crate::alter::fill_value_of;
use crate::alter::find_col;
use crate::alter::lemma_add_then_drop_column;
use crate::entity::ColumnDefV;
use crate::entity::SchemaV;
use crate::entity::ValueV;
use crate::memory_storage::StoreView;
use crate::memory_storage::rows_of;
use crate::rows::find_row;
use crate::rows::ids_bounded;
use crate::rows::lemma_find_row;
use crate::rows::lemma_find_row_none;
use crate::rows::rows_aligned;
use crate::rows::upsert_rows;

verus! {

/// A row inserted under a freshly generated key appears in the table's scan
/// exactly once, at the back, under exactly that key: `generate_id` returns
/// the incremented counter, which is larger than every id the table holds,
/// so the upsert appends and no other pair carries the id.
pub proof fn lemma_insert_fresh_row_scans(v: StoreView, t: Seq<char>, row: Seq<ValueV>)
    requires
        ids_bounded(rows_of(v.data, t), v.id),
        v.id < u64::MAX,
    ensures
        ({
            let key_id = (v.id + 1) as u64;
            let rows1 = upsert_rows(rows_of(v.data, t), key_id, row);
            &&& rows1 == rows_of(v.data, t).push((key_id, row))
            &&& rows1[rows1.len() - 1] == (key_id, row)
            &&& forall|j: int| 0 <= j < rows1.len() - 1 ==> rows1[j].0 != key_id
        }),
{
    let rows0 = rows_of(v.data, t);
    let key_id = (v.id + 1) as u64;
    assert forall|j: int| 0 <= j < rows0.len() implies rows0[j].0 != key_id by {
        assert(rows0[j].0 <= v.id);
    }
    lemma_find_row_none(rows0, key_id);
    let rows1 = upsert_rows(rows0, key_id, row);
    assert(rows1 == rows0.push((key_id, row)));
    assert forall|j: int| 0 <= j < rows1.len() - 1 implies rows1[j].0 != key_id by {
        assert(rows1[j] == rows0[j]);
    }
}

/// An issued id is never reissued after a deletion: ids come only from the
/// counter, which every operation keeps and `generate_id` strictly
/// increases, so the next issued id differs from every id issued before —
/// including any that a deleted row carried.
pub proof fn lemma_no_id_reuse(v: StoreView, id: u64)
    requires
        id <= v.id,
        v.id < u64::MAX,
    ensures
        (v.id + 1) as u64 != id,
{
}

/// Upserting under an id that is already present replaces that row's value
/// but not its position: the id at every scan position is unchanged, the
/// matched position holds the new row, and every other pair is untouched.
pub proof fn lemma_upsert_keeps_position(rows: Seq<(u64, Seq<ValueV>)>, id: u64, row: Seq<ValueV>)
    requires
        find_row(rows, id) is Some,
    ensures
        upsert_rows(rows, id, row).len() == rows.len(),
        forall|j: int| 0 <= j < rows.len() ==> #[trigger] upsert_rows(rows, id, row)[j].0
            == rows[j].0,
        upsert_rows(rows, id, row)[find_row(rows, id)->Some_0] == (id, row),
        forall|j: int|
            0 <= j < rows.len() && j != find_row(rows, id)->Some_0 ==> #[trigger] upsert_rows(
                rows,
                id,
                row,
            )[j] == rows[j],
{
    lemma_find_row(rows, id);
    let i = find_row(rows, id)->Some_0;
    let rows1 = upsert_rows(rows, id, row);
    assert(rows1 == rows.update(i, (id, row)));
    assert forall|j: int| 0 <= j < rows.len() implies #[trigger] rows1[j].0 == rows[j].0 by {
        if j != i {
            assert(rows1[j] == rows[j]);
        } else {
            assert(rows[i].0 == id);
        }
    }
}

/// Adding a column and then dropping it again by name restores the table's
/// schema slot and its rows exactly, for any prior table state: the added
/// definition sits at the back, the drop finds it there, and removing that
/// position undoes the append on the column list and on every row.
pub proof fn lemma_add_then_drop_restores(v: StoreView, t: Seq<char>, cd: ColumnDefV)
    requires
        v.schemas.contains_key(t),
        v.schemas[t].table_name == t,
        v.data.contains_key(t),
        find_col(v.schemas[t].column_defs, cd.name) is None,
        fill_value_of(cd) is Some,
        rows_aligned(v.data[t], v.schemas[t].column_defs.len() as int),
    ensures
        ({
            let cols = v.schemas[t].column_defs;
            let fill = fill_value_of(cd)->Some_0;
            let schemas1 = v.schemas.insert(
                t,
                (SchemaV { table_name: v.schemas[t].table_name, column_defs: cols.push(cd) }),
            );
            let data1 = v.data.insert(t, add_col_rows(v.data[t], fill));
            &&& find_col(cols.push(cd), cd.name) == Some(cols.len() as int)
            &&& schemas1.insert(
                t,
                (SchemaV { table_name: t, column_defs: cols.push(cd).remove(cols.len() as int) }),
            ) == v.schemas
            &&& data1.insert(t, drop_col_rows(add_col_rows(v.data[t], fill), cols.len() as int))
                == v.data
        }),
{
    let cols = v.schemas[t].column_defs;
    let fill = fill_value_of(cd)->Some_0;
    lemma_add_then_drop_column(cols, v.data[t], cd, fill);
    let schemas1 = v.schemas.insert(
        t,
        (SchemaV { table_name: v.schemas[t].table_name, column_defs: cols.push(cd) }),
    );
    assert(cols.push(cd).remove(cols.len() as int) == cols);
    assert((SchemaV { table_name: t, column_defs: cols }) == v.schemas[t]);
    assert(schemas1.insert(t, (SchemaV { table_name: t, column_defs: cols })) =~= v.schemas);
    assert(drop_col_rows(add_col_rows(v.data[t], fill), cols.len() as int) == v.data[t]);
    let data1 = v.data.insert(t, add_col_rows(v.data[t], fill));
    assert(data1.insert(t, v.data[t]) =~= v.data);
}

/// Renaming a table to a fresh name and then renaming it back restores the
/// original schema map exactly and every table's row contents exactly.
pub proof fn lemma_rename_roundtrip(v: StoreView, t: Seq<char>, nt: Seq<char>)
    requires
        v.schemas.contains_key(t),
        v.schemas[t].table_name == t,
        !v.schemas.contains_key(nt),
        !v.data.contains_key(nt),
        nt != t,
    ensures
        ({
            let schemas1 = v.schemas.insert(
                nt,
                (SchemaV { table_name: nt, column_defs: v.schemas[t].column_defs }),
            ).remove(t);
            let data1 = v.data.remove(t).insert(nt, rows_of(v.data, t));
            let schemas2 = schemas1.insert(
                t,
                (SchemaV { table_name: t, column_defs: schemas1[nt].column_defs }),
            ).remove(nt);
            let data2 = data1.remove(nt).insert(t, rows_of(data1, nt));
            &&& schemas1.contains_key(nt)
            &&& schemas2 == v.schemas
            &&& (forall|u: Seq<char>| rows_of(data2, u) == rows_of(v.data, u))
            &&& v.data.contains_key(t) ==> data2 == v.data
        }),
{
    let schemas1 = v.schemas.insert(
        nt,
        (SchemaV { table_name: nt, column_defs: v.schemas[t].column_defs }),
    ).remove(t);
    let data1 = v.data.remove(t).insert(nt, rows_of(v.data, t));
    let schemas2 = schemas1.insert(
        t,
        (SchemaV { table_name: t, column_defs: schemas1[nt].column_defs }),
    ).remove(nt);
    let data2 = data1.remove(nt).insert(t, rows_of(v.data, t));
    assert(schemas1[nt].column_defs == v.schemas[t].column_defs);
    assert((SchemaV { table_name: t, column_defs: schemas1[nt].column_defs }) == v.schemas[t]);
    assert(schemas2 =~= v.schemas);
    assert(rows_of(data1, nt) == rows_of(v.data, t));
    assert forall|u: Seq<char>| rows_of(data2, u) == rows_of(v.data, u) by {
        if u == t {
            assert(data2.contains_key(t));
            assert(data2[t] == rows_of(v.data, t));
        } else if u == nt {
            assert(!data2.contains_key(nt));
            assert(!v.data.contains_key(nt));
        } else {
            if v.data.contains_key(u) {
                assert(data2[u] == v.data[u]);
            } else {
                assert(!data2.contains_key(u));
            }
        }
    }
    if v.data.contains_key(t) {
        assert(data2 =~= v.data);
    }
}

} // verus!
