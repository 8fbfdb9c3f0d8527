//! The in-process backend: schemas and rows held in persistent (structurally
//! shared) collections, so every mutation returns a new instance cheaply
//! while the previous one stays valid.
//!
//! Every operation's contract states the exact transformation of the
//! instance's view: a map of schemas by table name, a map of ordered
//! (id, row) collections by table name, and the last issued id.
use vstd::prelude::*;

use crate::alter::add_col_rows;
use crate::alter::column_fill_value;
use crate::alter::drop_col_rows;
use crate::alter::fill_value_of;
use crate::alter::find_col;
use crate::alter::find_col_exec;
use crate::alter::rename_col_defs;
use crate::collections::data_map_view;
use crate::collections::dm_extract;
use crate::collections::dm_get;
use crate::collections::dm_new;
use crate::collections::dm_remove;
use crate::collections::dm_update;
use crate::collections::row_vec_view;
use crate::collections::rv_get;
use crate::collections::rv_len;
use crate::collections::rv_new;
use crate::collections::rv_push;
use crate::collections::rv_remove;
use crate::collections::rv_update;
use crate::collections::schema_map_view;
use crate::collections::sm_get;
use crate::collections::sm_new;
use crate::collections::sm_remove;
use crate::collections::sm_update;
use crate::entity::ColumnDef;
use crate::entity::DataKey;
use crate::entity::KeyV;
use crate::entity::Row;
use crate::entity::Schema;
use crate::entity::SchemaV;
use crate::entity::ValueV;
use crate::error::ErrorV;
use crate::error::MutResult;
use crate::error::StorageError;
use crate::rows::find_row;
use crate::rows::ids_bounded;
use crate::rows::lemma_find_row_at;
use crate::rows::lemma_find_row_none;
use crate::rows::lemma_remove_row;
use crate::rows::lemma_upsert_rows;
use crate::rows::remove_row;
use crate::rows::rows_aligned;
use crate::rows::unique_ids;
use crate::rows::upsert_rows;

verus! {

/// The view of a storage instance: which schema and which ordered row
/// collection each table holds, and the last issued row id.
pub struct StoreView {
    pub schemas: Map<Seq<char>, SchemaV>,
    pub data: Map<Seq<char>, Seq<(u64, Seq<ValueV>)>>,
    pub id: u64,
}

/// The rows a table holds: its row collection, or the empty sequence when
/// the data map has no entry for it.
pub open spec fn rows_of(data: Map<Seq<char>, Seq<(u64, Seq<ValueV>)>>, t: Seq<char>) -> Seq<
    (u64, Seq<ValueV>),
> {
    if data.contains_key(t) {
        data[t]
    } else {
        Seq::empty()
    }
}

/// The view of a freshly created storage instance.
pub open spec fn empty_store() -> StoreView {
    StoreView { schemas: Map::empty(), data: Map::empty(), id: 0 }
}

/// The in-process backend.
#[derive(Debug)]
pub struct MemoryStorage {
    schema_map: im::HashMap<String, Schema>,
    data_map: im::HashMap<String, im::Vector<(u64, Row)>>,
    id: u64,
}

impl View for MemoryStorage {
    type V = StoreView;

    closed spec fn view(&self) -> StoreView {
        StoreView {
            schemas: schema_map_view(self.schema_map),
            data: data_map_view(self.data_map),
            id: self.id,
        }
    }
}

impl MemoryStorage {
    /// Well-formedness: within each table ids are unique and no id exceeds
    /// the counter (ids come from the counter only, so none is ever
    /// reissued), and each table's rows are positionally aligned with its
    /// schema.
    pub open spec fn inv(self) -> bool {
        &&& (forall|t: Seq<char>|
            #[trigger] self@.data.contains_key(t) ==> unique_ids(self@.data[t]) && ids_bounded(
                self@.data[t],
                self@.id,
            ))
        &&& (forall|t: Seq<char>|
            self@.schemas.contains_key(t) && #[trigger] self@.data.contains_key(t)
                ==> rows_aligned(self@.data[t], self@.schemas[t].column_defs.len() as int))
    }

    /// Creates an empty storage instance.
    pub fn new() -> (r: Result<Self, StorageError>)
        ensures
            r is Ok,
            r matches Ok(s) ==> s@ == empty_store() && s.inv(),
    {
        let storage = MemoryStorage { schema_map: sm_new(), data_map: dm_new(), id: 0 };
        proof {
            assert(storage@.schemas =~= empty_store().schemas);
            assert(storage@.data =~= empty_store().data);
        }
        Ok(storage)
    }

    /// Issues the next row id for a table: the counter is incremented and
    /// threaded into the returned instance, and the returned key carries the
    /// new counter value, so no issued id is ever repeated.
    pub fn generate_id(self, table_name: &str) -> (r: MutResult<Self, DataKey>)
        requires
            self.inv(),
            self@.id < u64::MAX,
        ensures
            r is Ok,
            r matches Ok((s, key)) ==> {
                &&& s@.schemas == self@.schemas
                &&& s@.data == self@.data
                &&& s@.id == self@.id + 1
                &&& key@ == (KeyV { table_name: table_name@, id: (self@.id + 1) as u64 })
                &&& s.inv()
            },
    {
        let ghost pre = self@;
        let MemoryStorage { schema_map, data_map, id } = self;
        let id = id + 1;
        let storage = MemoryStorage { schema_map, data_map, id };
        let key = DataKey { table_name: table_name.to_owned(), id };
        proof {
            assert forall|t: Seq<char>| #[trigger] storage@.data.contains_key(t) implies unique_ids(
                storage@.data[t],
            ) && ids_bounded(storage@.data[t], storage@.id) by {
                assert(pre.data.contains_key(t));
                assert(ids_bounded(pre.data[t], pre.id));
                assert forall|i: int| 0 <= i < storage@.data[t].len() implies #[trigger] storage@
                    .data[t][i].0 <= storage@.id by {
                    assert(pre.data[t][i].0 <= pre.id);
                }
            }
            assert(storage@.schemas == pre.schemas);
            assert(storage@.data == pre.data);
            assert(storage@.id == pre.id + 1);
            assert(key@ == (KeyV { table_name: table_name@, id: (pre.id + 1) as u64 }));
            assert(storage.inv());
        }
        Ok((storage, key))
    }

    /// Installs or overwrites the schema stored under the schema's own table
    /// name; rows and the id counter are untouched.
    pub fn insert_schema(self, schema: &Schema) -> (r: MutResult<Self, ()>)
        requires
            self.inv(),
            self@.data.contains_key(schema@.table_name) ==> rows_aligned(
                self@.data[schema@.table_name],
                schema@.column_defs.len() as int,
            ),
        ensures
            r is Ok,
            r matches Ok((s, v)) ==> {
                &&& s@.schemas == self@.schemas.insert(schema@.table_name, schema@)
                &&& s@.data == self@.data
                &&& s@.id == self@.id
                &&& s.inv()
            },
    {
        let ghost pre = self@;
        let schema_map = sm_update(&self.schema_map, schema.table_name.clone(), schema.clone());
        let storage = MemoryStorage { schema_map, data_map: self.data_map, id: self.id };
        Ok((storage, ()))
    }

    /// Removes the schema and all rows of a table; an absent table is not an
    /// error.
    pub fn delete_schema(self, table_name: &str) -> (r: MutResult<Self, ()>)
        requires
            self.inv(),
        ensures
            r is Ok,
            r matches Ok((s, v)) ==> {
                &&& s@.schemas == self@.schemas.remove(table_name@)
                &&& s@.data == self@.data.remove(table_name@)
                &&& s@.id == self@.id
                &&& s.inv()
            },
    {
        let ghost pre = self@;
        let MemoryStorage { mut schema_map, mut data_map, id } = self;
        dm_remove(&mut data_map, table_name);
        sm_remove(&mut schema_map, table_name);
        let storage = MemoryStorage { schema_map, data_map, id };
        Ok((storage, ()))
    }

    /// Upserts one row: when the table already holds a row under the key's
    /// id, that row is replaced in place, keeping its position in scan
    /// order; otherwise the pair is appended at the back.  Keys come from
    /// `generate_id`, so the key's id never exceeds the counter.
    pub fn insert_data(self, key: &DataKey, row: Row) -> (r: MutResult<Self, ()>)
        requires
            self.inv(),
            key@.id <= self@.id,
            self@.schemas.contains_key(key@.table_name) ==> row@.len()
                == self@.schemas[key@.table_name].column_defs.len(),
        ensures
            r is Ok,
            r matches Ok((s, v)) ==> {
                &&& s@.schemas == self@.schemas
                &&& s@.data == self@.data.insert(
                    key@.table_name,
                    upsert_rows(rows_of(self@.data, key@.table_name), key@.id, row@),
                )
                &&& s@.id == self@.id
                &&& s.inv()
            },
    {
        let ghost pre = self@;
        let ghost t = key@.table_name;
        let ghost rowv = row@;
        let MemoryStorage { schema_map, data_map, id } = self;
        let (items, data_map) = match dm_extract(&data_map, key.table_name.as_str()) {
            Some(p) => p,
            None => (rv_new(), data_map),
        };
        let ghost rows0 = row_vec_view(items);
        proof {
            assert(rows0 == rows_of(pre.data, t));
            assert(unique_ids(rows0));
        }
        let n = rv_len(&items);
        let mut i: usize = 0;
        let mut found = false;
        while !found && i < n
            invariant
                n == rows0.len(),
                row_vec_view(items) == rows0,
                i <= n,
                forall|j: int| 0 <= j < i ==> rows0[j].0 != key@.id,
                found ==> i < n && rows0[i as int].0 == key@.id,
            decreases 2 * (n - i) + (if found {
                0int
            } else {
                1int
            }),
        {
            if rv_get(&items, i).0 == key.id {
                found = true;
            } else {
                i += 1;
            }
        }
        let items2 = if found {
            proof {
                lemma_find_row_at(rows0, key.id, i as int);
            }
            rv_update(&items, i, key.id, row)
        } else {
            proof {
                lemma_find_row_none(rows0, key.id);
            }
            let mut grown = items;
            rv_push(&mut grown, key.id, row);
            grown
        };
        let ghost rows1 = row_vec_view(items2);
        let data_map = dm_update(&data_map, key.table_name.clone(), items2);
        let storage = MemoryStorage { schema_map, data_map, id };
        proof {
            lemma_upsert_rows(rows0, key@.id, rowv);
            assert(rows1 == upsert_rows(rows0, key@.id, rowv));
            assert(storage@.data =~= pre.data.insert(t, rows1));
            assert(unique_ids(rows1));
            assert(ids_bounded(rows1, pre.id)) by {
                assert forall|k: int| 0 <= k < rows1.len() implies #[trigger] rows1[k].0
                    <= pre.id by {
                    match find_row(rows0, key@.id) {
                        Some(fi) => {
                            if k != fi {
                                assert(rows1[k] == rows0[k]);
                            }
                        },
                        None => {
                            if k < rows0.len() {
                                assert(rows1[k] == rows0[k]);
                            }
                        },
                    }
                }
            }
            assert forall|u: Seq<char>|
                storage@.schemas.contains_key(u) && #[trigger] storage@.data.contains_key(
                    u,
                ) implies rows_aligned(
                storage@.data[u],
                storage@.schemas[u].column_defs.len() as int,
            ) by {
                if u == t {
                    if pre.schemas.contains_key(t) {
                        let ncols = pre.schemas[t].column_defs.len() as int;
                        assert forall|k: int| 0 <= k < rows1.len() implies #[trigger] rows1[k].1
                            .len() == ncols by {
                            if pre.data.contains_key(t) {
                                assert(rows_aligned(pre.data[t], ncols));
                            }
                            match find_row(rows0, key@.id) {
                                Some(fi) => {
                                    if k != fi {
                                        assert(rows1[k] == rows0[k]);
                                    }
                                },
                                None => {
                                    if k < rows0.len() {
                                        assert(rows1[k] == rows0[k]);
                                    }
                                },
                            }
                        }
                    }
                } else {
                    assert(pre.data.contains_key(u));
                }
            }
            assert(storage.inv());
        }
        Ok((storage, ()))
    }

    /// Removes the row stored under the key's id, if any; an absent table or
    /// id is not an error, and every other row keeps its position.
    pub fn delete_data(self, key: &DataKey) -> (r: MutResult<Self, ()>)
        requires
            self.inv(),
        ensures
            r is Ok,
            r matches Ok((s, v)) ==> {
                &&& s@.schemas == self@.schemas
                &&& s@.data == self@.data.insert(
                    key@.table_name,
                    remove_row(rows_of(self@.data, key@.table_name), key@.id),
                )
                &&& s@.id == self@.id
                &&& s.inv()
            },
    {
        let ghost pre = self@;
        let ghost t = key@.table_name;
        let MemoryStorage { schema_map, data_map, id } = self;
        let (mut items, data_map) = match dm_extract(&data_map, key.table_name.as_str()) {
            Some(p) => p,
            None => (rv_new(), data_map),
        };
        let ghost rows0 = row_vec_view(items);
        proof {
            assert(rows0 == rows_of(pre.data, t));
            assert(unique_ids(rows0));
        }
        let n = rv_len(&items);
        let mut i: usize = 0;
        let mut found = false;
        while !found && i < n
            invariant
                n == rows0.len(),
                row_vec_view(items) == rows0,
                i <= n,
                forall|j: int| 0 <= j < i ==> rows0[j].0 != key@.id,
                found ==> i < n && rows0[i as int].0 == key@.id,
            decreases 2 * (n - i) + (if found {
                0int
            } else {
                1int
            }),
        {
            if rv_get(&items, i).0 == key.id {
                found = true;
            } else {
                i += 1;
            }
        }
        if found {
            proof {
                lemma_find_row_at(rows0, key.id, i as int);
            }
            rv_remove(&mut items, i);
        } else {
            proof {
                lemma_find_row_none(rows0, key.id);
            }
        }
        let ghost rows1 = row_vec_view(items);
        let data_map = dm_update(&data_map, key.table_name.clone(), items);
        let storage = MemoryStorage { schema_map, data_map, id };
        proof {
            lemma_remove_row(rows0, key@.id);
            assert(rows1 == remove_row(rows0, key@.id));
            assert(storage@.data =~= pre.data.insert(t, rows1));
            assert(ids_bounded(rows1, pre.id)) by {
                assert forall|k: int| 0 <= k < rows1.len() implies #[trigger] rows1[k].0
                    <= pre.id by {
                    match find_row(rows0, key@.id) {
                        Some(fi) => {
                            if k < fi {
                                assert(rows1[k] == rows0[k]);
                            } else {
                                assert(rows1[k] == rows0[k + 1]);
                            }
                        },
                        None => {
                            assert(rows1[k] == rows0[k]);
                        },
                    }
                }
            }
            assert forall|u: Seq<char>|
                storage@.schemas.contains_key(u) && #[trigger] storage@.data.contains_key(
                    u,
                ) implies rows_aligned(
                storage@.data[u],
                storage@.schemas[u].column_defs.len() as int,
            ) by {
                if u == t {
                    if pre.schemas.contains_key(t) {
                        let ncols = pre.schemas[t].column_defs.len() as int;
                        assert forall|k: int| 0 <= k < rows1.len() implies #[trigger] rows1[k].1
                            .len() == ncols by {
                            if pre.data.contains_key(t) {
                                assert(rows_aligned(pre.data[t], ncols));
                            }
                            match find_row(rows0, key@.id) {
                                Some(fi) => {
                                    if k < fi {
                                        assert(rows1[k] == rows0[k]);
                                    } else {
                                        assert(rows1[k] == rows0[k + 1]);
                                    }
                                },
                                None => {
                                    assert(rows1[k] == rows0[k]);
                                },
                            }
                        }
                    }
                } else {
                    assert(pre.data.contains_key(u));
                }
            }
            assert(storage.inv());
        }
        Ok((storage, ()))
    }

    /// Returns every (key, row) pair a table holds, in storage order: an
    /// empty sequence, not an error, for a table with no rows.
    pub fn scan_data(&self, table_name: &str) -> (r: Vec<(DataKey, Row)>)
        ensures
            r@.len() == rows_of(self@.data, table_name@).len(),
            forall|i: int|
                0 <= i < r@.len() ==> (#[trigger] r@[i]).0@ == (KeyV {
                    table_name: table_name@,
                    id: rows_of(self@.data, table_name@)[i].0,
                }) && r@[i].1@ == rows_of(self@.data, table_name@)[i].1,
    {
        let mut out: Vec<(DataKey, Row)> = Vec::new();
        let items = match dm_get(&self.data_map, table_name) {
            Some(v) => v,
            None => {
                return out;
            },
        };
        let ghost rowsv = row_vec_view(*items);
        let n = rv_len(items);
        let mut i: usize = 0;
        while i < n
            invariant
                n == rowsv.len(),
                row_vec_view(*items) == rowsv,
                self@.data.contains_key(table_name@),
                rowsv == self@.data[table_name@],
                i <= n,
                out@.len() == i,
                forall|j: int|
                    0 <= j < i ==> (#[trigger] out@[j]).0@ == (KeyV {
                        table_name: table_name@,
                        id: rowsv[j].0,
                    }) && out@[j].1@ == rowsv[j].1,
            decreases n - i,
        {
            let item = rv_get(items, i);
            let entry_key = DataKey { table_name: table_name.to_owned(), id: item.0 };
            let entry_row = item.1.clone();
            out.push((entry_key, entry_row));
            i += 1;
        }
        out
    }

    /// Relocates a table's schema and rows under a new name, removing the
    /// old slots.  Fails with `TableNotFound` when the table has no schema,
    /// returning the original instance unchanged.
    pub fn rename_schema(self, table_name: &str, new_table_name: &str) -> (r: MutResult<Self, ()>)
        requires
            self.inv(),
        ensures
            r is Ok <==> self@.schemas.contains_key(table_name@),
            r matches Err((s, e)) ==> s@ == self@ && s.inv() && e@ == ErrorV::TableNotFound(
                table_name@,
            ),
            r matches Ok((s, v)) ==> {
                &&& s@.schemas == self@.schemas.insert(
                    new_table_name@,
                    (SchemaV {
                        table_name: new_table_name@,
                        column_defs: self@.schemas[table_name@].column_defs,
                    }),
                ).remove(table_name@)
                &&& s@.data == self@.data.remove(table_name@).insert(
                    new_table_name@,
                    rows_of(self@.data, table_name@),
                )
                &&& s@.id == self@.id
                &&& s.inv()
            },
    {
        let ghost pre = self@;
        let ghost t = table_name@;
        let ghost nt = new_table_name@;
        let mut schema = match sm_get(&self.schema_map, table_name) {
            Some(s) => s.clone(),
            None => {
                return Err((self, StorageError::TableNotFound(table_name.to_owned())));
            },
        };
        schema.table_name = new_table_name.to_owned();
        let MemoryStorage { schema_map, data_map, id } = self;
        let mut schema_map = sm_update(&schema_map, new_table_name.to_owned(), schema);
        sm_remove(&mut schema_map, table_name);
        let (items, data_map) = match dm_extract(&data_map, table_name) {
            Some(p) => p,
            None => (rv_new(), data_map),
        };
        let ghost moved = row_vec_view(items);
        let data_map = dm_update(&data_map, new_table_name.to_owned(), items);
        let storage = MemoryStorage { schema_map, data_map, id };
        proof {
            assert(moved == rows_of(pre.data, t));
            assert(storage@.data =~= pre.data.remove(t).insert(nt, moved));
            assert forall|u: Seq<char>| #[trigger] storage@.data.contains_key(u) implies unique_ids(
                storage@.data[u],
            ) && ids_bounded(storage@.data[u], storage@.id) by {
                if u == nt {
                    if pre.data.contains_key(t) {
                        assert(storage@.data[u] == pre.data[t]);
                    }
                } else {
                    assert(pre.data.contains_key(u));
                }
            }
            assert forall|u: Seq<char>|
                storage@.schemas.contains_key(u) && #[trigger] storage@.data.contains_key(
                    u,
                ) implies rows_aligned(
                storage@.data[u],
                storage@.schemas[u].column_defs.len() as int,
            ) by {
                if u == nt {
                    assert(u != t);
                    assert(storage@.schemas[u].column_defs == pre.schemas[t].column_defs);
                    if pre.data.contains_key(t) {
                        assert(storage@.data[u] == pre.data[t]);
                        assert(pre.schemas.contains_key(t));
                        assert(rows_aligned(pre.data[t], pre.schemas[t].column_defs.len() as int));
                    }
                } else {
                    assert(pre.data.contains_key(u));
                    assert(pre.schemas.contains_key(u));
                    assert(storage@.schemas[u] == pre.schemas[u]);
                }
            }
            assert(storage.inv());
        }
        Ok((storage, ()))
    }

    /// Renames one column of a table's schema; rows are untouched, since
    /// column identity is positional.  Fails with `TableNotFound` when the
    /// table has no schema and with `RenamingColumnNotFound` when no column
    /// carries the old name, returning the original instance unchanged.
    pub fn rename_column(
        self,
        table_name: &str,
        old_column_name: &str,
        new_column_name: &str,
    ) -> (r: MutResult<Self, ()>)
        requires
            self.inv(),
        ensures
            !self@.schemas.contains_key(table_name@) ==> (r matches Err((s, e)) && s@ == self@
                && s.inv() && e@ == ErrorV::TableNotFound(table_name@)),
            self@.schemas.contains_key(table_name@) && find_col(
                self@.schemas[table_name@].column_defs,
                old_column_name@,
            ) is None ==> (r matches Err((s, e)) && s@ == self@ && s.inv() && e@
                == ErrorV::RenamingColumnNotFound),
            self@.schemas.contains_key(table_name@) && find_col(
                self@.schemas[table_name@].column_defs,
                old_column_name@,
            ) is Some ==> (r matches Ok((s, v)) && {
                &&& s@.schemas == self@.schemas.insert(
                    table_name@,
                    (SchemaV {
                        table_name: self@.schemas[table_name@].table_name,
                        column_defs: rename_col_defs(
                            self@.schemas[table_name@].column_defs,
                            find_col(self@.schemas[table_name@].column_defs, old_column_name@)
                                ->Some_0,
                            new_column_name@,
                        ),
                    }),
                )
                &&& s@.data == self@.data
                &&& s@.id == self@.id
                &&& s.inv()
            }),
    {
        let ghost pre = self@;
        let ghost t = table_name@;
        let mut schema = match sm_get(&self.schema_map, table_name) {
            Some(s) => s.clone(),
            None => {
                return Err((self, StorageError::TableNotFound(table_name.to_owned())));
            },
        };
        let ghost colsv = schema@.column_defs;
        let i = match find_col_exec(&schema.column_defs, old_column_name) {
            Some(i) => i,
            None => {
                return Err((self, StorageError::RenamingColumnNotFound));
            },
        };
        proof {
            crate::alter::lemma_find_col(colsv, old_column_name@);
        }
        let ghost defs0 = schema.column_defs@;
        let renamed = schema.column_defs.remove(i);
        let ghost renamedv = renamed@;
        schema.column_defs.insert(
            i,
            ColumnDef {
                name: new_column_name.to_owned(),
                data_type: renamed.data_type,
                options: renamed.options,
            },
        );
        proof {
            let defs2 = schema.column_defs@;
            let target = rename_col_defs(colsv, i as int, new_column_name@);
            assert(defs2 == defs0.remove(i as int).insert(i as int, schema.column_defs@[i as int]));
            assert(renamedv == colsv[i as int]);
            assert forall|j: int|
                0 <= j < defs2.len() implies #[trigger] defs2[j]@ == target[j] by {
                if j < i as int {
                    assert(defs2[j] == defs0[j]);
                } else if j > i as int {
                    assert(defs0.remove(i as int)[j - 1] == defs0[j]);
                    assert(defs2[j] == defs0[j]);
                } else {
                    assert(defs2[j]@.name == new_column_name@);
                    assert(defs2[j]@.data_type == renamedv.data_type);
                    assert(defs2[j]@.options == renamedv.options);
                }
            }
            assert(schema@.column_defs =~= target);
        }
        let MemoryStorage { schema_map, data_map, id } = self;
        let schema_map = sm_update(&schema_map, table_name.to_owned(), schema);
        let storage = MemoryStorage { schema_map, data_map, id };
        proof {
            assert forall|u: Seq<char>| #[trigger] storage@.data.contains_key(u) implies unique_ids(
                storage@.data[u],
            ) && ids_bounded(storage@.data[u], storage@.id) by {
                assert(pre.data.contains_key(u));
                assert(storage@.data[u] == pre.data[u]);
            }
            assert forall|u: Seq<char>|
                storage@.schemas.contains_key(u) && #[trigger] storage@.data.contains_key(
                    u,
                ) implies rows_aligned(
                storage@.data[u],
                storage@.schemas[u].column_defs.len() as int,
            ) by {
                if u == t {
                    assert(pre.data.contains_key(t));
                    assert(pre.schemas.contains_key(t));
                    assert(rows_aligned(pre.data[t], pre.schemas[t].column_defs.len() as int));
                    assert(storage@.data[u] == pre.data[t]);
                    assert(storage@.schemas[u].column_defs =~= rename_col_defs(
                        colsv,
                        i as int,
                        new_column_name@,
                    ));
                    assert(storage@.schemas[u].column_defs.len() == pre.schemas[t].column_defs.len());
                } else {
                    assert(pre.data.contains_key(u));
                    assert(pre.schemas.contains_key(u));
                    assert(rows_aligned(pre.data[u], pre.schemas[u].column_defs.len() as int));
                    assert(storage@.data[u] == pre.data[u]);
                    assert(storage@.schemas[u] == pre.schemas[u]);
                }
            }
            assert(storage.inv());
        }
        Ok((storage, ()))
    }

    /// Appends a column to a table's schema and backfills its fill value
    /// into every existing row.  Fails with `TableNotFound` when the table
    /// has no schema, with `AddingColumnAlreadyExists` when a column of the
    /// same name is present, and with `DefaultValueRequired` when the column
    /// is not nullable and carries no default; every failure returns the
    /// original instance unchanged.
    pub fn add_column(self, table_name: &str, column_def: &ColumnDef) -> (r: MutResult<Self, ()>)
        requires
            self.inv(),
        ensures
            !self@.schemas.contains_key(table_name@) ==> (r matches Err((s, e)) && s@ == self@
                && s.inv() && e@ == ErrorV::TableNotFound(table_name@)),
            self@.schemas.contains_key(table_name@) && find_col(
                self@.schemas[table_name@].column_defs,
                column_def@.name,
            ) is Some ==> (r matches Err((s, e)) && s@ == self@ && s.inv() && e@
                == ErrorV::AddingColumnAlreadyExists(column_def@.name)),
            self@.schemas.contains_key(table_name@) && find_col(
                self@.schemas[table_name@].column_defs,
                column_def@.name,
            ) is None && fill_value_of(column_def@) is None ==> (r matches Err((s, e)) && s@ == self@
                && s.inv() && e@ == ErrorV::DefaultValueRequired(column_def@.name)),
            self@.schemas.contains_key(table_name@) && find_col(
                self@.schemas[table_name@].column_defs,
                column_def@.name,
            ) is None && fill_value_of(column_def@) is Some ==> (r matches Ok((s, v)) && {
                &&& s@.schemas == self@.schemas.insert(
                    table_name@,
                    (SchemaV {
                        table_name: self@.schemas[table_name@].table_name,
                        column_defs: self@.schemas[table_name@].column_defs.push(column_def@),
                    }),
                )
                &&& s@.data == self@.data.insert(
                    table_name@,
                    add_col_rows(
                        rows_of(self@.data, table_name@),
                        fill_value_of(column_def@)->Some_0,
                    ),
                )
                &&& s@.id == self@.id
                &&& s.inv()
            }),
    {
        let ghost pre = self@;
        let ghost t = table_name@;
        let mut schema = match sm_get(&self.schema_map, table_name) {
            Some(s) => s.clone(),
            None => {
                return Err((self, StorageError::TableNotFound(table_name.to_owned())));
            },
        };
        if find_col_exec(&schema.column_defs, column_def.name.as_str()).is_some() {
            return Err((self, StorageError::AddingColumnAlreadyExists(column_def.name.clone())));
        }
        let fill = match column_fill_value(column_def) {
            Some(v) => v,
            None => {
                return Err((self, StorageError::DefaultValueRequired(column_def.name.clone())));
            },
        };
        let ghost fillv = fill@;
        schema.column_defs.push(column_def.clone());
        proof {
            assert(schema@.column_defs =~= pre.schemas[t].column_defs.push(column_def@));
        }
        let MemoryStorage { schema_map, data_map, id } = self;
        let (items, data_map) = match dm_extract(&data_map, table_name) {
            Some(p) => p,
            None => (rv_new(), data_map),
        };
        let ghost rows0 = row_vec_view(items);
        let n = rv_len(&items);
        let mut grown = rv_new();
        let mut i: usize = 0;
        while i < n
            invariant
                n == rows0.len(),
                row_vec_view(items) == rows0,
                fill@ == fillv,
                i <= n,
                row_vec_view(grown).len() == i,
                forall|j: int|
                    0 <= j < i ==> #[trigger] row_vec_view(grown)[j] == (
                    rows0[j].0,
                    rows0[j].1.push(fillv),
                ),
            decreases n - i,
        {
            let item = rv_get(&items, i);
            let mut new_row = item.1.clone();
            new_row.0.push(fill.clone());
            proof {
                assert(new_row@ =~= rows0[i as int].1.push(fillv));
            }
            rv_push(&mut grown, item.0, new_row);
            i += 1;
        }
        proof {
            assert(row_vec_view(grown) =~= add_col_rows(rows0, fillv));
        }
        let data_map = dm_update(&data_map, table_name.to_owned(), grown);
        let schema_map = sm_update(&schema_map, table_name.to_owned(), schema);
        let storage = MemoryStorage { schema_map, data_map, id };
        proof {
            let rows1 = add_col_rows(rows0, fillv);
            assert(rows0 == rows_of(pre.data, t));
            assert(storage@.data =~= pre.data.insert(t, rows1));
            assert forall|u: Seq<char>| #[trigger] storage@.data.contains_key(u) implies unique_ids(
                storage@.data[u],
            ) && ids_bounded(storage@.data[u], storage@.id) by {
                if u == t {
                    assert(forall|k: int|
                        0 <= k < rows1.len() ==> #[trigger] rows1[k].0 == rows0[k].0);
                } else {
                    assert(pre.data.contains_key(u));
                }
            }
            assert forall|u: Seq<char>|
                storage@.schemas.contains_key(u) && #[trigger] storage@.data.contains_key(
                    u,
                ) implies rows_aligned(
                storage@.data[u],
                storage@.schemas[u].column_defs.len() as int,
            ) by {
                if u == t {
                    let ncols = pre.schemas[t].column_defs.len() as int;
                    assert forall|k: int| 0 <= k < rows1.len() implies #[trigger] rows1[k].1.len()
                        == ncols + 1 by {
                        if pre.data.contains_key(t) {
                            assert(rows_aligned(pre.data[t], ncols));
                            assert(rows0[k].1.len() == ncols);
                        }
                        assert(rows1[k].1 == rows0[k].1.push(fillv));
                    }
                } else {
                    assert(pre.data.contains_key(u));
                    assert(storage@.schemas[u] == pre.schemas[u]);
                }
            }
            assert(storage.inv());
        }
        Ok((storage, ()))
    }

    /// Removes a column from a table's schema and the value at the same
    /// position from every row.  Fails with `TableNotFound` when the table
    /// has no schema; when no column carries the name the operation is a
    /// no-op if `if_exists` is set and fails with `DroppingColumnNotFound`
    /// otherwise; every failure returns the original instance unchanged.
    pub fn drop_column(self, table_name: &str, column_name: &str, if_exists: bool) -> (r:
        MutResult<Self, ()>)
        requires
            self.inv(),
        ensures
            !self@.schemas.contains_key(table_name@) ==> (r matches Err((s, e)) && s@ == self@
                && s.inv() && e@ == ErrorV::TableNotFound(table_name@)),
            self@.schemas.contains_key(table_name@) && find_col(
                self@.schemas[table_name@].column_defs,
                column_name@,
            ) is None && if_exists ==> (r matches Ok((s, v)) && s@ == self@ && s.inv()),
            self@.schemas.contains_key(table_name@) && find_col(
                self@.schemas[table_name@].column_defs,
                column_name@,
            ) is None && !if_exists ==> (r matches Err((s, e)) && s@ == self@ && s.inv() && e@
                == ErrorV::DroppingColumnNotFound(column_name@)),
            self@.schemas.contains_key(table_name@) && find_col(
                self@.schemas[table_name@].column_defs,
                column_name@,
            ) is Some ==> (r matches Ok((s, v)) && {
                &&& s@.schemas == self@.schemas.insert(
                    table_name@,
                    (SchemaV {
                        table_name: table_name@,
                        column_defs: self@.schemas[table_name@].column_defs.remove(
                            find_col(self@.schemas[table_name@].column_defs, column_name@)->Some_0,
                        ),
                    }),
                )
                &&& s@.data == self@.data.insert(
                    table_name@,
                    drop_col_rows(
                        rows_of(self@.data, table_name@),
                        find_col(self@.schemas[table_name@].column_defs, column_name@)->Some_0,
                    ),
                )
                &&& s@.id == self@.id
                &&& s.inv()
            }),
    {
        let ghost pre = self@;
        let ghost t = table_name@;
        let schema = match sm_get(&self.schema_map, table_name) {
            Some(s) => s.clone(),
            None => {
                return Err((self, StorageError::TableNotFound(table_name.to_owned())));
            },
        };
        let ghost colsv = schema@.column_defs;
        let index = match (find_col_exec(&schema.column_defs, column_name), if_exists) {
            (Some(index), _) => index,
            (None, true) => {
                return Ok((self, ()));
            },
            (None, false) => {
                return Err((self, StorageError::DroppingColumnNotFound(column_name.to_owned())));
            },
        };
        proof {
            crate::alter::lemma_find_col(colsv, column_name@);
        }
        let mut column_defs = schema.column_defs;
        column_defs.remove(index);
        let new_schema = Schema { table_name: table_name.to_owned(), column_defs };
        proof {
            assert(new_schema@.column_defs =~= colsv.remove(index as int));
        }
        let MemoryStorage { schema_map, data_map, id } = self;
        let (items, data_map) = match dm_extract(&data_map, table_name) {
            Some(p) => p,
            None => (rv_new(), data_map),
        };
        let ghost rows0 = row_vec_view(items);
        proof {
            assert(rows0 == rows_of(pre.data, t));
            if pre.data.contains_key(t) {
                assert(rows_aligned(pre.data[t], colsv.len() as int));
            }
        }
        let n = rv_len(&items);
        let mut shrunk = rv_new();
        let mut i: usize = 0;
        while i < n
            invariant
                n == rows0.len(),
                row_vec_view(items) == rows0,
                rows_aligned(rows0, colsv.len() as int),
                (index as int) < colsv.len(),
                i <= n,
                row_vec_view(shrunk).len() == i,
                forall|j: int|
                    0 <= j < i ==> #[trigger] row_vec_view(shrunk)[j] == (
                    rows0[j].0,
                    rows0[j].1.remove(index as int),
                ),
            decreases n - i,
        {
            let item = rv_get(&items, i);
            let mut new_row = item.1.clone();
            proof {
                assert(rows0[i as int].1.len() == colsv.len());
            }
            new_row.0.remove(index);
            proof {
                assert(new_row@ =~= rows0[i as int].1.remove(index as int));
            }
            rv_push(&mut shrunk, item.0, new_row);
            i += 1;
        }
        proof {
            assert(row_vec_view(shrunk) =~= drop_col_rows(rows0, index as int));
        }
        let data_map = dm_update(&data_map, table_name.to_owned(), shrunk);
        let schema_map = sm_update(&schema_map, table_name.to_owned(), new_schema);
        let storage = MemoryStorage { schema_map, data_map, id };
        proof {
            let rows1 = drop_col_rows(rows0, index as int);
            assert(storage@.data =~= pre.data.insert(t, rows1));
            assert forall|u: Seq<char>| #[trigger] storage@.data.contains_key(u) implies unique_ids(
                storage@.data[u],
            ) && ids_bounded(storage@.data[u], storage@.id) by {
                if u == t {
                    assert(forall|k: int|
                        0 <= k < rows1.len() ==> #[trigger] rows1[k].0 == rows0[k].0);
                } else {
                    assert(pre.data.contains_key(u));
                }
            }
            assert forall|u: Seq<char>|
                storage@.schemas.contains_key(u) && #[trigger] storage@.data.contains_key(
                    u,
                ) implies rows_aligned(
                storage@.data[u],
                storage@.schemas[u].column_defs.len() as int,
            ) by {
                if u == t {
                    assert forall|k: int| 0 <= k < rows1.len() implies #[trigger] rows1[k].1.len()
                        == colsv.len() - 1 by {
                        assert(rows0[k].1.len() == colsv.len());
                        assert(rows1[k].1 == rows0[k].1.remove(index as int));
                    }
                } else {
                    assert(pre.data.contains_key(u));
                    assert(storage@.schemas[u] == pre.schemas[u]);
                }
            }
            assert(storage.inv());
        }
        Ok((storage, ()))
    }

    /// Returns the schema stored for a table, or nothing when the table does
    /// not exist; absence is never an error.
    pub fn fetch_schema(&self, table_name: &str) -> (r: Option<Schema>)
        ensures
            match r {
                Some(s) => self@.schemas.contains_key(table_name@) && s@
                    == self@.schemas[table_name@],
                None => !self@.schemas.contains_key(table_name@),
            },
    {
        match sm_get(&self.schema_map, table_name) {
            Some(s) => Some(s.clone()),
            None => None,
        }
    }
}

} // verus!
