//! The keyed backend: a storage backend over an external get/set/remove-by-
//! key primitive.  The instance owns only a namespace string; the primitive
//! is the system of record.
//!
//! Every operation is a step function: it receives the blobs the caller
//! fetched from the primitive and returns the blobs to write back, so the
//! whole decision — decoding, the rewrite, encoding — is verified here,
//! while the unverified driver only moves strings in and out of the
//! primitive.  Each mutating step keeps the ownership-return shape: on
//! failure the caller gets the original instance back and writes nothing.
use vstd::prelude::*;
use vstd::string::*;

use crate::alter::add_col_rows;
use crate::alter::column_fill_value;
use crate::alter::drop_col_rows;
use crate::alter::fill_value_of;
use crate::alter::find_col;
use crate::alter::find_col_exec;
use crate::alter::lemma_find_col;
use crate::alter::rename_col_defs;
use crate::codec::chars_of_str;
use crate::codec::dec_num_blob;
use crate::codec::dec_schema_blob;
use crate::codec::dec_table_blob;
use crate::codec::enc_num;
use crate::codec::enc_schema;
use crate::codec::enc_table;
use crate::codec::lemma_dec_enc_num_blob;
use crate::codec::lemma_dec_enc_schema;
use crate::codec::lemma_dec_enc_table;
use crate::codec::read_num_blob;
use crate::codec::read_schema_blob;
use crate::codec::read_table_blob;
use crate::codec::string_of_chars;
use crate::codec::write_num;
use crate::codec::write_schema_blob;
use crate::codec::write_table_blob;
use crate::entity::ColumnDef;
use crate::entity::DataKey;
use crate::entity::KeyV;
use crate::entity::Row;
use crate::entity::Schema;
use crate::entity::SchemaV;
use crate::entity::ValueV;
use crate::error::ErrorV;
use crate::error::MutResult;
use crate::error::StorageError;
use crate::rows::lemma_find_row_at;
use crate::rows::lemma_find_row_none;
use crate::rows::remove_row;
use crate::rows::upsert_rows;

verus! {

/// The ordered (id, row) contents of a decoded table.
pub open spec fn entries_view(rows: Seq<(u64, Row)>) -> Seq<(u64, Seq<ValueV>)> {
    rows.map_values(|e: (u64, Row)| (e.0, e.1@))
}

/// The versioned prefix of every key this backend writes; it changes across
/// incompatible revisions of the wire format, so different revisions never
/// misread each other's blobs.
pub open spec fn key_prefix() -> Seq<char> {
    "__table-storage-v1__/"@
}

/// The key holding a table's id counter.
pub open spec fn id_key_of(ns: Seq<char>, t: Seq<char>) -> Seq<char> {
    key_prefix() + ns + "/id/"@ + t
}

/// The key holding a table's schema blob.
pub open spec fn schema_key_of(ns: Seq<char>, t: Seq<char>) -> Seq<char> {
    key_prefix() + ns + "/schema/"@ + t
}

/// The key holding a table's whole-table row blob.
pub open spec fn data_key_of(ns: Seq<char>, t: Seq<char>) -> Seq<char> {
    key_prefix() + ns + "/data/"@ + t
}

/// Whether every row of a decoded table has more than `i` values, so the
/// value at position `i` can be removed from each.
pub open spec fn rows_droppable(es: Seq<(u64, Seq<ValueV>)>, i: int) -> bool {
    forall|k: int| 0 <= k < es.len() ==> i < #[trigger] es[k].1.len()
}

/// The keyed backend: it owns only its namespace.
#[derive(Debug)]
pub struct KeyedStorage {
    namespace: String,
}

impl View for KeyedStorage {
    type V = Seq<char>;

    closed spec fn view(&self) -> Seq<char> {
        self.namespace@
    }
}

/// Replaces the first row holding `id`, or appends the pair at the back.
fn upsert_vec(rows: &mut Vec<(u64, Row)>, id: u64, row: Row)
    ensures
        entries_view(final(rows)@) == upsert_rows(entries_view(old(rows)@), id, row@),
{
    let ghost esv = entries_view(rows@);
    let ghost rowv = row@;
    let n = rows.len();
    let mut i: usize = 0;
    let mut found = false;
    while !found && i < n
        invariant
            n == rows@.len(),
            esv == entries_view(rows@),
            i <= n,
            forall|j: int| 0 <= j < i ==> esv[j].0 != id,
            found ==> i < n && esv[i as int].0 == id,
        decreases 2 * (n - i) + (if found {
            0int
        } else {
            1int
        }),
    {
        if rows[i].0 == id {
            found = true;
        } else {
            i += 1;
        }
    }
    if found {
        proof {
            lemma_find_row_at(esv, id, i as int);
        }
        rows.remove(i);
        rows.insert(i, (id, row));
        proof {
            assert(entries_view(rows@) =~= esv.update(i as int, (id, rowv)));
        }
    } else {
        proof {
            lemma_find_row_none(esv, id);
        }
        rows.push((id, row));
        proof {
            assert(entries_view(rows@) =~= esv.push((id, rowv)));
        }
    }
}

/// Removes the first row holding `id`, if any.
fn remove_vec(rows: &mut Vec<(u64, Row)>, id: u64)
    ensures
        entries_view(final(rows)@) == remove_row(entries_view(old(rows)@), id),
{
    let ghost esv = entries_view(rows@);
    let n = rows.len();
    let mut i: usize = 0;
    let mut found = false;
    while !found && i < n
        invariant
            n == rows@.len(),
            esv == entries_view(rows@),
            i <= n,
            forall|j: int| 0 <= j < i ==> esv[j].0 != id,
            found ==> i < n && esv[i as int].0 == id,
        decreases 2 * (n - i) + (if found {
            0int
        } else {
            1int
        }),
    {
        if rows[i].0 == id {
            found = true;
        } else {
            i += 1;
        }
    }
    if found {
        proof {
            lemma_find_row_at(esv, id, i as int);
        }
        rows.remove(i);
        proof {
            assert(entries_view(rows@) =~= esv.remove(i as int));
        }
    } else {
        proof {
            lemma_find_row_none(esv, id);
        }
    }
}

/// Decodes a stored whole-table blob; a missing blob is an empty table.
fn decode_table(stored: &Option<String>) -> (r: Option<Vec<(u64, Row)>>)
    ensures
        match stored {
            None => r matches Some(rows) && rows@.len() == 0,
            Some(b) => match dec_table_blob(b@) {
                Some(es) => r matches Some(rows) && entries_view(rows@) == es,
                None => r is None,
            },
        },
{
    match stored {
        None => {
            let rows: Vec<(u64, Row)> = Vec::new();
            Some(rows)
        },
        Some(b) => {
            let chars = chars_of_str(b.as_str());
            read_table_blob(&chars)
        },
    }
}

impl KeyedStorage {
    /// Creates a backend bound to a namespace; entries already stored under
    /// that namespace are simply found again.
    pub fn new(namespace: String) -> (r: Result<Self, StorageError>)
        ensures
            r matches Ok(s) && s@ == namespace@,
    {
        Ok(KeyedStorage { namespace })
    }

    /// The primitive key holding a table's id counter.
    pub fn id_key(&self, table_name: &str) -> (r: String)
        ensures
            r@ == id_key_of(self@, table_name@),
    {
        let mut s = String::from_str("__table-storage-v1__/");
        s.append(self.namespace.as_str());
        s.append("/id/");
        s.append(table_name);
        s
    }

    /// The primitive key holding a table's schema blob.
    pub fn schema_key(&self, table_name: &str) -> (r: String)
        ensures
            r@ == schema_key_of(self@, table_name@),
    {
        let mut s = String::from_str("__table-storage-v1__/");
        s.append(self.namespace.as_str());
        s.append("/schema/");
        s.append(table_name);
        s
    }

    /// The primitive key holding a table's whole-table row blob.
    pub fn data_key(&self, table_name: &str) -> (r: String)
        ensures
            r@ == data_key_of(self@, table_name@),
    {
        let mut s = String::from_str("__table-storage-v1__/");
        s.append(self.namespace.as_str());
        s.append("/data/");
        s.append(table_name);
        s
    }

    /// Issues the next id for a table from the stored counter blob: a
    /// missing blob counts as zero.  Returns the key and the counter blob to
    /// write back.  A blob that does not decode, or a counter at the
    /// maximum, is a `StorageFailure`, and nothing is to be written.
    pub fn generate_id(self, table_name: &str, stored: Option<String>) -> (r: MutResult<
        Self,
        (DataKey, String),
    >)
        ensures
            match stored {
                None => (r matches Ok(p) && p.0@ == self@ && p.1.0@ == (KeyV {
                    table_name: table_name@,
                    id: 1u64,
                }) && p.1.1@ == enc_num(1u64) && dec_num_blob(p.1.1@) == Some(1u64)),
                Some(b) => match dec_num_blob(b@) {
                    Some(n) => if n < u64::MAX {
                        (r matches Ok(p) && p.0@ == self@ && p.1.0@ == (KeyV {
                            table_name: table_name@,
                            id: (n + 1) as u64,
                        }) && p.1.1@ == enc_num((n + 1) as u64) && dec_num_blob(p.1.1@) == Some(
                            (n + 1) as u64,
                        ))
                    } else {
                        (r matches Err(q) && q.0@ == self@ && q.1@ == ErrorV::StorageFailure)
                    },
                    None => (r matches Err(q) && q.0@ == self@ && q.1@ == ErrorV::StorageFailure),
                },
            },
    {
        let id: u64 = match &stored {
            None => 1,
            Some(b) => {
                let chars = chars_of_str(b.as_str());
                match read_num_blob(&chars) {
                    Some(n) => {
                        if n < u64::MAX {
                            n + 1
                        } else {
                            return Err((self, StorageError::StorageFailure));
                        }
                    },
                    None => {
                        return Err((self, StorageError::StorageFailure));
                    },
                }
            },
        };
        let mut blob: Vec<char> = Vec::new();
        write_num(&mut blob, id);
        proof {
            assert(blob@ =~= enc_num(id));
            lemma_dec_enc_num_blob(id);
        }
        let key = DataKey { table_name: table_name.to_owned(), id };
        Ok((self, (key, string_of_chars(&blob))))
    }

    /// Serializes a schema; the caller stores the blob under the schema key
    /// of the schema's own table name.  Always succeeds.
    pub fn insert_schema(self, schema: &Schema) -> (r: MutResult<Self, String>)
        ensures
            r matches Ok(p) && p.0@ == self@ && p.1@ == enc_schema(schema@) && dec_schema_blob(
                p.1@,
            ) == Some(schema@),
    {
        let blob = write_schema_blob(schema);
        proof {
            lemma_dec_enc_schema(schema@);
        }
        Ok((self, string_of_chars(&blob)))
    }

    /// Decodes a stored schema blob; a missing blob means the table does not
    /// exist, which is not an error.
    pub fn fetch_schema(&self, stored: Option<String>) -> (r: Result<Option<Schema>, StorageError>)
        ensures
            match stored {
                None => r matches Ok(o) && o is None,
                Some(b) => match dec_schema_blob(b@) {
                    Some(sv) => r matches Ok(o) && o matches Some(schema) && schema@ == sv,
                    None => r matches Err(e) && e@ == ErrorV::StorageFailure,
                },
            },
    {
        match stored {
            None => Ok(None),
            Some(b) => {
                let chars = chars_of_str(b.as_str());
                match read_schema_blob(&chars) {
                    Some(schema) => Ok(Some(schema)),
                    None => Err(StorageError::StorageFailure),
                }
            },
        }
    }

    /// Decodes a stored whole-table blob into (key, row) pairs in storage
    /// order; a missing blob yields the empty sequence, not an error.
    pub fn scan_data(&self, table_name: &str, stored: Option<String>) -> (r: Result<
        Vec<(DataKey, Row)>,
        StorageError,
    >)
        ensures
            match stored {
                None => r matches Ok(v) && v@.len() == 0,
                Some(b) => match dec_table_blob(b@) {
                    Some(es) => r matches Ok(v) && v@.len() == es.len() && (forall|i: int|
                        0 <= i < es.len() ==> (#[trigger] v@[i]).0@ == (KeyV {
                            table_name: table_name@,
                            id: es[i].0,
                        }) && v@[i].1@ == es[i].1),
                    None => r matches Err(e) && e@ == ErrorV::StorageFailure,
                },
            },
    {
        let rows = match decode_table(&stored) {
            Some(rows) => rows,
            None => {
                return Err(StorageError::StorageFailure);
            },
        };
        let ghost esv = entries_view(rows@);
        let n = rows.len();
        let mut out: Vec<(DataKey, Row)> = Vec::new();
        let mut i: usize = 0;
        while i < n
            invariant
                n == rows@.len(),
                esv == entries_view(rows@),
                i <= n,
                out@.len() == i,
                forall|j: int|
                    0 <= j < i ==> (#[trigger] out@[j]).0@ == (KeyV {
                        table_name: table_name@,
                        id: esv[j].0,
                    }) && out@[j].1@ == esv[j].1,
            decreases n - i,
        {
            let entry_key = DataKey { table_name: table_name.to_owned(), id: rows[i].0 };
            let entry_row = rows[i].1.clone();
            out.push((entry_key, entry_row));
            i += 1;
        }
        Ok(out)
    }

    /// Upserts one row into the stored whole-table blob and returns the blob
    /// to write back: the whole collection is decoded, rewritten with the
    /// same positional semantics as the in-process backend, and re-encoded.
    /// A blob that does not decode is a `StorageFailure`, and nothing is to
    /// be written.
    pub fn insert_data(self, key: &DataKey, row: Row, stored: Option<String>) -> (r: MutResult<
        Self,
        String,
    >)
        ensures
            match stored {
                None => (r matches Ok(p) && p.0@ == self@ && p.1@ == enc_table(
                    upsert_rows(Seq::empty(), key@.id, row@),
                ) && dec_table_blob(p.1@) == Some(upsert_rows(Seq::empty(), key@.id, row@))),
                Some(b) => match dec_table_blob(b@) {
                    Some(es) => (r matches Ok(p) && p.0@ == self@ && p.1@ == enc_table(
                        upsert_rows(es, key@.id, row@),
                    ) && dec_table_blob(p.1@) == Some(upsert_rows(es, key@.id, row@))),
                    None => (r matches Err(q) && q.0@ == self@ && q.1@ == ErrorV::StorageFailure),
                },
            },
    {
        let mut rows = match decode_table(&stored) {
            Some(rows) => rows,
            None => {
                return Err((self, StorageError::StorageFailure));
            },
        };
        proof {
            if stored is None {
                assert(entries_view(rows@) =~= Seq::<(u64, Seq<ValueV>)>::empty());
            }
        }
        upsert_vec(&mut rows, key.id, row);
        let blob = write_table_blob(&rows);
        proof {
            assert(entries_view(rows@) == rows@.map_values(|e: (u64, Row)| (e.0, e.1@)));
            lemma_dec_enc_table(entries_view(rows@));
        }
        Ok((self, string_of_chars(&blob)))
    }

    /// Removes one row from the stored whole-table blob, if its id is
    /// present, and returns the blob to write back.  A blob that does not
    /// decode is a `StorageFailure`, and nothing is to be written.
    pub fn delete_data(self, key: &DataKey, stored: Option<String>) -> (r: MutResult<Self, String>)
        ensures
            match stored {
                None => (r matches Ok(p) && p.0@ == self@ && p.1@ == enc_table(
                    remove_row(Seq::empty(), key@.id),
                ) && dec_table_blob(p.1@) == Some(remove_row(Seq::empty(), key@.id))),
                Some(b) => match dec_table_blob(b@) {
                    Some(es) => (r matches Ok(p) && p.0@ == self@ && p.1@ == enc_table(
                        remove_row(es, key@.id),
                    ) && dec_table_blob(p.1@) == Some(remove_row(es, key@.id))),
                    None => (r matches Err(q) && q.0@ == self@ && q.1@ == ErrorV::StorageFailure),
                },
            },
    {
        let mut rows = match decode_table(&stored) {
            Some(rows) => rows,
            None => {
                return Err((self, StorageError::StorageFailure));
            },
        };
        proof {
            if stored is None {
                assert(entries_view(rows@) =~= Seq::<(u64, Seq<ValueV>)>::empty());
            }
        }
        remove_vec(&mut rows, key.id);
        let blob = write_table_blob(&rows);
        proof {
            lemma_dec_enc_table(entries_view(rows@));
            assert(entries_view(rows@) == rows@.map_values(|e: (u64, Row)| (e.0, e.1@)));
        }
        Ok((self, string_of_chars(&blob)))
    }

    /// Rewrites a stored schema blob under a new table name: returns the
    /// blob to store under the new name's schema key, and the data blob to
    /// copy under the new name's data key; the caller removes the old slots.
    /// A missing schema blob fails with `TableNotFound`, one that does not
    /// decode with `StorageFailure`; either way nothing is to be written.
    pub fn rename_schema(
        self,
        table_name: &str,
        new_table_name: &str,
        schema_blob: Option<String>,
        data_blob: Option<String>,
    ) -> (r: MutResult<Self, (String, Option<String>)>)
        ensures
            match schema_blob {
                None => (r matches Err(q) && q.0@ == self@ && q.1@ == ErrorV::TableNotFound(
                    table_name@,
                )),
                Some(b) => match dec_schema_blob(b@) {
                    None => (r matches Err(q) && q.0@ == self@ && q.1@ == ErrorV::StorageFailure),
                    Some(sv) => (r matches Ok(p) && p.0@ == self@ && p.1.0@ == enc_schema(
                        (SchemaV { table_name: new_table_name@, column_defs: sv.column_defs }),
                    ) && dec_schema_blob(p.1.0@) == Some(
                        (SchemaV { table_name: new_table_name@, column_defs: sv.column_defs }),
                    ) && (match data_blob {
                        Some(d) => p.1.1 matches Some(d2) && d2@ == d@,
                        None => p.1.1 is None,
                    })),
                },
            },
    {
        let b = match schema_blob {
            Some(b) => b,
            None => {
                return Err((self, StorageError::TableNotFound(table_name.to_owned())));
            },
        };
        let chars = chars_of_str(b.as_str());
        let mut schema = match read_schema_blob(&chars) {
            Some(schema) => schema,
            None => {
                return Err((self, StorageError::StorageFailure));
            },
        };
        schema.table_name = new_table_name.to_owned();
        let out = write_schema_blob(&schema);
        proof {
            lemma_dec_enc_schema(schema@);
        }
        let copied = match data_blob {
            Some(d) => Some(d),
            None => None,
        };
        Ok((self, (string_of_chars(&out), copied)))
    }

    /// Renames one column inside a stored schema blob and returns the blob
    /// to write back; rows are untouched, since column identity is
    /// positional.  A missing blob fails with `TableNotFound`, one that does
    /// not decode with `StorageFailure`, and an absent column with
    /// `RenamingColumnNotFound`; nothing is to be written on failure.
    pub fn rename_column(
        self,
        table_name: &str,
        old_column_name: &str,
        new_column_name: &str,
        schema_blob: Option<String>,
    ) -> (r: MutResult<Self, String>)
        ensures
            match schema_blob {
                None => (r matches Err(q) && q.0@ == self@ && q.1@ == ErrorV::TableNotFound(
                    table_name@,
                )),
                Some(b) => match dec_schema_blob(b@) {
                    None => (r matches Err(q) && q.0@ == self@ && q.1@ == ErrorV::StorageFailure),
                    Some(sv) => match find_col(sv.column_defs, old_column_name@) {
                        None => (r matches Err(q) && q.0@ == self@ && q.1@
                            == ErrorV::RenamingColumnNotFound),
                        Some(ci) => (r matches Ok(p) && p.0@ == self@ && p.1@ == enc_schema(
                            (SchemaV {
                                table_name: sv.table_name,
                                column_defs: rename_col_defs(
                                    sv.column_defs,
                                    ci,
                                    new_column_name@,
                                ),
                            }),
                        ) && dec_schema_blob(p.1@) == Some(
                            (SchemaV {
                                table_name: sv.table_name,
                                column_defs: rename_col_defs(
                                    sv.column_defs,
                                    ci,
                                    new_column_name@,
                                ),
                            }),
                        )),
                    },
                },
            },
    {
        let b = match schema_blob {
            Some(b) => b,
            None => {
                return Err((self, StorageError::TableNotFound(table_name.to_owned())));
            },
        };
        let chars = chars_of_str(b.as_str());
        let mut schema = match read_schema_blob(&chars) {
            Some(schema) => schema,
            None => {
                return Err((self, StorageError::StorageFailure));
            },
        };
        let ghost colsv = schema@.column_defs;
        let i = match find_col_exec(&schema.column_defs, old_column_name) {
            Some(i) => i,
            None => {
                return Err((self, StorageError::RenamingColumnNotFound));
            },
        };
        proof {
            lemma_find_col(colsv, old_column_name@);
        }
        let ghost defs0 = schema.column_defs@;
        let renamed = schema.column_defs.remove(i);
        let ghost renamedv = renamed@;
        schema.column_defs.insert(
            i,
            ColumnDef {
                name: new_column_name.to_owned(),
                data_type: renamed.data_type,
                options: renamed.options,
            },
        );
        proof {
            let defs2 = schema.column_defs@;
            let target = rename_col_defs(colsv, i as int, new_column_name@);
            assert(defs2 == defs0.remove(i as int).insert(i as int, schema.column_defs@[i as int]));
            assert(renamedv == colsv[i as int]);
            assert forall|j: int|
                0 <= j < defs2.len() implies #[trigger] defs2[j]@ == target[j] by {
                if j < i as int {
                    assert(defs2[j] == defs0[j]);
                } else if j > i as int {
                    assert(defs0.remove(i as int)[j - 1] == defs0[j]);
                    assert(defs2[j] == defs0[j]);
                } else {
                    assert(defs2[j]@.name == new_column_name@);
                    assert(defs2[j]@.data_type == renamedv.data_type);
                    assert(defs2[j]@.options == renamedv.options);
                }
            }
            assert(schema@.column_defs =~= target);
        }
        let out = write_schema_blob(&schema);
        proof {
            lemma_dec_enc_schema(schema@);
        }
        Ok((self, string_of_chars(&out)))
    }

    /// Appends a column to a stored schema blob and its fill value to every
    /// row of the stored whole-table blob, returning the two blobs to write
    /// back together, so a failure leaves both untouched.  A missing schema
    /// blob fails with `TableNotFound`, a blob that does not decode with
    /// `StorageFailure`, a duplicate column with
    /// `AddingColumnAlreadyExists`, and a column that is neither nullable
    /// nor carries a default with `DefaultValueRequired`.
    pub fn add_column(
        self,
        table_name: &str,
        column_def: &ColumnDef,
        schema_blob: Option<String>,
        data_blob: Option<String>,
    ) -> (r: MutResult<Self, (String, String)>)
        ensures
            match schema_blob {
                None => (r matches Err(q) && q.0@ == self@ && q.1@ == ErrorV::TableNotFound(
                    table_name@,
                )),
                Some(b) => match dec_schema_blob(b@) {
                    None => (r matches Err(q) && q.0@ == self@ && q.1@ == ErrorV::StorageFailure),
                    Some(sv) => if find_col(sv.column_defs, column_def@.name) is Some {
                        (r matches Err(q) && q.0@ == self@ && q.1@
                            == ErrorV::AddingColumnAlreadyExists(column_def@.name))
                    } else if fill_value_of(column_def@) is None {
                        (r matches Err(q) && q.0@ == self@ && q.1@ == ErrorV::DefaultValueRequired(
                            column_def@.name,
                        ))
                    } else {
                        match data_blob {
                            None => (r matches Ok(p) && p.0@ == self@ && p.1.0@ == enc_schema(
                                (SchemaV {
                                    table_name: sv.table_name,
                                    column_defs: sv.column_defs.push(column_def@),
                                }),
                            ) && dec_schema_blob(p.1.0@) == Some(
                                (SchemaV {
                                    table_name: sv.table_name,
                                    column_defs: sv.column_defs.push(column_def@),
                                }),
                            ) && p.1.1@ == enc_table(
                                add_col_rows(Seq::empty(), fill_value_of(column_def@)->Some_0),
                            ) && dec_table_blob(p.1.1@) == Some(
                                add_col_rows(Seq::empty(), fill_value_of(column_def@)->Some_0),
                            )),
                            Some(d) => match dec_table_blob(d@) {
                                None => (r matches Err(q) && q.0@ == self@ && q.1@
                                    == ErrorV::StorageFailure),
                                Some(es) => (r matches Ok(p) && p.0@ == self@ && p.1.0@
                                    == enc_schema(
                                    (SchemaV {
                                        table_name: sv.table_name,
                                        column_defs: sv.column_defs.push(column_def@),
                                    }),
                                ) && dec_schema_blob(p.1.0@) == Some(
                                    (SchemaV {
                                        table_name: sv.table_name,
                                        column_defs: sv.column_defs.push(column_def@),
                                    }),
                                ) && p.1.1@ == enc_table(
                                    add_col_rows(es, fill_value_of(column_def@)->Some_0),
                                ) && dec_table_blob(p.1.1@) == Some(
                                    add_col_rows(es, fill_value_of(column_def@)->Some_0),
                                )),
                            },
                        }
                    },
                },
            },
    {
        let b = match schema_blob {
            Some(b) => b,
            None => {
                return Err((self, StorageError::TableNotFound(table_name.to_owned())));
            },
        };
        let chars = chars_of_str(b.as_str());
        let mut schema = match read_schema_blob(&chars) {
            Some(schema) => schema,
            None => {
                return Err((self, StorageError::StorageFailure));
            },
        };
        if find_col_exec(&schema.column_defs, column_def.name.as_str()).is_some() {
            return Err((self, StorageError::AddingColumnAlreadyExists(column_def.name.clone())));
        }
        let fill = match column_fill_value(column_def) {
            Some(v) => v,
            None => {
                return Err((self, StorageError::DefaultValueRequired(column_def.name.clone())));
            },
        };
        let ghost fillv = fill@;
        let rows = match decode_table(&data_blob) {
            Some(rows) => rows,
            None => {
                return Err((self, StorageError::StorageFailure));
            },
        };
        let ghost esv = entries_view(rows@);
        proof {
            if data_blob is None {
                assert(esv =~= Seq::<(u64, Seq<ValueV>)>::empty());
            }
        }
        schema.column_defs.push(column_def.clone());
        proof {
            assert(schema@.column_defs =~= dec_schema_blob(b@)->Some_0.column_defs.push(
                column_def@,
            ));
        }
        let n = rows.len();
        let mut grown: Vec<(u64, Row)> = Vec::new();
        let mut i: usize = 0;
        while i < n
            invariant
                n == rows@.len(),
                esv == entries_view(rows@),
                fill@ == fillv,
                i <= n,
                grown@.len() == i,
                forall|j: int|
                    0 <= j < i ==> #[trigger] entries_view(grown@)[j] == (
                    esv[j].0,
                    esv[j].1.push(fillv),
                ),
            decreases n - i,
        {
            let id = rows[i].0;
            let mut new_row = rows[i].1.clone();
            new_row.0.push(fill.clone());
            proof {
                assert(new_row@ =~= esv[i as int].1.push(fillv));
            }
            let ghost g0 = grown@;
            grown.push((id, new_row));
            proof {
                assert(esv[i as int].0 == rows@[i as int].0);
                assert forall|j: int|
                    0 <= j < i + 1 implies #[trigger] entries_view(grown@)[j] == (
                    esv[j].0,
                    esv[j].1.push(fillv),
                ) by {
                    if j < i {
                        assert(grown@[j] == g0[j]);
                        assert(entries_view(g0)[j] == (esv[j].0, esv[j].1.push(fillv)));
                    } else {
                        assert(grown@[j] == (id, new_row));
                    }
                }
            }
            i += 1;
        }
        proof {
            assert(entries_view(grown@) =~= add_col_rows(esv, fillv));
        }
        let schema_out = write_schema_blob(&schema);
        let data_out = write_table_blob(&grown);
        proof {
            lemma_dec_enc_schema(schema@);
            lemma_dec_enc_table(entries_view(grown@));
        }
        Ok((self, (string_of_chars(&schema_out), string_of_chars(&data_out))))
    }

    /// Removes a column from a stored schema blob and the value at the same
    /// position from every row of the stored whole-table blob, returning the
    /// two blobs to write back together, or nothing to write when the column
    /// is absent and `if_exists` is set.  A missing schema blob fails with
    /// `TableNotFound`; a blob that does not decode, or rows too short for
    /// the column's position, fail with `StorageFailure`; an absent column
    /// without `if_exists` fails with `DroppingColumnNotFound`.
    pub fn drop_column(
        self,
        table_name: &str,
        column_name: &str,
        if_exists: bool,
        schema_blob: Option<String>,
        data_blob: Option<String>,
    ) -> (r: MutResult<Self, Option<(String, String)>>)
        ensures
            match schema_blob {
                None => (r matches Err(q) && q.0@ == self@ && q.1@ == ErrorV::TableNotFound(
                    table_name@,
                )),
                Some(b) => match dec_schema_blob(b@) {
                    None => (r matches Err(q) && q.0@ == self@ && q.1@ == ErrorV::StorageFailure),
                    Some(sv) => match find_col(sv.column_defs, column_name@) {
                        None => if if_exists {
                            (r matches Ok(p) && p.0@ == self@ && p.1 is None)
                        } else {
                            (r matches Err(q) && q.0@ == self@ && q.1@
                                == ErrorV::DroppingColumnNotFound(column_name@))
                        },
                        Some(ci) => match data_blob {
                            None => (r matches Ok(p) && p.0@ == self@ && p.1 is Some
                                && p.1->Some_0.0@ == enc_schema(
                                (SchemaV {
                                    table_name: sv.table_name,
                                    column_defs: sv.column_defs.remove(ci),
                                }),
                            ) && dec_schema_blob(p.1->Some_0.0@) == Some(
                                (SchemaV {
                                    table_name: sv.table_name,
                                    column_defs: sv.column_defs.remove(ci),
                                }),
                            ) && p.1->Some_0.1@ == enc_table(drop_col_rows(Seq::empty(), ci))
                                && dec_table_blob(p.1->Some_0.1@) == Some(
                                drop_col_rows(Seq::empty(), ci),
                            )),
                            Some(d) => match dec_table_blob(d@) {
                                None => (r matches Err(q) && q.0@ == self@ && q.1@
                                    == ErrorV::StorageFailure),
                                Some(es) => if rows_droppable(es, ci) {
                                    (r matches Ok(p) && p.0@ == self@ && p.1 is Some
                                        && p.1->Some_0.0@ == enc_schema(
                                        (SchemaV {
                                            table_name: sv.table_name,
                                            column_defs: sv.column_defs.remove(ci),
                                        }),
                                    ) && dec_schema_blob(p.1->Some_0.0@) == Some(
                                        (SchemaV {
                                            table_name: sv.table_name,
                                            column_defs: sv.column_defs.remove(ci),
                                        }),
                                    ) && p.1->Some_0.1@ == enc_table(drop_col_rows(es, ci))
                                        && dec_table_blob(p.1->Some_0.1@) == Some(
                                        drop_col_rows(es, ci),
                                    ))
                                } else {
                                    (r matches Err(q) && q.0@ == self@ && q.1@
                                        == ErrorV::StorageFailure)
                                },
                            },
                        },
                    },
                },
            },
    {
        let b = match schema_blob {
            Some(b) => b,
            None => {
                return Err((self, StorageError::TableNotFound(table_name.to_owned())));
            },
        };
        let chars = chars_of_str(b.as_str());
        let mut schema = match read_schema_blob(&chars) {
            Some(schema) => schema,
            None => {
                return Err((self, StorageError::StorageFailure));
            },
        };
        let ghost colsv = schema@.column_defs;
        let index = match (find_col_exec(&schema.column_defs, column_name), if_exists) {
            (Some(index), _) => index,
            (None, true) => {
                return Ok((self, None));
            },
            (None, false) => {
                return Err((self, StorageError::DroppingColumnNotFound(column_name.to_owned())));
            },
        };
        proof {
            lemma_find_col(colsv, column_name@);
        }
        let rows = match decode_table(&data_blob) {
            Some(rows) => rows,
            None => {
                return Err((self, StorageError::StorageFailure));
            },
        };
        let ghost esv = entries_view(rows@);
        proof {
            if data_blob is None {
                assert(esv =~= Seq::<(u64, Seq<ValueV>)>::empty());
            }
        }
        let n = rows.len();
        let mut ok = true;
        let mut c: usize = 0;
        while c < n && ok
            invariant
                n == rows@.len(),
                esv == entries_view(rows@),
                c <= n,
                ok ==> forall|j: int| 0 <= j < c ==> (index as int) < #[trigger] esv[j].1.len(),
                !ok ==> exists|j: int| 0 <= j < esv.len() && #[trigger] esv[j].1.len() <= index,
            decreases 2 * (n - c) + (if ok {
                1int
            } else {
                0int
            }),
        {
            if rows[c].1.0.len() <= index {
                proof {
                    assert(esv[c as int].1.len() <= index as int);
                }
                ok = false;
            } else {
                c += 1;
            }
        }
        if !ok {
            proof {
                assert(!rows_droppable(esv, index as int));
            }
            return Err((self, StorageError::StorageFailure));
        }
        proof {
            assert(rows_droppable(esv, index as int));
        }
        let mut shrunk: Vec<(u64, Row)> = Vec::new();
        let mut i: usize = 0;
        while i < n
            invariant
                n == rows@.len(),
                esv == entries_view(rows@),
                rows_droppable(esv, index as int),
                (index as int) < colsv.len(),
                i <= n,
                shrunk@.len() == i,
                forall|j: int|
                    0 <= j < i ==> #[trigger] entries_view(shrunk@)[j] == (
                    esv[j].0,
                    esv[j].1.remove(index as int),
                ),
            decreases n - i,
        {
            let id = rows[i].0;
            let mut new_row = rows[i].1.clone();
            proof {
                assert((index as int) < esv[i as int].1.len());
            }
            new_row.0.remove(index);
            proof {
                assert(new_row@ =~= esv[i as int].1.remove(index as int));
            }
            let ghost g0 = shrunk@;
            shrunk.push((id, new_row));
            proof {
                assert(esv[i as int].0 == rows@[i as int].0);
                assert forall|j: int|
                    0 <= j < i + 1 implies #[trigger] entries_view(shrunk@)[j] == (
                    esv[j].0,
                    esv[j].1.remove(index as int),
                ) by {
                    if j < i {
                        assert(shrunk@[j] == g0[j]);
                        assert(entries_view(g0)[j] == (esv[j].0, esv[j].1.remove(index as int)));
                    } else {
                        assert(shrunk@[j] == (id, new_row));
                    }
                }
            }
            i += 1;
        }
        proof {
            assert(entries_view(shrunk@) =~= drop_col_rows(esv, index as int));
        }
        schema.column_defs.remove(index);
        proof {
            assert(schema@.column_defs =~= colsv.remove(index as int));
        }
        let schema_out = write_schema_blob(&schema);
        let data_out = write_table_blob(&shrunk);
        proof {
            lemma_dec_enc_schema(schema@);
            lemma_dec_enc_table(entries_view(shrunk@));
        }
        Ok((self, Some((string_of_chars(&schema_out), string_of_chars(&data_out)))))
    }
}

} // verus!
