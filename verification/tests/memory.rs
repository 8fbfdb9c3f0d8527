use table_storage::entity::ColumnDef;
use table_storage::entity::ColumnOption;
use table_storage::entity::DataKey;
use table_storage::entity::DataType;
use table_storage::entity::Row;
use table_storage::entity::Schema;
use table_storage::entity::Value;
use table_storage::error::StorageError;
use table_storage::memory_storage::MemoryStorage;

fn col(name: &str, dt: DataType, options: Vec<ColumnOption>) -> ColumnDef {
    ColumnDef {
        name: name.to_string(),
        data_type: dt,
        options,
    }
}

fn two_col_schema() -> Schema {
    Schema {
        table_name: "t".to_string(),
        column_defs: vec![
            col("a", DataType::Int, vec![]),
            col("b", DataType::Int, vec![ColumnOption::Null]),
        ],
    }
}

fn row_values(storage: &MemoryStorage, table: &str) -> Vec<(u64, Vec<Value>)> {
    storage
        .scan_data(table)
        .into_iter()
        .map(|(k, r)| (k.id, r.0))
        .collect()
}

#[test]
fn new_storage_is_empty() {
    let storage = MemoryStorage::new().unwrap();
    assert!(storage.fetch_schema("t").is_none());
    assert!(storage.scan_data("t").is_empty());
}

#[test]
fn generate_id_counts_up_per_storage() {
    let storage = MemoryStorage::new().unwrap();
    let (storage, k1) = storage.generate_id("t").unwrap();
    let (storage, k2) = storage.generate_id("u").unwrap();
    let (_, k3) = storage.generate_id("t").unwrap();
    assert_eq!(k1.id, 1);
    assert_eq!(k1.table_name, "t");
    assert_eq!(k2.id, 2);
    assert_eq!(k3.id, 3);
}

#[test]
fn insert_then_scan_holds_exactly_that_row() {
    let storage = MemoryStorage::new().unwrap();
    let (storage, _) = storage.insert_schema(&two_col_schema()).unwrap();
    let (storage, key) = storage.generate_id("t").unwrap();
    let row = Row(vec![Value::I64(10), Value::OptI64(Some(20))]);
    let (storage, _) = storage.insert_data(&key, row).unwrap();
    let scanned = storage.scan_data("t");
    assert_eq!(scanned.len(), 1);
    assert_eq!(scanned[0].0.table_name, "t");
    assert_eq!(scanned[0].0.id, key.id);
    assert_eq!(scanned[0].1, Row(vec![Value::I64(10), Value::OptI64(Some(20))]));
}

#[test]
fn deleted_id_is_never_reissued() {
    let storage = MemoryStorage::new().unwrap();
    let (storage, k1) = storage.generate_id("t").unwrap();
    let row = Row(vec![Value::I64(1), Value::OptI64(None)]);
    let (storage, _) = storage.insert_data(&k1, row).unwrap();
    let (storage, _) = storage
        .delete_data(&DataKey {
            table_name: "t".to_string(),
            id: k1.id,
        })
        .unwrap();
    let (_, k2) = storage.generate_id("t").unwrap();
    assert_ne!(k2.id, k1.id);
    assert_eq!(k2.id, 2);
}

#[test]
fn upsert_replaces_value_but_keeps_position() {
    let storage = MemoryStorage::new().unwrap();
    let (storage, k1) = storage.generate_id("t").unwrap();
    let (storage, k2) = storage.generate_id("t").unwrap();
    let (storage, _) = storage
        .insert_data(&k1, Row(vec![Value::I64(1)]))
        .unwrap();
    let (storage, _) = storage
        .insert_data(&k2, Row(vec![Value::I64(2)]))
        .unwrap();
    let (storage, _) = storage
        .insert_data(&k1, Row(vec![Value::I64(9)]))
        .unwrap();
    let rows = row_values(&storage, "t");
    assert_eq!(
        rows,
        vec![
            (k1.id, vec![Value::I64(9)]),
            (k2.id, vec![Value::I64(2)]),
        ]
    );
}

#[test]
fn delete_data_of_absent_id_is_a_noop() {
    let storage = MemoryStorage::new().unwrap();
    let (storage, k1) = storage.generate_id("t").unwrap();
    let (storage, _) = storage
        .insert_data(&k1, Row(vec![Value::I64(1)]))
        .unwrap();
    let (storage, _) = storage
        .delete_data(&DataKey {
            table_name: "t".to_string(),
            id: 77,
        })
        .unwrap();
    assert_eq!(storage.scan_data("t").len(), 1);
}

#[test]
fn delete_schema_removes_schema_and_rows() {
    let storage = MemoryStorage::new().unwrap();
    let (storage, _) = storage.insert_schema(&two_col_schema()).unwrap();
    let (storage, key) = storage.generate_id("t").unwrap();
    let (storage, _) = storage
        .insert_data(&key, Row(vec![Value::I64(1), Value::OptI64(None)]))
        .unwrap();
    let (storage, _) = storage.delete_schema("t").unwrap();
    assert!(storage.fetch_schema("t").is_none());
    assert!(storage.scan_data("t").is_empty());
    let (storage, _) = storage.delete_schema("never-created").unwrap();
    assert!(storage.fetch_schema("never-created").is_none());
}

#[test]
fn fetch_schema_returns_what_was_installed() {
    let storage = MemoryStorage::new().unwrap();
    let (storage, _) = storage.insert_schema(&two_col_schema()).unwrap();
    assert_eq!(storage.fetch_schema("t").unwrap(), two_col_schema());
    assert!(storage.fetch_schema("u").is_none());
}

#[test]
fn alter_scenario_add_default_then_drop_nullable() {
    let storage = MemoryStorage::new().unwrap();
    let (storage, _) = storage.insert_schema(&two_col_schema()).unwrap();
    let (storage, key) = storage.generate_id("t").unwrap();
    assert_eq!(key.id, 1);
    let (storage, _) = storage
        .insert_data(&key, Row(vec![Value::I64(1), Value::OptI64(None)]))
        .unwrap();
    let c = col(
        "c",
        DataType::Int,
        vec![ColumnOption::Default(Value::I64(7))],
    );
    let (storage, _) = storage.add_column("t", &c).unwrap();
    assert_eq!(
        row_values(&storage, "t"),
        vec![(1, vec![Value::I64(1), Value::OptI64(None), Value::I64(7)])]
    );
    let (storage, _) = storage.drop_column("t", "b", false).unwrap();
    assert_eq!(
        row_values(&storage, "t"),
        vec![(1, vec![Value::I64(1), Value::I64(7)])]
    );
    let names: Vec<String> = storage
        .fetch_schema("t")
        .unwrap()
        .column_defs
        .into_iter()
        .map(|cd| cd.name)
        .collect();
    assert_eq!(names, vec!["a".to_string(), "c".to_string()]);
}

#[test]
fn add_column_with_existing_name_fails_and_changes_nothing() {
    let storage = MemoryStorage::new().unwrap();
    let (storage, _) = storage.insert_schema(&two_col_schema()).unwrap();
    let (storage, key) = storage.generate_id("t").unwrap();
    let (storage, _) = storage
        .insert_data(&key, Row(vec![Value::I64(1), Value::OptI64(None)]))
        .unwrap();
    let dup = col("a", DataType::Int, vec![ColumnOption::Null]);
    let (storage, err) = storage.add_column("t", &dup).unwrap_err();
    assert_eq!(
        err,
        StorageError::AddingColumnAlreadyExists("a".to_string())
    );
    assert_eq!(
        row_values(&storage, "t"),
        vec![(1, vec![Value::I64(1), Value::OptI64(None)])]
    );
    assert_eq!(storage.fetch_schema("t").unwrap().column_defs.len(), 2);
}

#[test]
fn add_column_without_default_or_nullability_fails() {
    let storage = MemoryStorage::new().unwrap();
    let (storage, _) = storage.insert_schema(&two_col_schema()).unwrap();
    let bare = col("c", DataType::Int, vec![]);
    let (storage, err) = storage.add_column("t", &bare).unwrap_err();
    assert_eq!(err, StorageError::DefaultValueRequired("c".to_string()));
    assert_eq!(storage.fetch_schema("t").unwrap().column_defs.len(), 2);
}

#[test]
fn add_column_of_nullable_column_backfills_null() {
    let storage = MemoryStorage::new().unwrap();
    let (storage, _) = storage.insert_schema(&two_col_schema()).unwrap();
    let (storage, key) = storage.generate_id("t").unwrap();
    let (storage, _) = storage
        .insert_data(&key, Row(vec![Value::I64(1), Value::OptI64(None)]))
        .unwrap();
    let c = col("c", DataType::Text, vec![ColumnOption::Null]);
    let (storage, _) = storage.add_column("t", &c).unwrap();
    assert_eq!(
        row_values(&storage, "t"),
        vec![(
            1,
            vec![Value::I64(1), Value::OptI64(None), Value::OptStr(None)]
        )]
    );
}

#[test]
fn add_then_drop_restores_rows_and_columns() {
    let storage = MemoryStorage::new().unwrap();
    let (storage, _) = storage.insert_schema(&two_col_schema()).unwrap();
    let (storage, key) = storage.generate_id("t").unwrap();
    let original = Row(vec![Value::I64(3), Value::OptI64(Some(4))]);
    let (storage, _) = storage.insert_data(&key, original.clone()).unwrap();
    let c = col(
        "c",
        DataType::Bool,
        vec![ColumnOption::Default(Value::Bool(true))],
    );
    let (storage, _) = storage.add_column("t", &c).unwrap();
    let (storage, _) = storage.drop_column("t", "c", false).unwrap();
    assert_eq!(row_values(&storage, "t"), vec![(1, original.0)]);
    assert_eq!(storage.fetch_schema("t").unwrap(), two_col_schema());
}

#[test]
fn drop_column_if_exists_is_a_noop_and_otherwise_an_error() {
    let storage = MemoryStorage::new().unwrap();
    let (storage, _) = storage.insert_schema(&two_col_schema()).unwrap();
    let (storage, _) = storage.drop_column("t", "zzz", true).unwrap();
    assert_eq!(storage.fetch_schema("t").unwrap(), two_col_schema());
    let (storage, err) = storage.drop_column("t", "zzz", false).unwrap_err();
    assert_eq!(err, StorageError::DroppingColumnNotFound("zzz".to_string()));
    assert_eq!(storage.fetch_schema("t").unwrap(), two_col_schema());
}

#[test]
fn rename_schema_then_back_restores_everything() {
    let storage = MemoryStorage::new().unwrap();
    let (storage, _) = storage.insert_schema(&two_col_schema()).unwrap();
    let (storage, key) = storage.generate_id("t").unwrap();
    let (storage, _) = storage
        .insert_data(&key, Row(vec![Value::I64(5), Value::OptI64(None)]))
        .unwrap();
    let (storage, _) = storage.rename_schema("t", "u").unwrap();
    assert!(storage.fetch_schema("t").is_none());
    assert_eq!(storage.fetch_schema("u").unwrap().table_name, "u");
    assert!(storage.scan_data("t").is_empty());
    assert_eq!(storage.scan_data("u").len(), 1);
    let (storage, _) = storage.rename_schema("u", "t").unwrap();
    assert_eq!(storage.fetch_schema("t").unwrap(), two_col_schema());
    assert!(storage.fetch_schema("u").is_none());
    assert_eq!(
        row_values(&storage, "t"),
        vec![(1, vec![Value::I64(5), Value::OptI64(None)])]
    );
}

#[test]
fn rename_schema_of_absent_table_fails_unchanged() {
    let storage = MemoryStorage::new().unwrap();
    let (storage, err) = storage.rename_schema("t", "u").unwrap_err();
    assert_eq!(err, StorageError::TableNotFound("t".to_string()));
    assert!(storage.fetch_schema("u").is_none());
}

#[test]
fn rename_column_changes_only_the_name() {
    let storage = MemoryStorage::new().unwrap();
    let (storage, _) = storage.insert_schema(&two_col_schema()).unwrap();
    let (storage, key) = storage.generate_id("t").unwrap();
    let (storage, _) = storage
        .insert_data(&key, Row(vec![Value::I64(1), Value::OptI64(Some(2))]))
        .unwrap();
    let (storage, _) = storage.rename_column("t", "b", "renamed").unwrap();
    let schema = storage.fetch_schema("t").unwrap();
    assert_eq!(schema.column_defs[1].name, "renamed");
    assert_eq!(schema.column_defs[1].options, vec![ColumnOption::Null]);
    assert_eq!(
        row_values(&storage, "t"),
        vec![(1, vec![Value::I64(1), Value::OptI64(Some(2))])]
    );
    let (storage, err) = storage.rename_column("t", "b", "again").unwrap_err();
    assert_eq!(err, StorageError::RenamingColumnNotFound);
    let (_, err) = storage.rename_column("missing", "a", "x").unwrap_err();
    assert_eq!(err, StorageError::TableNotFound("missing".to_string()));
}

#[test]
fn insert_schema_overwrites_previous_schema() {
    let storage = MemoryStorage::new().unwrap();
    let (storage, _) = storage.insert_schema(&two_col_schema()).unwrap();
    let other = Schema {
        table_name: "t".to_string(),
        column_defs: vec![col("only", DataType::Text, vec![])],
    };
    let (storage, _) = storage.insert_schema(&other).unwrap();
    assert_eq!(storage.fetch_schema("t").unwrap(), other);
}
