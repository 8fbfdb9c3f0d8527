use table_storage::entity::ColumnDef;
use table_storage::entity::ColumnOption;
use table_storage::entity::DataKey;
use table_storage::entity::DataType;
use table_storage::entity::Row;
use table_storage::entity::Schema;
use table_storage::entity::Value;
use table_storage::error::StorageError;
use table_storage::keyed_storage::KeyedStorage;

fn backend() -> KeyedStorage {
    KeyedStorage::new("ns".to_string()).unwrap()
}

fn col(name: &str, dt: DataType, options: Vec<ColumnOption>) -> ColumnDef {
    ColumnDef {
        name: name.to_string(),
        data_type: dt,
        options,
    }
}

fn two_col_schema() -> Schema {
    Schema {
        table_name: "t".to_string(),
        column_defs: vec![
            col("a", DataType::Int, vec![]),
            col("b", DataType::Int, vec![ColumnOption::Null]),
        ],
    }
}

#[test]
fn keys_follow_the_versioned_layout() {
    let storage = backend();
    assert_eq!(storage.id_key("t"), "__table-storage-v1__/ns/id/t");
    assert_eq!(storage.schema_key("t"), "__table-storage-v1__/ns/schema/t");
    assert_eq!(storage.data_key("t"), "__table-storage-v1__/ns/data/t");
}

#[test]
fn generate_id_starts_at_one_and_counts_up_through_the_blob() {
    let storage = backend();
    let (storage, (k1, blob1)) = storage.generate_id("t", None).unwrap();
    assert_eq!(k1.id, 1);
    assert_eq!(k1.table_name, "t");
    let (storage, (k2, blob2)) = storage.generate_id("t", Some(blob1)).unwrap();
    assert_eq!(k2.id, 2);
    let (_, (k3, _)) = storage.generate_id("t", Some(blob2)).unwrap();
    assert_eq!(k3.id, 3);
}

#[test]
fn scan_of_a_missing_table_blob_is_empty() {
    let storage = backend();
    assert!(storage.scan_data("t", None).unwrap().is_empty());
}

#[test]
fn generate_id_rejects_a_corrupt_counter_blob() {
    let storage = backend();
    let (_, err) = storage
        .generate_id("t", Some("not a number".to_string()))
        .unwrap_err();
    assert_eq!(err, StorageError::StorageFailure);
}

#[test]
fn schema_blob_round_trips_through_fetch() {
    let storage = backend();
    let schema = two_col_schema();
    let (storage, blob) = storage.insert_schema(&schema).unwrap();
    assert_eq!(storage.fetch_schema(Some(blob)).unwrap().unwrap(), schema);
    assert!(storage.fetch_schema(None).unwrap().is_none());
}

#[test]
fn fetch_schema_rejects_a_corrupt_blob() {
    let storage = backend();
    let err = storage.fetch_schema(Some("%%".to_string())).unwrap_err();
    assert_eq!(err, StorageError::StorageFailure);
}

#[test]
fn insert_then_scan_round_trips_rows() {
    let storage = backend();
    let key = DataKey {
        table_name: "t".to_string(),
        id: 1,
    };
    let row = Row(vec![
        Value::I64(-5),
        Value::Str("hi ✓".to_string()),
        Value::OptStr(None),
        Value::Bool(true),
        Value::OptBool(Some(false)),
        Value::Empty,
    ]);
    let (storage, blob) = storage.insert_data(&key, row.clone(), None).unwrap();
    let scanned = storage.scan_data("t", Some(blob)).unwrap();
    assert_eq!(scanned.len(), 1);
    assert_eq!(scanned[0].0.id, 1);
    assert_eq!(scanned[0].0.table_name, "t");
    assert_eq!(scanned[0].1, row);
}

#[test]
fn upsert_through_blobs_keeps_scan_order() {
    let storage = backend();
    let k1 = DataKey {
        table_name: "t".to_string(),
        id: 1,
    };
    let k2 = DataKey {
        table_name: "t".to_string(),
        id: 2,
    };
    let (storage, blob) = storage
        .insert_data(&k1, Row(vec![Value::I64(1)]), None)
        .unwrap();
    let (storage, blob) = storage
        .insert_data(&k2, Row(vec![Value::I64(2)]), Some(blob))
        .unwrap();
    let (storage, blob) = storage
        .insert_data(&k1, Row(vec![Value::I64(9)]), Some(blob))
        .unwrap();
    let scanned = storage.scan_data("t", Some(blob)).unwrap();
    let ids: Vec<u64> = scanned.iter().map(|(k, _)| k.id).collect();
    assert_eq!(ids, vec![1, 2]);
    assert_eq!(scanned[0].1, Row(vec![Value::I64(9)]));
    assert_eq!(scanned[1].1, Row(vec![Value::I64(2)]));
}

#[test]
fn delete_data_removes_only_the_matching_id() {
    let storage = backend();
    let k1 = DataKey {
        table_name: "t".to_string(),
        id: 1,
    };
    let k2 = DataKey {
        table_name: "t".to_string(),
        id: 2,
    };
    let (storage, blob) = storage
        .insert_data(&k1, Row(vec![Value::I64(1)]), None)
        .unwrap();
    let (storage, blob) = storage
        .insert_data(&k2, Row(vec![Value::I64(2)]), Some(blob))
        .unwrap();
    let (storage, blob) = storage.delete_data(&k1, Some(blob)).unwrap();
    let scanned = storage.scan_data("t", Some(blob)).unwrap();
    assert_eq!(scanned.len(), 1);
    assert_eq!(scanned[0].0.id, 2);
}

#[test]
fn insert_data_rejects_a_corrupt_table_blob() {
    let storage = backend();
    let key = DataKey {
        table_name: "t".to_string(),
        id: 1,
    };
    let (_, err) = storage
        .insert_data(&key, Row(vec![]), Some("garbage".to_string()))
        .unwrap_err();
    assert_eq!(err, StorageError::StorageFailure);
}

#[test]
fn keyed_alter_scenario_add_default_then_drop_nullable() {
    let storage = backend();
    let (storage, schema_blob) = storage.insert_schema(&two_col_schema()).unwrap();
    let key = DataKey {
        table_name: "t".to_string(),
        id: 1,
    };
    let (storage, data_blob) = storage
        .insert_data(&key, Row(vec![Value::I64(1), Value::OptI64(None)]), None)
        .unwrap();
    let c = col(
        "c",
        DataType::Int,
        vec![ColumnOption::Default(Value::I64(7))],
    );
    let (storage, (schema_blob, data_blob)) = storage
        .add_column("t", &c, Some(schema_blob), Some(data_blob))
        .unwrap();
    let scanned = storage.scan_data("t", Some(data_blob.clone())).unwrap();
    assert_eq!(
        scanned[0].1,
        Row(vec![Value::I64(1), Value::OptI64(None), Value::I64(7)])
    );
    let (storage, dropped) = storage
        .drop_column("t", "b", false, Some(schema_blob), Some(data_blob))
        .unwrap();
    let (schema_blob, data_blob) = dropped.unwrap();
    let schema = storage
        .fetch_schema(Some(schema_blob))
        .unwrap()
        .unwrap();
    let names: Vec<String> = schema.column_defs.into_iter().map(|cd| cd.name).collect();
    assert_eq!(names, vec!["a".to_string(), "c".to_string()]);
    let scanned = storage.scan_data("t", Some(data_blob)).unwrap();
    assert_eq!(scanned[0].1, Row(vec![Value::I64(1), Value::I64(7)]));
}

#[test]
fn keyed_add_column_duplicate_and_missing_default_fail() {
    let storage = backend();
    let (storage, schema_blob) = storage.insert_schema(&two_col_schema()).unwrap();
    let dup = col("a", DataType::Int, vec![ColumnOption::Null]);
    let (storage, err) = storage
        .add_column("t", &dup, Some(schema_blob.clone()), None)
        .unwrap_err();
    assert_eq!(
        err,
        StorageError::AddingColumnAlreadyExists("a".to_string())
    );
    let bare = col("c", DataType::Int, vec![]);
    let (storage, err) = storage
        .add_column("t", &bare, Some(schema_blob), None)
        .unwrap_err();
    assert_eq!(err, StorageError::DefaultValueRequired("c".to_string()));
    let (_, err) = storage.add_column("t", &bare, None, None).unwrap_err();
    assert_eq!(err, StorageError::TableNotFound("t".to_string()));
}

#[test]
fn keyed_drop_column_if_exists_writes_nothing() {
    let storage = backend();
    let (storage, schema_blob) = storage.insert_schema(&two_col_schema()).unwrap();
    let (storage, dropped) = storage
        .drop_column("t", "zzz", true, Some(schema_blob.clone()), None)
        .unwrap();
    assert!(dropped.is_none());
    let (_, err) = storage
        .drop_column("t", "zzz", false, Some(schema_blob), None)
        .unwrap_err();
    assert_eq!(err, StorageError::DroppingColumnNotFound("zzz".to_string()));
}

#[test]
fn keyed_rename_schema_rewrites_name_and_copies_data() {
    let storage = backend();
    let (storage, schema_blob) = storage.insert_schema(&two_col_schema()).unwrap();
    let key = DataKey {
        table_name: "t".to_string(),
        id: 1,
    };
    let (storage, data_blob) = storage
        .insert_data(&key, Row(vec![Value::I64(1), Value::OptI64(None)]), None)
        .unwrap();
    let (storage, (new_schema_blob, copied)) = storage
        .rename_schema("t", "u", Some(schema_blob), Some(data_blob.clone()))
        .unwrap();
    assert_eq!(copied.unwrap(), data_blob);
    let schema = storage
        .fetch_schema(Some(new_schema_blob))
        .unwrap()
        .unwrap();
    assert_eq!(schema.table_name, "u");
    assert_eq!(schema.column_defs, two_col_schema().column_defs);
    let (_, err) = storage.rename_schema("t", "u", None, None).unwrap_err();
    assert_eq!(err, StorageError::TableNotFound("t".to_string()));
}

#[test]
fn keyed_rename_column_rewrites_only_the_schema() {
    let storage = backend();
    let (storage, schema_blob) = storage.insert_schema(&two_col_schema()).unwrap();
    let (storage, new_blob) = storage
        .rename_column("t", "b", "renamed", Some(schema_blob.clone()))
        .unwrap();
    let schema = storage.fetch_schema(Some(new_blob)).unwrap().unwrap();
    assert_eq!(schema.column_defs[0].name, "a");
    assert_eq!(schema.column_defs[1].name, "renamed");
    let (_, err) = storage
        .rename_column("t", "zzz", "x", Some(schema_blob))
        .unwrap_err();
    assert_eq!(err, StorageError::RenamingColumnNotFound);
}
