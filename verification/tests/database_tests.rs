//! Stores opened with the default column family alone.

use rocksdb::{
    BytewiseComparator, ColumnFamilyOptions, ConcatMergeOperator, Database, DatabaseOptions, Env,
    ReadOptions, WriteOptions,
};

type PlainCfOptions = ColumnFamilyOptions<BytewiseComparator, ConcatMergeOperator>;
type PlainDatabase = Database<BytewiseComparator, ConcatMergeOperator>;

#[test]
fn database_test_create_database() {
    let mut env = Env::new();
    match PlainDatabase::create(&mut env, "foo", DatabaseOptions::new(), PlainCfOptions::new()) {
        Ok(_) => (),
        Err(msg) => panic!("failure!: {:?}", msg),
    }
}

#[test]
fn database_test_create_while_open_fails() {
    let mut env = Env::new();
    assert!(
        PlainDatabase::create(&mut env, "db", DatabaseOptions::new(), PlainCfOptions::new())
            .is_ok()
    );
    assert!(
        PlainDatabase::create(&mut env, "db", DatabaseOptions::new(), PlainCfOptions::new())
            .is_err()
    );
}

#[test]
fn database_test_create_duplicate_fails() {
    let mut env = Env::new();
    {
        assert!(
            PlainDatabase::create(&mut env, "db", DatabaseOptions::new(), PlainCfOptions::new())
                .is_ok()
        );
    }
    {
        assert!(
            PlainDatabase::create(&mut env, "db", DatabaseOptions::new(), PlainCfOptions::new())
                .is_err()
        );
    }
}

#[test]
fn database_test_put_get() {
    let mut env = Env::new();
    let db_options = DatabaseOptions::new();
    let cf_options = PlainCfOptions::new();
    let read_options = ReadOptions::new();
    let write_options = WriteOptions::new();

    let mut table = PlainDatabase::create(&mut env, "db", db_options, cf_options).unwrap();
    assert!(table.put(&write_options, b"key", b"val").is_ok());

    assert!(table.get(&read_options, b"non-existant").unwrap().is_none());
    assert_eq!(table.get(&read_options, b"key").unwrap().unwrap(), b"val".to_vec());
}

#[test]
fn database_test_comparator() {
    let mut env = Env::new();
    let db_options = DatabaseOptions::new();
    let cf_options = PlainCfOptions::new();
    let read_options = ReadOptions::new();
    let write_options = WriteOptions::new();

    let mut table = PlainDatabase::create(&mut env, "db", db_options, cf_options).unwrap();
    assert!(table.put(&write_options, b"key", b"val").is_ok());

    assert!(table.get(&read_options, b"non-existant").unwrap().is_none());
    assert_eq!(table.get(&read_options, b"key").unwrap().unwrap(), b"val".to_vec());
}
