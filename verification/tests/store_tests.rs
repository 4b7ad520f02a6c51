//! Stores with named column families, comparators, merge operators, cursors
//! and write batches.

use rocksdb::{
    AddMergeOperator, BytewiseComparator, ColumnFamilyOptions, ConcatMergeOperator, Database,
    DatabaseOptions, Env, KeyValue, ReadOptions, ReverseComparator, WriteBatch, WriteOptions,
};

type PlainCfOptions = ColumnFamilyOptions<BytewiseComparator, ConcatMergeOperator>;
type PlainDatabase = Database<BytewiseComparator, ConcatMergeOperator>;
type RevCfOptions = ColumnFamilyOptions<ReverseComparator<BytewiseComparator>, ConcatMergeOperator>;
type RevDatabase = Database<ReverseComparator<BytewiseComparator>, ConcatMergeOperator>;
type AddCfOptions = ColumnFamilyOptions<BytewiseComparator, AddMergeOperator>;
type AddDatabase = Database<BytewiseComparator, AddMergeOperator>;

fn drain(db: &RevDatabase, name: &str, read_options: &ReadOptions) -> Vec<KeyValue> {
    let mut cursor = db.get_column_family(name).unwrap().iter(read_options).unwrap();
    cursor.collect_remaining()
}

#[test]
fn tests_test_create_database() {
    let mut env = Env::new();
    let cfs = vec![("default".to_string(), PlainCfOptions::new())];
    PlainDatabase::create_with_column_families(&mut env, "foo", DatabaseOptions::new(), cfs)
        .unwrap();
}

#[test]
fn test_create_database_multiple_cfs() {
    let mut env = Env::new();
    let cfs = vec![
        ("default".to_string(), PlainCfOptions::new()),
        ("other".to_string(), PlainCfOptions::new()),
    ];
    PlainDatabase::create_with_column_families(&mut env, "foo", DatabaseOptions::new(), cfs)
        .unwrap();
}

#[test]
fn tests_test_create_while_open_fails() {
    let mut env = Env::new();
    let cfs1 = vec![("default".to_string(), PlainCfOptions::new())];
    let cfs2 = vec![("default".to_string(), PlainCfOptions::new())];
    assert!(
        PlainDatabase::create_with_column_families(&mut env, "db", DatabaseOptions::new(), cfs1)
            .is_ok()
    );
    assert!(
        PlainDatabase::create_with_column_families(&mut env, "db", DatabaseOptions::new(), cfs2)
            .is_err()
    );
}

#[test]
fn tests_test_create_duplicate_fails() {
    let mut env = Env::new();
    {
        let cfs = vec![("default".to_string(), PlainCfOptions::new())];
        assert!(
            PlainDatabase::create_with_column_families(&mut env, "db", DatabaseOptions::new(), cfs)
                .is_ok()
        );
    }
    {
        let cfs = vec![("default".to_string(), PlainCfOptions::new())];
        assert!(
            PlainDatabase::create_with_column_families(&mut env, "db", DatabaseOptions::new(), cfs)
                .is_err()
        );
    }
}

#[test]
fn tests_test_put_get() {
    let mut env = Env::new();
    let db_options = DatabaseOptions::new();
    let cfs = vec![
        ("default".to_string(), PlainCfOptions::new()),
        ("other".to_string(), PlainCfOptions::new()),
    ];
    let read_options = ReadOptions::new();
    let write_options = WriteOptions::new();

    let mut db =
        PlainDatabase::create_with_column_families(&mut env, "db", db_options, cfs).unwrap();
    assert!(db.put_cf(&write_options, "default", b"key", b"val").is_ok());
    let default = db.get_column_family("default").unwrap();
    assert!(default.get(&read_options, b"non-existant").unwrap().is_none());
    assert_eq!(default.get(&read_options, b"key").unwrap().unwrap().as_slice(), b"val");

    assert!(db.put_cf(&write_options, "other", b"key", b"val").is_ok());
    let other = db.get_column_family("other").unwrap();
    assert!(other.get(&read_options, b"non-existant").unwrap().is_none());
    assert_eq!(other.get(&read_options, b"key").unwrap().unwrap().as_slice(), b"val");
}

#[test]
fn test_iterator() {
    let mut env = Env::new();
    let mut reversed_cf_options = RevCfOptions::new();
    reversed_cf_options.set_comparator("foo", ReverseComparator(BytewiseComparator));

    let cfs = vec![
        ("default".to_string(), RevCfOptions::new()),
        ("other".to_string(), reversed_cf_options),
    ];
    let read_options = ReadOptions::new();
    let write_options = WriteOptions::new();

    let mut db =
        RevDatabase::create_with_column_families(&mut env, "db", DatabaseOptions::new(), cfs)
            .unwrap();

    let kvs: Vec<(&[u8], &[u8])> = vec![
        (b"1", b"1"),
        (b"2", b"2"),
        (b"3", b"3"),
        (b"4", b"4"),
        (b"5", b"5"),
        (b"a", b"a"),
        (b"b", b"b"),
        (b"c", b"c"),
        (b"fooz", b"baz"),
    ];

    for &(k, v) in kvs.iter() {
        db.put_cf(&write_options, "default", k, v).unwrap();
    }

    let yielded = drain(&db, "default", &read_options);
    assert_eq!(yielded.len(), kvs.len());
    for (kv, tuple) in yielded.iter().zip(kvs.iter()) {
        assert!(kv.key.as_slice() == tuple.0);
        assert!(kv.value.as_slice() == tuple.1);
    }

    assert_eq!(0, drain(&db, "other", &read_options).len());
}

#[test]
fn tests_test_create_db_options() {
    let mut options = DatabaseOptions::new();
    options.increase_parallelism(16);
    options.prepare_for_bulkload();
}

#[test]
fn tests_test_create_cf_options() {
    let mut options = PlainCfOptions::new();
    options.optimize_level_style_compaction(2 << 26);
    options.optimize_universal_style_compaction(2 << 26);
}

#[test]
fn tests_test_create_write_options() {
    let mut options = WriteOptions::new();
    options.set_sync(true);
    options.set_write_to_wal(false);
}

#[test]
fn tests_test_create_read_options() {
    let mut options = ReadOptions::new();
    options.set_verify_checksums(false);
    options.set_fill_cache(true);
}

#[test]
fn test_set_comparator() {
    let mut options = RevCfOptions::new();
    options.set_comparator("foo", ReverseComparator(BytewiseComparator));
}

#[test]
fn tests_test_comparator() {
    let mut env = Env::new();
    let mut reversed_cf_options = RevCfOptions::new();
    reversed_cf_options.set_comparator("foo", ReverseComparator(BytewiseComparator));

    let cfs = vec![
        ("default".to_string(), RevCfOptions::new()),
        ("reversed".to_string(), reversed_cf_options),
    ];
    let read_options = ReadOptions::new();
    let write_options = WriteOptions::new();

    let mut db =
        RevDatabase::create_with_column_families(&mut env, "db", DatabaseOptions::new(), cfs)
            .unwrap();

    let kvs: Vec<(&[u8], &[u8])> =
        vec![(b"1", b"1"), (b"2", b"2"), (b"3", b"3"), (b"4", b"4"), (b"5", b"5")];

    for &(k, v) in kvs.iter() {
        db.put_cf(&write_options, "default", k, v).unwrap();
        db.put_cf(&write_options, "reversed", k, v).unwrap();
    }

    let forward = drain(&db, "default", &read_options);
    assert_eq!(forward.len(), kvs.len());
    for (kv, tuple) in forward.iter().zip(kvs.iter()) {
        assert!(kv.key.as_slice() == tuple.0);
        assert!(kv.value.as_slice() == tuple.1);
    }

    let backward = drain(&db, "reversed", &read_options);
    assert_eq!(backward.len(), kvs.len());
    for (kv, tuple) in backward.iter().zip(kvs.iter().rev()) {
        assert!(kv.key.as_slice() == tuple.0);
        assert!(kv.value.as_slice() == tuple.1);
    }
}

#[test]
fn test_set_merge_operator() {
    let mut options = PlainCfOptions::new();
    options.set_merge_operator("foo", ConcatMergeOperator);
}

#[test]
fn test_merge() {
    let mut env = Env::new();
    let mut options = PlainCfOptions::new();
    options.set_merge_operator("concat", ConcatMergeOperator);

    let cfs = vec![("default".to_string(), options)];
    let read_options = ReadOptions::new();
    let write_options = WriteOptions::new();

    let mut db =
        PlainDatabase::create_with_column_families(&mut env, "db", DatabaseOptions::new(), cfs)
            .unwrap();

    db.put_cf(&write_options, "default", b"key", b"foo").unwrap();
    db.merge_cf(&write_options, "default", b"key", b"-").unwrap();
    db.merge_cf(&write_options, "default", b"key", b"bar").unwrap();
    db.merge_cf(&write_options, "default", b"key", b"-").unwrap();
    db.merge_cf(&write_options, "default", b"key", b"baz").unwrap();
    assert_eq!(
        b"foo-bar-baz",
        db.get_column_family("default")
            .unwrap()
            .get(&read_options, b"key")
            .unwrap()
            .unwrap()
            .as_slice()
    );
}

#[test]
fn test_associative_merge() {
    let mut env = Env::new();
    let mut options = AddCfOptions::new();
    options.set_merge_operator("add", AddMergeOperator);

    let cfs = vec![("default".to_string(), options)];
    let read_options = ReadOptions::new();
    let write_options = WriteOptions::new();

    let mut db =
        AddDatabase::create_with_column_families(&mut env, "db", DatabaseOptions::new(), cfs)
            .unwrap();

    db.put_cf(&write_options, "default", b"key", AddMergeOperator::write_u64(1).as_slice())
        .unwrap();
    db.merge_cf(&write_options, "default", b"key", AddMergeOperator::write_u64(1).as_slice())
        .unwrap();
    db.merge_cf(&write_options, "default", b"key", AddMergeOperator::write_u64(2).as_slice())
        .unwrap();
    db.merge_cf(&write_options, "default", b"key", AddMergeOperator::write_u64(3).as_slice())
        .unwrap();
    db.merge_cf(&write_options, "default", b"key", AddMergeOperator::write_u64(5).as_slice())
        .unwrap();
    assert_eq!(
        AddMergeOperator::write_u64(12).as_slice(),
        db.get_column_family("default")
            .unwrap()
            .get(&read_options, b"key")
            .unwrap()
            .unwrap()
            .as_slice()
    );
}

#[test]
fn test_merge_fail() {
    // The add operator fails on operands that are not eight-byte integers,
    // standing in for a user merge callable that reports failure: the merges
    // are accepted, and the failure surfaces when the key is read.
    let mut env = Env::new();
    let mut options = AddCfOptions::new();
    options.set_merge_operator("add", AddMergeOperator);

    let cfs = vec![("default".to_string(), options)];
    let read_options = ReadOptions::new();
    let write_options = WriteOptions::new();

    let mut db =
        AddDatabase::create_with_column_families(&mut env, "db", DatabaseOptions::new(), cfs)
            .unwrap();

    db.put_cf(&write_options, "default", b"key", b"a").unwrap();
    db.merge_cf(&write_options, "default", b"key", b"b").unwrap();
    db.merge_cf(&write_options, "default", b"key", b"c").unwrap();
    assert!(db.get_column_family("default").unwrap().get(&read_options, b"key").is_err());
}

#[test]
fn test_write_batch() {
    let mut env = Env::new();
    let db_options = DatabaseOptions::new();
    let cfs = vec![
        ("default".to_string(), PlainCfOptions::new()),
        ("other".to_string(), PlainCfOptions::new()),
    ];
    let read_options = ReadOptions::new();
    let write_options = WriteOptions::new();

    let mut db =
        PlainDatabase::create_with_column_families(&mut env, "db", db_options, cfs).unwrap();

    db.put_cf(&write_options, "default", b"key", b"val1").unwrap();
    db.put_cf(&write_options, "other", b"key", b"val1").unwrap();

    let mut batch = WriteBatch::new();
    batch.put(db.get_column_family("default").unwrap(), b"key", b"to-be-cleared");
    batch.put(db.get_column_family("other").unwrap(), b"key", b"to-be-cleared");
    batch.clear();
    batch.put(db.get_column_family("default").unwrap(), b"key", b"val2");
    batch.delete(db.get_column_family("other").unwrap(), b"key");

    let _ = db.write(&write_options, batch);

    assert_eq!(
        db.get_column_family("default")
            .unwrap()
            .get(&read_options, b"key")
            .unwrap()
            .unwrap()
            .as_slice(),
        b"val2"
    );
    assert!(db.get_column_family("other").unwrap().get(&read_options, b"key").unwrap().is_none());
}
