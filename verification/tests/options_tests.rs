//! Option builders.

use rocksdb::{
    BytewiseComparator, ColumnFamilyOptions, ConcatMergeOperator, DatabaseOptions, ReadOptions,
    WriteOptions,
};

type PlainCfOptions = ColumnFamilyOptions<BytewiseComparator, ConcatMergeOperator>;

#[test]
fn options_test_create_db_options() {
    let mut options = DatabaseOptions::new();
    options.increase_parallelism(16);
    options.prepare_for_bulkload();
}

#[test]
fn options_test_create_cf_options() {
    let mut options = PlainCfOptions::new();
    options.optimize_level_style_compaction(2 << 26);
    options.optimize_universal_style_compaction(2 << 26);
}

#[test]
fn options_test_create_write_options() {
    let mut options = WriteOptions::new();
    options.set_sync(true);
    options.set_write_to_wal(false);
}

#[test]
fn options_test_create_read_options() {
    let mut options = ReadOptions::new();
    options.set_verify_checksums(false);
    options.set_fill_cache(true);
}

#[test]
fn options_fields_reflect_setters() {
    let mut options = DatabaseOptions::new();
    options.increase_parallelism(8);
    assert_eq!(options.options().parallelism, 8);
    assert!(!options.options().prepared_for_bulkload);
    options.prepare_for_bulkload();
    assert!(options.options().prepared_for_bulkload);

    let mut write_options = WriteOptions::new();
    assert!(!write_options.options().sync);
    assert!(!write_options.options().disable_wal);
    write_options.set_write_to_wal(false);
    assert!(write_options.options().disable_wal);

    let mut read_options = ReadOptions::new();
    assert!(read_options.options().verify_checksums);
    assert!(read_options.options().fill_cache);
    read_options.set_fill_cache(false);
    assert!(!read_options.options().fill_cache);

    let mut cf_options = PlainCfOptions::new();
    cf_options.optimize_level_style_compaction(1024);
    assert_eq!(cf_options.options().level_style_memtable_budget, Some(1024));
    assert_eq!(cf_options.options().universal_style_memtable_budget, None);
}
