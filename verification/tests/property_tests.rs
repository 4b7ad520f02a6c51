//! Scenario tests for the store's laws: read-after-write, deletion, merge
//! folding, batch atomicity, isolation, reopening, and the codec and
//! comparator building blocks.

use rocksdb::{
    AddMergeOperator, AssociativeMergeOperator, BytewiseComparator, ColumnFamilyOptions,
    Comparator, ConcatMergeOperator, Database, DatabaseOptions, Env, Error, KeyOrdering,
    MergeOperator, Operands, ReadOptions, ReverseComparator, WriteBatch, WriteOptions,
};

type PlainCfOptions = ColumnFamilyOptions<BytewiseComparator, ConcatMergeOperator>;
type PlainDatabase = Database<BytewiseComparator, ConcatMergeOperator>;
type AddCfOptions = ColumnFamilyOptions<BytewiseComparator, AddMergeOperator>;
type AddDatabase = Database<BytewiseComparator, AddMergeOperator>;

fn plain_db(env: &mut Env, path: &str) -> PlainDatabase {
    let cfs = vec![
        ("default".to_string(), PlainCfOptions::new()),
        ("other".to_string(), PlainCfOptions::new()),
    ];
    PlainDatabase::create_with_column_families(env, path, DatabaseOptions::new(), cfs).unwrap()
}

#[test]
fn put_then_get_returns_value() {
    let mut env = Env::new();
    let mut db = plain_db(&mut env, "db");
    let wo = WriteOptions::new();
    let ro = ReadOptions::new();
    db.put(&wo, b"k", b"v").unwrap();
    assert_eq!(db.get(&ro, b"k").unwrap().unwrap(), b"v".to_vec());
    // A later put of the same key supersedes the earlier value.
    db.put(&wo, b"k", b"w").unwrap();
    assert_eq!(db.get(&ro, b"k").unwrap().unwrap(), b"w".to_vec());
    db.put(&wo, b"", b"").unwrap();
    assert_eq!(db.get(&ro, b"").unwrap().unwrap(), Vec::<u8>::new());
}

#[test]
fn get_of_never_put_key_is_absent() {
    let mut env = Env::new();
    let mut db = plain_db(&mut env, "db");
    let wo = WriteOptions::new();
    let ro = ReadOptions::new();
    assert!(db.get(&ro, b"nothing").unwrap().is_none());
    db.put(&wo, b"k", b"v").unwrap();
    assert!(db.get(&ro, b"close").unwrap().is_none());
}

#[test]
fn put_delete_get_is_absent() {
    let mut env = Env::new();
    let mut db = plain_db(&mut env, "db");
    let wo = WriteOptions::new();
    let ro = ReadOptions::new();
    db.put(&wo, b"k", b"v").unwrap();
    db.delete(&wo, b"k").unwrap();
    assert!(db.get(&ro, b"k").unwrap().is_none());
    // Deleting an absent key stays a no-op.
    db.delete(&wo, b"k").unwrap();
    assert!(db.get(&ro, b"k").unwrap().is_none());
}

#[test]
fn column_families_are_isolated() {
    let mut env = Env::new();
    let mut db = plain_db(&mut env, "db");
    let wo = WriteOptions::new();
    let ro = ReadOptions::new();
    assert_eq!(db.get_column_families().len(), 2);
    assert_eq!(db.get_column_families()[0].name(), "default");
    db.put_cf(&wo, "default", b"k", b"v").unwrap();
    assert!(db.get_column_family("other").unwrap().get(&ro, b"k").unwrap().is_none());
    db.put_cf(&wo, "other", b"k", b"w").unwrap();
    db.delete_cf(&wo, "other", b"k").unwrap();
    assert_eq!(
        db.get_column_family("default").unwrap().get(&ro, b"k").unwrap().unwrap(),
        b"v".to_vec()
    );
    assert!(db.get_column_family("other").unwrap().get(&ro, b"k").unwrap().is_none());
}

#[test]
fn batch_with_unknown_column_family_changes_nothing() {
    let mut env = Env::new();
    let mut db = plain_db(&mut env, "db");
    let mut ghost_env = Env::new();
    let cfs = vec![("ghost".to_string(), PlainCfOptions::new())];
    let ghost_db = PlainDatabase::create_with_column_families(
        &mut ghost_env,
        "elsewhere",
        DatabaseOptions::new(),
        cfs,
    )
    .unwrap();
    let wo = WriteOptions::new();
    let ro = ReadOptions::new();

    db.put_cf(&wo, "default", b"kept", b"old").unwrap();

    let mut batch = WriteBatch::new();
    batch.put(db.get_column_family("default").unwrap(), b"kept", b"new");
    batch.put(ghost_db.get_column_family("ghost").unwrap(), b"x", b"y");
    let r = db.write(&wo, batch);
    assert!(matches!(r, Err(Error::ColumnFamilyNotFound)));
    // Atomicity: the batch's first operation is not visible either.
    assert_eq!(
        db.get_column_family("default").unwrap().get(&ro, b"kept").unwrap().unwrap(),
        b"old".to_vec()
    );
}

#[test]
fn batch_applies_all_operations_in_order() {
    let mut env = Env::new();
    let mut db = plain_db(&mut env, "db");
    let wo = WriteOptions::new();
    let ro = ReadOptions::new();

    let mut batch = WriteBatch::new();
    batch.put(db.get_column_family("default").unwrap(), b"a", b"1");
    batch.put(db.get_column_family("other").unwrap(), b"b", b"2");
    batch.put(db.get_column_family("default").unwrap(), b"a", b"3");
    batch.delete(db.get_column_family("other").unwrap(), b"b");
    assert_eq!(batch.count(), 4);
    db.write(&wo, batch).unwrap();

    assert_eq!(
        db.get_column_family("default").unwrap().get(&ro, b"a").unwrap().unwrap(),
        b"3".to_vec()
    );
    assert!(db.get_column_family("other").unwrap().get(&ro, b"b").unwrap().is_none());
}

#[test]
fn merge_without_operator_is_not_supported() {
    let mut env = Env::new();
    let mut db = plain_db(&mut env, "db");
    let wo = WriteOptions::new();
    let r = db.merge_cf(&wo, "default", b"k", b"v");
    assert!(matches!(r, Err(Error::EngineFailure(_))));
    let r2 = db.put_cf(&wo, "missing", b"k", b"v");
    assert!(matches!(r2, Err(Error::ColumnFamilyNotFound)));
}

#[test]
fn merge_failure_surfaces_on_read() {
    let mut env = Env::new();
    let mut options = AddCfOptions::new();
    options.set_merge_operator("add", AddMergeOperator);
    let cfs = vec![("default".to_string(), options)];
    let mut db =
        AddDatabase::create_with_column_families(&mut env, "db", DatabaseOptions::new(), cfs)
            .unwrap();
    let wo = WriteOptions::new();
    let ro = ReadOptions::new();

    db.put_cf(&wo, "default", b"k", b"short").unwrap();
    db.merge_cf(&wo, "default", b"k", b"operand").unwrap();
    let r = db.get_column_family("default").unwrap().get(&ro, b"k");
    assert!(matches!(r, Err(Error::MergeFailure)));
}

#[test]
fn iteration_failure_is_terminal_and_distinct_from_exhaustion() {
    let mut env = Env::new();
    let mut options = AddCfOptions::new();
    options.set_merge_operator("add", AddMergeOperator);
    let cfs = vec![("default".to_string(), options)];
    let mut db =
        AddDatabase::create_with_column_families(&mut env, "db", DatabaseOptions::new(), cfs)
            .unwrap();
    let wo = WriteOptions::new();
    let ro = ReadOptions::new();

    db.put_cf(&wo, "default", b"a", b"1").unwrap();
    db.put_cf(&wo, "default", b"z", b"bad").unwrap();
    db.merge_cf(&wo, "default", b"z", b"worse").unwrap();

    let mut cursor = db.get_column_family("default").unwrap().iter(&ro).unwrap();
    let first = cursor.next().unwrap().unwrap();
    assert_eq!(first.key, b"a".to_vec());
    assert!(matches!(cursor.next(), Err(Error::IterationFailure)));
    // The failure is terminal, not followed by normal exhaustion.
    assert!(matches!(cursor.next(), Err(Error::IterationFailure)));
}

#[test]
fn reopen_preserves_data() {
    let mut env = Env::new();
    let wo = WriteOptions::new();
    let ro = ReadOptions::new();

    let mut db =
        PlainDatabase::create(&mut env, "db", DatabaseOptions::new(), PlainCfOptions::new())
            .unwrap();
    db.put(&wo, b"k", b"v").unwrap();
    db.close(&mut env);

    // `create` on an existing path fails; `open` on a missing path fails.
    assert!(matches!(
        PlainDatabase::create(&mut env, "db", DatabaseOptions::new(), PlainCfOptions::new()),
        Err(Error::OpenConflict)
    ));
    assert!(matches!(
        PlainDatabase::open(&mut env, "missing", DatabaseOptions::new(), PlainCfOptions::new()),
        Err(Error::OpenConflict)
    ));

    let reopened =
        PlainDatabase::open(&mut env, "db", DatabaseOptions::new(), PlainCfOptions::new())
            .unwrap();
    assert_eq!(reopened.get(&ro, b"k").unwrap().unwrap(), b"v".to_vec());
}

#[test]
fn reopen_with_wrong_column_families_fails() {
    let mut env = Env::new();
    let cfs = vec![
        ("default".to_string(), PlainCfOptions::new()),
        ("extra".to_string(), PlainCfOptions::new()),
    ];
    let db =
        PlainDatabase::create_with_column_families(&mut env, "db", DatabaseOptions::new(), cfs)
            .unwrap();
    db.close(&mut env);
    // Opening with only the default column family leaves `extra` unopened.
    assert!(
        PlainDatabase::open(&mut env, "db", DatabaseOptions::new(), PlainCfOptions::new())
            .is_err()
    );
}

#[test]
fn merge_fold_equals_direct_fold() {
    // put 1, merge 1, 2, 3: the value equals the direct left fold of the
    // operands onto the base value through the associative merge function.
    let mut env = Env::new();
    let mut options = AddCfOptions::new();
    options.set_merge_operator("add", AddMergeOperator);
    let cfs = vec![("default".to_string(), options)];
    let mut db =
        AddDatabase::create_with_column_families(&mut env, "db", DatabaseOptions::new(), cfs)
            .unwrap();
    let wo = WriteOptions::new();
    let ro = ReadOptions::new();

    let operands =
        vec![AddMergeOperator::write_u64(1), AddMergeOperator::write_u64(2), AddMergeOperator::write_u64(3)];
    db.put_cf(&wo, "default", b"k", AddMergeOperator::write_u64(1).as_slice()).unwrap();
    for operand in operands.iter() {
        db.merge_cf(&wo, "default", b"k", operand.as_slice()).unwrap();
    }

    let mut direct = AddMergeOperator::write_u64(1);
    for operand in operands.iter() {
        direct = AddMergeOperator.merge(b"k", direct, operand.as_slice()).unwrap();
    }
    assert_eq!(
        db.get_column_family("default").unwrap().get(&ro, b"k").unwrap().unwrap(),
        direct
    );
    assert_eq!(direct, AddMergeOperator::write_u64(7));
}

#[test]
fn full_and_partial_merge_shapes() {
    let operands = Operands::new(vec![b"b".to_vec(), b"c".to_vec()]);
    assert_eq!(
        ConcatMergeOperator.full_merge(b"k", Some(b"a"), operands).unwrap(),
        b"abc".to_vec()
    );
    let operands = Operands::new(vec![b"b".to_vec(), b"c".to_vec()]);
    assert_eq!(ConcatMergeOperator.partial_merge(b"k", operands).unwrap(), b"bc".to_vec());
    let operands = Operands::new(vec![b"x".to_vec(), b"y".to_vec()]);
    assert_eq!(ConcatMergeOperator.full_merge(b"k", None, operands).unwrap(), b"xy".to_vec());

    let operands = Operands::new(vec![b"one".to_vec()]);
    assert_eq!(operands.len(), 1);
    assert_eq!(operands.get(0).unwrap().as_slice(), b"one");
    assert!(operands.get(1).is_none());

    // The associative shape lifted into the full shape, by hand.
    let operands = Operands::new(vec![
        AddMergeOperator::write_u64(2),
        AddMergeOperator::write_u64(3),
    ]);
    let base = AddMergeOperator::write_u64(1);
    let folded = AddMergeOperator.full_merge(b"k", Some(base.as_slice()), operands).unwrap();
    assert_eq!(folded, AddMergeOperator::write_u64(6));
}

#[test]
fn big_endian_codec_is_exact() {
    assert_eq!(
        AddMergeOperator::write_u64(0x0102030405060708),
        vec![1u8, 2, 3, 4, 5, 6, 7, 8]
    );
    assert_eq!(AddMergeOperator::write_u64(0), vec![0u8; 8]);
    assert_eq!(AddMergeOperator::read_u64(&[1u8, 2, 3, 4, 5, 6, 7, 8]).unwrap(), 0x0102030405060708);
    assert_eq!(AddMergeOperator::read_u64(b"short"), None);
    assert_eq!(
        AddMergeOperator::read_u64(AddMergeOperator::write_u64(u64::MAX).as_slice()).unwrap(),
        u64::MAX
    );
    // Addition wraps modulo 2^64, as unsigned 64-bit machine addition does.
    let a = AddMergeOperator::write_u64(u64::MAX);
    let b = AddMergeOperator::write_u64(1);
    assert_eq!(
        AddMergeOperator.merge(b"k", a, b.as_slice()).unwrap(),
        AddMergeOperator::write_u64(0)
    );
    let c = AddMergeOperator::write_u64(u64::MAX);
    let d = AddMergeOperator::write_u64(3);
    assert_eq!(
        AddMergeOperator.merge(b"k", c, d.as_slice()).unwrap(),
        AddMergeOperator::write_u64(2)
    );
    // A value shorter than eight bytes still fails the merge.
    assert!(AddMergeOperator.merge(b"k", b"short".to_vec(), b"12345678").is_none());
}

#[test]
fn comparators_order_keys() {
    let c = BytewiseComparator;
    assert!(matches!(c.compare(b"a", b"b"), KeyOrdering::Less));
    assert!(matches!(c.compare(b"b", b"a"), KeyOrdering::Greater));
    assert!(matches!(c.compare(b"ab", b"ab"), KeyOrdering::Equal));
    assert!(matches!(c.compare(b"a", b"ab"), KeyOrdering::Less));
    let r = ReverseComparator(BytewiseComparator);
    assert!(matches!(r.compare(b"a", b"b"), KeyOrdering::Greater));
    assert!(matches!(r.compare(b"a", b"ab"), KeyOrdering::Greater));
    assert!(matches!(r.compare(b"ab", b"ab"), KeyOrdering::Equal));
}

#[test]
fn batch_count_and_clear() {
    let mut env = Env::new();
    let db = plain_db(&mut env, "db");
    let mut batch = WriteBatch::new();
    assert_eq!(batch.count(), 0);
    batch.put(db.get_column_family("default").unwrap(), b"a", b"1");
    batch.merge(db.get_column_family("default").unwrap(), b"a", b"2");
    batch.delete(db.get_column_family("default").unwrap(), b"a");
    assert_eq!(batch.count(), 3);
    batch.clear();
    assert_eq!(batch.count(), 0);
}
