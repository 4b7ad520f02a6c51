//! Configuration handed to the engine when a store, a read or a write is
//! set up.
//!
//! Option setters are mechanical field writes; the flags that matter to the
//! open protocol (`error_if_exists`, `create_if_missing`,
//! `create_missing_column_families`) are set by [`crate::database::Database`]
//! itself according to whether the caller asked to create or to open.

use vstd::prelude::*;

use crate::comparator::Comparator;
use crate::merge::MergeOperator;

verus! {

/// The engine's option record for a store or a column family.
#[derive(Clone, Copy, Debug)]
pub struct EngineOptions {
    /// Fail when asked to open a path that already holds a store.
    pub error_if_exists: bool,
    /// Create the store when nothing exists at the path.
    pub create_if_missing: bool,
    /// Create requested column families the store does not have yet.
    pub create_missing_column_families: bool,
    /// How many background threads the engine may use.
    pub parallelism: i32,
    /// Flush everything to level 0 without automatic compaction.
    pub prepared_for_bulkload: bool,
    /// Memtable budget for level-style compaction, when chosen.
    pub level_style_memtable_budget: Option<u64>,
    /// Memtable budget for universal-style compaction, when chosen.
    pub universal_style_memtable_budget: Option<u64>,
}

/// The engine's defaults: open an existing store, create nothing, one
/// background thread.
pub open spec fn default_engine_options() -> EngineOptions {
    EngineOptions {
        error_if_exists: false,
        create_if_missing: false,
        create_missing_column_families: false,
        parallelism: 1,
        prepared_for_bulkload: false,
        level_style_memtable_budget: None,
        universal_style_memtable_budget: None,
    }
}

fn new_engine_options() -> (r: EngineOptions)
    ensures
        r == default_engine_options(),
{
    EngineOptions {
        error_if_exists: false,
        create_if_missing: false,
        create_missing_column_families: false,
        parallelism: 1,
        prepared_for_bulkload: false,
        level_style_memtable_budget: None,
        universal_style_memtable_budget: None,
    }
}

/// Options for opening or creating a store.
pub struct DatabaseOptions {
    /// The underlying engine option record.
    pub raw: EngineOptions,
}

impl DatabaseOptions {
    /// A database options record with the engine's defaults.
    pub fn new() -> (r: DatabaseOptions)
        ensures
            r.raw == default_engine_options(),
    {
        DatabaseOptions { raw: new_engine_options() }
    }

    /// Let the engine use `total_threads` background threads for flush and
    /// compaction.  A good value is the number of cores.
    pub fn increase_parallelism(&mut self, total_threads: i32)
        ensures
            final(self).raw == (EngineOptions { parallelism: total_threads, ..old(self).raw }),
    {
        self.raw.parallelism = total_threads;
    }

    /// Configure the store for bulk writing: all data goes to level 0
    /// without automatic compaction.
    pub fn prepare_for_bulkload(&mut self)
        ensures
            final(self).raw == (EngineOptions { prepared_for_bulkload: true, ..old(self).raw }),
    {
        self.raw.prepared_for_bulkload = true;
    }

    /// The underlying engine option record.
    pub fn options(&self) -> (r: &EngineOptions)
        ensures
            *r == self.raw,
    {
        &self.raw
    }
}

/// Options for opening or creating one column family: scalar engine
/// configuration plus the ordering and merge extension points.
pub struct ColumnFamilyOptions<C: Comparator, M: MergeOperator> {
    /// The underlying engine option record.
    pub raw: EngineOptions,
    /// The configured comparator, under its engine-visible name.
    pub comparator: Option<(String, C)>,
    /// The configured merge operator, under its engine-visible name.
    pub merge_operator: Option<(String, M)>,
}

impl<C: Comparator, M: MergeOperator> ColumnFamilyOptions<C, M> {
    /// The configured comparator, if any.
    pub open spec fn spec_comparator(self) -> Option<C> {
        match self.comparator {
            Some(p) => Some(p.1),
            None => None,
        }
    }

    /// The configured merge operator, if any.
    pub open spec fn spec_merge_operator(self) -> Option<M> {
        match self.merge_operator {
            Some(p) => Some(p.1),
            None => None,
        }
    }

    /// A column family options record with the engine's defaults and no
    /// comparator or merge operator.
    pub fn new() -> (r: ColumnFamilyOptions<C, M>)
        ensures
            r.raw == default_engine_options(),
            r.spec_comparator() is None,
            r.spec_merge_operator() is None,
    {
        ColumnFamilyOptions { raw: new_engine_options(), comparator: None, merge_operator: None }
    }

    /// Use level-style compaction with a memtable of size `memtable_size`.
    pub fn optimize_level_style_compaction(&mut self, memtable_size: u64)
        ensures
            final(self).raw == (EngineOptions {
                level_style_memtable_budget: Some(memtable_size),
                ..old(self).raw
            }),
            final(self).spec_comparator() == old(self).spec_comparator(),
            final(self).spec_merge_operator() == old(self).spec_merge_operator(),
    {
        self.raw.level_style_memtable_budget = Some(memtable_size);
    }

    /// Use universal-style compaction with a memtable of size
    /// `memtable_size`.
    pub fn optimize_universal_style_compaction(&mut self, memtable_size: u64)
        ensures
            final(self).raw == (EngineOptions {
                universal_style_memtable_budget: Some(memtable_size),
                ..old(self).raw
            }),
            final(self).spec_comparator() == old(self).spec_comparator(),
            final(self).spec_merge_operator() == old(self).spec_merge_operator(),
    {
        self.raw.universal_style_memtable_budget = Some(memtable_size);
    }

    /// Use `compare` to define the order of keys in the column family, under
    /// the given comparator name.
    ///
    /// The default is byte-wise lexicographic order.  The caller must ensure
    /// that the comparator supplied here has the same name and orders keys
    /// exactly the same as the one provided to previous opens of the same
    /// store.
    pub fn set_comparator(&mut self, name: &str, compare: C)
        ensures
            final(self).spec_comparator() == Some(compare),
            final(self).spec_merge_operator() == old(self).spec_merge_operator(),
            final(self).raw == old(self).raw,
    {
        self.comparator = Some((name.to_owned(), compare));
    }

    /// Use `merge_operator` to fold staged merges, under the given operator
    /// name.
    ///
    /// A merge on a column family without a merge operator is not supported
    /// and fails.  The caller must ensure that the operator supplied here
    /// has the same name and exactly the same semantics as the one provided
    /// to previous opens of the same store.
    pub fn set_merge_operator(&mut self, name: &str, merge_operator: M)
        ensures
            final(self).spec_merge_operator() == Some(merge_operator),
            final(self).spec_comparator() == old(self).spec_comparator(),
            final(self).raw == old(self).raw,
    {
        self.merge_operator = Some((name.to_owned(), merge_operator));
    }

    /// The underlying engine option record.
    pub fn options(&self) -> (r: &EngineOptions)
        ensures
            *r == self.raw,
    {
        &self.raw
    }
}

/// The engine's option record for one write.
#[derive(Clone, Copy, Debug)]
pub struct EngineWriteOptions {
    /// Sync the write to stable storage before reporting completion.
    pub sync: bool,
    /// Skip the write-ahead log for this write.
    pub disable_wal: bool,
}

/// Options for writing to a store.
pub struct WriteOptions {
    /// The underlying engine option record.
    pub raw: EngineWriteOptions,
}

impl WriteOptions {
    /// A write options record with the engine's defaults: no sync, write to
    /// the write-ahead log.
    pub fn new() -> (r: WriteOptions)
        ensures
            r.raw == (EngineWriteOptions { sync: false, disable_wal: false }),
    {
        WriteOptions { raw: EngineWriteOptions { sync: false, disable_wal: false } }
    }

    /// Flush the write from the operating system buffer cache before the
    /// write is considered complete.  Slower, but not lost if the machine
    /// crashes.
    pub fn set_sync(&mut self, sync: bool)
        ensures
            final(self).raw == (EngineWriteOptions { sync, ..old(self).raw }),
    {
        self.raw.sync = sync;
    }

    /// Whether writes first go to the write-ahead log.  A write that skips
    /// the log may be lost after a crash.
    pub fn set_write_to_wal(&mut self, write_to_wal: bool)
        ensures
            final(self).raw == (EngineWriteOptions { disable_wal: !write_to_wal, ..old(self).raw }),
    {
        self.raw.disable_wal = !write_to_wal;
    }

    /// The underlying engine option record.
    pub fn options(&self) -> (r: &EngineWriteOptions)
        ensures
            *r == self.raw,
    {
        &self.raw
    }
}

/// The engine's option record for one read.
#[derive(Clone, Copy, Debug)]
pub struct EngineReadOptions {
    /// Verify data read from storage against its checksums.
    pub verify_checksums: bool,
    /// Cache the blocks this read touches.
    pub fill_cache: bool,
}

/// Options for reading from a store.
pub struct ReadOptions {
    /// The underlying engine option record.
    pub raw: EngineReadOptions,
}

impl ReadOptions {
    /// A read options record with the engine's defaults: verify checksums,
    /// fill the cache.
    pub fn new() -> (r: ReadOptions)
        ensures
            r.raw == (EngineReadOptions { verify_checksums: true, fill_cache: true }),
    {
        ReadOptions { raw: EngineReadOptions { verify_checksums: true, fill_cache: true } }
    }

    /// Whether data read from storage is verified against its checksums.
    pub fn set_verify_checksums(&mut self, verify_checksums: bool)
        ensures
            final(self).raw == (EngineReadOptions { verify_checksums, ..old(self).raw }),
    {
        self.raw.verify_checksums = verify_checksums;
    }

    /// Whether blocks read for this operation are cached; bulk scans may
    /// wish not to.
    pub fn set_fill_cache(&mut self, fill_cache: bool)
        ensures
            final(self).raw == (EngineReadOptions { fill_cache, ..old(self).raw }),
    {
        self.raw.fill_cache = fill_cache;
    }

    /// The underlying engine option record.
    pub fn options(&self) -> (r: &EngineReadOptions)
        ensures
            *r == self.raw,
    {
        &self.raw
    }
}

} // verus!
