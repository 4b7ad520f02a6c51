//! A safe access layer over an embedded, ordered key-value storage engine.
//!
//! The store is partitioned into named column families, each an independently
//! keyed and independently ordered map from byte-string keys to byte-string
//! values.  Reads, writes, deletions, staged merges, atomic write batches and
//! ordered iteration are all specified and verified against a mathematical
//! model of the store:
//!
//! * [`comparator`] defines the three-way key orders a column family may use
//!   and proves the laws (totality, transitivity, agreement with equality)
//!   that the rest of the crate relies on;
//! * [`merge`] defines the merge-operator extension point, and the lifting of
//!   the simpler associative form into the full form;
//! * [`merge_operators`] supplies the stock concatenation and big-endian
//!   addition operators;
//! * [`columnfamily`] holds one column family's data with its ordering
//!   invariant, and carries the staged-merge read semantics;
//! * [`iterator`] is the forward, single-pass cursor over a column family;
//! * [`database`] composes column families into a store, with atomic batch
//!   writes and create/open/close against an explicit environment;
//! * [`options`] carries the configuration handed to the engine at open time.

use vstd::prelude::*;

pub mod columnfamily;
pub mod comparator;
pub mod database;
pub mod iterator;
pub mod merge;
pub mod merge_operators;
pub mod options;

pub use columnfamily::ColumnFamily;
pub use comparator::BytewiseComparator;
pub use comparator::Comparator;
pub use comparator::KeyOrdering;
pub use comparator::ReverseComparator;
pub use database::Database;
pub use database::Env;
pub use database::WriteBatch;
pub use iterator::KeyValue;
pub use iterator::KeyValues;
pub use merge::AssociativeMergeOperator;
pub use merge::MergeOperator;
pub use merge::Operands;
pub use merge_operators::AddMergeOperator;
pub use merge_operators::ConcatMergeOperator;
pub use options::ColumnFamilyOptions;
pub use options::DatabaseOptions;
pub use options::ReadOptions;
pub use options::WriteOptions;

verus! {

/// The failures a store operation can report.
///
/// Every fallible public operation distinguishes success with a value,
/// success with an absent value (lookups only) and failure with a reason.
#[derive(Debug)]
pub enum Error {
    /// A `create` found the path already occupied, or an `open` found nothing
    /// at the path.
    OpenConflict,
    /// An operation named a column family the store does not have.
    ColumnFamilyNotFound,
    /// The engine reported a failure, carried verbatim.
    EngineFailure(String),
    /// A merge callable reported failure while folding staged operands.
    MergeFailure,
    /// The cursor hit a failure mid-scan, distinct from normal exhaustion.
    IterationFailure,
}

} // verus!
