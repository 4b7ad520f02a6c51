//! The store: named column families opened together at one path, with
//! atomic batch writes and routing of per-column-family operations.
//!
//! The filesystem the engine persists to is modelled by an explicit
//! [`Env`]: a value holding, per path, the column families last written
//! there.  `create` fails when the path is occupied, `open` fails when it is
//! not, and `close` writes a store's data back to its path, so that a later
//! `open` sees it.

use vstd::prelude::*;
use vstd::slice::slice_to_vec;

use crate::columnfamily::{
    entry_views, merged_entry, spec_find, ColumnFamily, Entry, EntryView,
};
use crate::comparator::Comparator;
use crate::merge::MergeOperator;
use crate::options::{ColumnFamilyOptions, DatabaseOptions, WriteOptions};
use crate::Error;

verus! {

/// Whether two strings hold the same characters.
fn string_equal(a: &String, b: &String) -> (r: bool)
    ensures
        r == (a@ == b@),
{
    a.eq(b)
}

/// One column family as persisted at a path: its name and its entries.
pub struct StoredColumnFamily {
    /// The column family's name.
    pub name: String,
    /// Its entries, as last written.
    pub entries: Vec<Entry>,
}

/// The mathematical value of one [`StoredColumnFamily`].
pub struct StoredColumnFamilyView {
    pub name: Seq<char>,
    pub entries: Seq<EntryView>,
}

impl View for StoredColumnFamily {
    type V = StoredColumnFamilyView;

    open spec fn view(&self) -> StoredColumnFamilyView {
        StoredColumnFamilyView { name: self.name@, entries: entry_views(self.entries@) }
    }
}

/// The views of a sequence of stored column families.
pub open spec fn stored_cf_views(s: Seq<StoredColumnFamily>) -> Seq<StoredColumnFamilyView> {
    Seq::new(s.len(), |i: int| s[i]@)
}

/// One store as persisted: its path and its column families.
pub struct StoredStore {
    /// The path the store lives at.
    pub path: String,
    /// The column families last written there.
    pub column_families: Vec<StoredColumnFamily>,
}

/// The mathematical value of one [`StoredStore`].
pub struct StoredStoreView {
    pub path: Seq<char>,
    pub column_families: Seq<StoredColumnFamilyView>,
}

impl View for StoredStore {
    type V = StoredStoreView;

    open spec fn view(&self) -> StoredStoreView {
        StoredStoreView {
            path: self.path@,
            column_families: stored_cf_views(self.column_families@),
        }
    }
}

/// The views of a sequence of stored stores.
pub open spec fn stored_store_views(s: Seq<StoredStore>) -> Seq<StoredStoreView> {
    Seq::new(s.len(), |i: int| s[i]@)
}

/// The column families persisted at `path`, front match first.
pub open spec fn stored_store_at(s: Seq<StoredStoreView>, path: Seq<char>) -> Option<
    Seq<StoredColumnFamilyView>,
>
    decreases s.len(),
{
    if s.len() == 0 {
        None
    } else if s[0].path == path {
        Some(s[0].column_families)
    } else {
        stored_store_at(s.drop_first(), path)
    }
}

/// The entries persisted under `name`, front match first.
pub open spec fn stored_cf_at(s: Seq<StoredColumnFamilyView>, name: Seq<char>) -> Option<
    Seq<EntryView>,
>
    decreases s.len(),
{
    if s.len() == 0 {
        None
    } else if s[0].name == name {
        Some(s[0].entries)
    } else {
        stored_cf_at(s.drop_first(), name)
    }
}

/// When no store sits at `path`, nothing is found.
proof fn lemma_store_at_none(s: Seq<StoredStoreView>, path: Seq<char>)
    requires
        forall|j: int| 0 <= j < s.len() ==> (#[trigger] s[j]).path != path,
    ensures
        stored_store_at(s, path) == None::<Seq<StoredColumnFamilyView>>,
    decreases s.len(),
{
    if s.len() > 0 {
        lemma_store_at_none(s.drop_first(), path);
    }
}

/// When the first store at `path` stands at `i`, it is what is found.
proof fn lemma_store_at_present(s: Seq<StoredStoreView>, path: Seq<char>, i: int)
    requires
        0 <= i < s.len(),
        s[i].path == path,
        forall|j: int| 0 <= j < i ==> (#[trigger] s[j]).path != path,
    ensures
        stored_store_at(s, path) == Some(s[i].column_families),
    decreases i,
{
    if i > 0 {
        lemma_store_at_present(s.drop_first(), path, i - 1);
    }
}

/// When no stored column family has `name`, nothing is found.
proof fn lemma_stored_cf_at_none(s: Seq<StoredColumnFamilyView>, name: Seq<char>)
    requires
        forall|j: int| 0 <= j < s.len() ==> (#[trigger] s[j]).name != name,
    ensures
        stored_cf_at(s, name) == None::<Seq<EntryView>>,
    decreases s.len(),
{
    if s.len() > 0 {
        lemma_stored_cf_at_none(s.drop_first(), name);
    }
}

/// When the first stored column family named `name` stands at `i`, it is
/// what is found.
proof fn lemma_stored_cf_at_present(s: Seq<StoredColumnFamilyView>, name: Seq<char>, i: int)
    requires
        0 <= i < s.len(),
        s[i].name == name,
        forall|j: int| 0 <= j < i ==> (#[trigger] s[j]).name != name,
    ensures
        stored_cf_at(s, name) == Some(s[i].entries),
    decreases i,
{
    if i > 0 {
        lemma_stored_cf_at_present(s.drop_first(), name, i - 1);
    }
}

/// The environment the engine persists stores into: one record per path.
///
/// This is the explicit model of the directory tree the engine would own;
/// an empty environment has no store anywhere.
pub struct Env {
    stores: Vec<StoredStore>,
}

impl View for Env {
    type V = Seq<StoredStoreView>;

    closed spec fn view(&self) -> Seq<StoredStoreView> {
        stored_store_views(self.stores@)
    }
}

impl Env {
    /// Paths are not stored twice.
    pub closed spec fn wf(self) -> bool {
        forall|i: int, j: int|
            #![trigger self@[i], self@[j]]
            0 <= i < j < self@.len() ==> self@[i].path != self@[j].path
    }

    /// An environment with no store at any path.
    pub fn new() -> (r: Env)
        ensures
            r.wf(),
            r@ == Seq::<StoredStoreView>::empty(),
    {
        let r = Env { stores: Vec::new() };
        proof {
            assert(r@ =~= Seq::<StoredStoreView>::empty());
        }
        r
    }

    /// The index of the store at `path`, if one exists.
    fn store_index(&self, path: &String) -> (r: Option<usize>)
        ensures
            match r {
                Some(i) => i < self@.len() && self@[i as int].path == path@ && stored_store_at(
                    self@,
                    path@,
                ) == Some(self@[i as int].column_families),
                None => stored_store_at(self@, path@) is None,
            },
    {
        let n = self.stores.len();
        let mut i: usize = 0;
        while i < n
            invariant
                n == self@.len(),
                i <= n,
                forall|j: int| 0 <= j < i ==> (#[trigger] self@[j]).path != path@,
            decreases n - i,
        {
            if string_equal(&self.stores[i].path, path) {
                proof {
                    lemma_store_at_present(self@, path@, i as int);
                }
                return Some(i);
            }
            i = i + 1;
        }
        proof {
            lemma_store_at_none(self@, path@);
        }
        None
    }
}

/// The index of the first stored column family named `name`.
fn stored_cf_index(cfs: &Vec<StoredColumnFamily>, name: &String) -> (r: Option<usize>)
    ensures
        match r {
            Some(i) => i < cfs@.len() && stored_cf_views(cfs@)[i as int].name == name@
                && stored_cf_at(stored_cf_views(cfs@), name@) == Some(
                stored_cf_views(cfs@)[i as int].entries,
            ),
            None => stored_cf_at(stored_cf_views(cfs@), name@) is None,
        },
{
    let n = cfs.len();
    let mut i: usize = 0;
    while i < n
        invariant
            n == cfs@.len(),
            i <= n,
            forall|j: int| 0 <= j < i ==> (#[trigger] stored_cf_views(cfs@)[j]).name != name@,
        decreases n - i,
    {
        if string_equal(&cfs[i].name, name) {
            proof {
                lemma_stored_cf_at_present(stored_cf_views(cfs@), name@, i as int);
            }
            return Some(i);
        }
        i = i + 1;
    }
    proof {
        lemma_stored_cf_at_none(stored_cf_views(cfs@), name@);
    }
    None
}

/// Copy a list of entries.
fn duplicate_entries(entries: &Vec<Entry>) -> (r: Vec<Entry>)
    ensures
        entry_views(r@) == entry_views(entries@),
{
    let mut r: Vec<Entry> = Vec::new();
    let n = entries.len();
    let mut i: usize = 0;
    while i < n
        invariant
            n == entries@.len(),
            i <= n,
            r@.len() == i,
            forall|j: int| 0 <= j < i ==> (#[trigger] r@[j])@ == entries@[j]@,
        decreases n - i,
    {
        r.push(entries[i].duplicate());
        i = i + 1;
    }
    proof {
        assert(entry_views(r@) =~= entry_views(entries@));
    }
    r
}

/// The first column family named `name` among `s`, front match first.
pub open spec fn find_cf<C: Comparator, M: MergeOperator>(
    s: Seq<ColumnFamily<C, M>>,
    name: Seq<char>,
) -> Option<ColumnFamily<C, M>>
    decreases s.len(),
{
    if s.len() == 0 {
        None
    } else if s[0].spec_name() == name {
        Some(s[0])
    } else {
        find_cf(s.drop_first(), name)
    }
}

/// When no column family has `name`, nothing is found.
pub proof fn lemma_find_cf_none<C: Comparator, M: MergeOperator>(
    s: Seq<ColumnFamily<C, M>>,
    name: Seq<char>,
)
    requires
        forall|j: int| 0 <= j < s.len() ==> (#[trigger] s[j]).spec_name() != name,
    ensures
        find_cf(s, name) == None::<ColumnFamily<C, M>>,
    decreases s.len(),
{
    if s.len() > 0 {
        lemma_find_cf_none(s.drop_first(), name);
    }
}

/// When the first column family named `name` stands at `i`, it is what is
/// found.
pub proof fn lemma_find_cf_present<C: Comparator, M: MergeOperator>(
    s: Seq<ColumnFamily<C, M>>,
    name: Seq<char>,
    i: int,
)
    requires
        0 <= i < s.len(),
        s[i].spec_name() == name,
        forall|j: int| 0 <= j < i ==> (#[trigger] s[j]).spec_name() != name,
    ensures
        find_cf(s, name) == Some(s[i]),
    decreases i,
{
    if i > 0 {
        lemma_find_cf_present(s.drop_first(), name, i - 1);
    }
}

/// One operation staged in a write batch.
pub enum BatchOp {
    Put { column_family: String, key: Vec<u8>, value: Vec<u8> },
    Delete { column_family: String, key: Vec<u8> },
    Merge { column_family: String, key: Vec<u8>, value: Vec<u8> },
}

/// The mathematical value of one staged operation.
pub enum BatchOpView {
    Put { column_family: Seq<char>, key: Seq<u8>, value: Seq<u8> },
    Delete { column_family: Seq<char>, key: Seq<u8> },
    Merge { column_family: Seq<char>, key: Seq<u8>, value: Seq<u8> },
}

impl View for BatchOp {
    type V = BatchOpView;

    open spec fn view(&self) -> BatchOpView {
        match self {
            BatchOp::Put { column_family, key, value } => BatchOpView::Put {
                column_family: column_family@,
                key: key@,
                value: value@,
            },
            BatchOp::Delete { column_family, key } => BatchOpView::Delete {
                column_family: column_family@,
                key: key@,
            },
            BatchOp::Merge { column_family, key, value } => BatchOpView::Merge {
                column_family: column_family@,
                key: key@,
                value: value@,
            },
        }
    }
}

/// The column family one staged operation addresses.
pub open spec fn op_cf(op: BatchOpView) -> Seq<char> {
    match op {
        BatchOpView::Put { column_family, .. } => column_family,
        BatchOpView::Delete { column_family, .. } => column_family,
        BatchOpView::Merge { column_family, .. } => column_family,
    }
}

/// What one staged operation leaves at key `k` of the column family named
/// `cf_name`, given what was there.
pub open spec fn apply_op_at(
    op: BatchOpView,
    cf_name: Seq<char>,
    k: Seq<u8>,
    prev: Option<EntryView>,
) -> Option<EntryView> {
    match op {
        BatchOpView::Put { column_family, key, value } => if column_family == cf_name && key
            == k {
            Some(EntryView { key: k, base: Some(value), operands: Seq::empty() })
        } else {
            prev
        },
        BatchOpView::Delete { column_family, key } => if column_family == cf_name && key == k {
            None
        } else {
            prev
        },
        BatchOpView::Merge { column_family, key, value } => if column_family == cf_name && key
            == k {
            Some(merged_entry(prev, k, value))
        } else {
            prev
        },
    }
}

/// What a sequence of staged operations, applied front first, leaves at key
/// `k` of the column family named `cf_name`.
pub open spec fn apply_ops_at(
    ops: Seq<BatchOpView>,
    cf_name: Seq<char>,
    k: Seq<u8>,
    prev: Option<EntryView>,
) -> Option<EntryView>
    decreases ops.len(),
{
    if ops.len() == 0 {
        prev
    } else {
        apply_ops_at(ops.drop_first(), cf_name, k, apply_op_at(ops[0], cf_name, k, prev))
    }
}

/// Appending one operation to a batch applies it last.
proof fn lemma_apply_ops_push(
    ops: Seq<BatchOpView>,
    op: BatchOpView,
    cf_name: Seq<char>,
    k: Seq<u8>,
    prev: Option<EntryView>,
)
    ensures
        apply_ops_at(ops.push(op), cf_name, k, prev) == apply_op_at(
            op,
            cf_name,
            k,
            apply_ops_at(ops, cf_name, k, prev),
        ),
    decreases ops.len(),
{
    if ops.len() == 0 {
        assert(ops.push(op)[0] == op);
        assert(ops.push(op).drop_first() =~= Seq::<BatchOpView>::empty());
        assert(apply_ops_at(Seq::<BatchOpView>::empty(), cf_name, k, apply_op_at(op, cf_name, k, prev))
            == apply_op_at(op, cf_name, k, prev));
    } else {
        let next = apply_op_at(ops[0], cf_name, k, prev);
        assert(ops.push(op)[0] == ops[0]);
        assert(ops.push(op).drop_first() =~= ops.drop_first().push(op));
        assert(apply_ops_at(ops.push(op), cf_name, k, prev) == apply_ops_at(
            ops.drop_first().push(op),
            cf_name,
            k,
            next,
        ));
        lemma_apply_ops_push(ops.drop_first(), op, cf_name, k, next);
        assert(apply_ops_at(ops, cf_name, k, prev) == apply_ops_at(
            ops.drop_first(),
            cf_name,
            k,
            next,
        ));
    }
}

/// Whether one staged operation can be applied to these column families: the
/// named column family exists, and a merge finds a merge operator there.
pub open spec fn op_valid<C: Comparator, M: MergeOperator>(
    cfs: Seq<ColumnFamily<C, M>>,
    op: BatchOpView,
) -> bool {
    match find_cf(cfs, op_cf(op)) {
        Some(cf) => (op is Merge ==> cf.spec_merge_operator() is Some),
        None => false,
    }
}

/// Whether a whole batch can be applied to these column families.
pub open spec fn batch_valid<C: Comparator, M: MergeOperator>(
    cfs: Seq<ColumnFamily<C, M>>,
    ops: Seq<BatchOpView>,
) -> bool {
    forall|i: int| 0 <= i < ops.len() ==> op_valid(cfs, #[trigger] ops[i])
}

/// A client-assembled group of put, delete and merge operations, committed
/// as one atomic unit by [`Database::write`].
///
/// Mutable until committed; a batch is consumed by the commit and must be
/// assembled anew to be reused.
pub struct WriteBatch {
    ops: Vec<BatchOp>,
}

impl View for WriteBatch {
    type V = Seq<BatchOpView>;

    closed spec fn view(&self) -> Seq<BatchOpView> {
        Seq::new(self.ops@.len(), |i: int| self.ops@[i]@)
    }
}

impl WriteBatch {
    /// An empty batch.
    pub fn new() -> (r: WriteBatch)
        ensures
            r@ == Seq::<BatchOpView>::empty(),
    {
        let r = WriteBatch { ops: Vec::new() };
        proof {
            assert(r@ =~= Seq::<BatchOpView>::empty());
        }
        r
    }

    /// Stage a put of `val` at `key` in `column_family`.
    pub fn put<C: Comparator, M: MergeOperator>(
        &mut self,
        column_family: &ColumnFamily<C, M>,
        key: &[u8],
        val: &[u8],
    )
        ensures
            final(self)@ == old(self)@.push(
                BatchOpView::Put {
                    column_family: column_family.spec_name(),
                    key: key@,
                    value: val@,
                },
            ),
    {
        let ghost before = self@;
        self.ops.push(
            BatchOp::Put {
                column_family: column_family.name().clone(),
                key: slice_to_vec(key),
                value: slice_to_vec(val),
            },
        );
        proof {
            assert(self@ =~= before.push(
                BatchOpView::Put {
                    column_family: column_family.spec_name(),
                    key: key@,
                    value: val@,
                },
            ));
        }
    }

    /// Stage a deletion of `key` in `column_family`.
    pub fn delete<C: Comparator, M: MergeOperator>(
        &mut self,
        column_family: &ColumnFamily<C, M>,
        key: &[u8],
    )
        ensures
            final(self)@ == old(self)@.push(
                BatchOpView::Delete { column_family: column_family.spec_name(), key: key@ },
            ),
    {
        let ghost before = self@;
        self.ops.push(
            BatchOp::Delete {
                column_family: column_family.name().clone(),
                key: slice_to_vec(key),
            },
        );
        proof {
            assert(self@ =~= before.push(
                BatchOpView::Delete { column_family: column_family.spec_name(), key: key@ },
            ));
        }
    }

    /// Stage a merge of `val` at `key` in `column_family`.
    pub fn merge<C: Comparator, M: MergeOperator>(
        &mut self,
        column_family: &ColumnFamily<C, M>,
        key: &[u8],
        val: &[u8],
    )
        ensures
            final(self)@ == old(self)@.push(
                BatchOpView::Merge {
                    column_family: column_family.spec_name(),
                    key: key@,
                    value: val@,
                },
            ),
    {
        let ghost before = self@;
        self.ops.push(
            BatchOp::Merge {
                column_family: column_family.name().clone(),
                key: slice_to_vec(key),
                value: slice_to_vec(val),
            },
        );
        proof {
            assert(self@ =~= before.push(
                BatchOpView::Merge {
                    column_family: column_family.spec_name(),
                    key: key@,
                    value: val@,
                },
            ));
        }
    }

    /// How many operations are staged.
    pub fn count(&self) -> (r: i32)
        requires
            self@.len() < 0x8000_0000,
        ensures
            r as int == self@.len(),
    {
        self.ops.len() as i32
    }

    /// Remove every staged operation, so the batch can be assembled anew.
    pub fn clear(&mut self)
        ensures
            final(self)@ == Seq::<BatchOpView>::empty(),
    {
        self.ops = Vec::new();
        proof {
            assert(self@ =~= Seq::<BatchOpView>::empty());
        }
    }
}

/// A store handle: the column families opened at one path.
pub struct Database<C: Comparator, M: MergeOperator> {
    path: String,
    column_families: Vec<ColumnFamily<C, M>>,
}

impl<C: Comparator, M: MergeOperator> Database<C, M> {
    /// The path this store was created or opened at.
    pub closed spec fn spec_path(self) -> Seq<char> {
        self.path@
    }

    /// The store's column families, in the order they were requested.
    pub closed spec fn spec_cfs(self) -> Seq<ColumnFamily<C, M>> {
        self.column_families@
    }

    /// Well-formed: every column family is, and names are unique.
    pub open spec fn wf(self) -> bool {
        &&& forall|i: int| 0 <= i < self.spec_cfs().len() ==> (#[trigger] self.spec_cfs()[i]).wf()
        &&& forall|i: int, j: int|
            #![trigger self.spec_cfs()[i], self.spec_cfs()[j]]
            0 <= i < j < self.spec_cfs().len() ==> self.spec_cfs()[i].spec_name()
                != self.spec_cfs()[j].spec_name()
    }

    /// The column family named `column_family`, if the store has one.
    pub fn get_column_family(&self, column_family: &str) -> (r: Option<&ColumnFamily<C, M>>)
        ensures
            match r {
                Some(cf) => find_cf(self.spec_cfs(), column_family@) == Some(*cf),
                None => find_cf(self.spec_cfs(), column_family@) is None,
            },
    {
        let name: String = column_family.to_owned();
        match self.cf_index(&name) {
            Some(i) => Some(&self.column_families[i]),
            None => None,
        }
    }

    /// All column families, in the order they were requested at open time.
    pub fn get_column_families(&self) -> (r: &Vec<ColumnFamily<C, M>>)
        ensures
            r@ == self.spec_cfs(),
    {
        &self.column_families
    }

    /// The index of the column family named `name`, if any.
    fn cf_index(&self, name: &String) -> (r: Option<usize>)
        ensures
            match r {
                Some(i) => i < self.spec_cfs().len() && self.spec_cfs()[i as int].spec_name()
                    == name@ && find_cf(self.spec_cfs(), name@) == Some(self.spec_cfs()[i as int]),
                None => find_cf(self.spec_cfs(), name@) is None,
            },
    {
        let n = self.column_families.len();
        let mut i: usize = 0;
        while i < n
            invariant
                n == self.spec_cfs().len(),
                i <= n,
                forall|j: int|
                    0 <= j < i ==> (#[trigger] self.spec_cfs()[j]).spec_name() != name@,
            decreases n - i,
        {
            if string_equal(self.column_families[i].name(), name) {
                proof {
                    lemma_find_cf_present(self.spec_cfs(), name@, i as int);
                }
                return Some(i);
            }
            i = i + 1;
        }
        proof {
            lemma_find_cf_none(self.spec_cfs(), name@);
        }
        None
    }

    /// Check that every staged operation can be applied: its column family
    /// exists, and merges have a merge operator there.
    fn validate_batch(&self, write_batch: &WriteBatch) -> (r: Result<(), Error>)
        ensures
            r is Ok <==> batch_valid(self.spec_cfs(), write_batch@),
            r matches Err(e) ==> ((e matches Error::ColumnFamilyNotFound && exists|i: int|
                0 <= i < write_batch@.len() && find_cf(self.spec_cfs(), op_cf(#[trigger] write_batch@[i]))
                    is None) || (e matches Error::EngineFailure(_) && exists|i: int|
                0 <= i < write_batch@.len() && (#[trigger] write_batch@[i]) is Merge
                    && !op_valid(self.spec_cfs(), write_batch@[i]))),
    {
        let m = write_batch.ops.len();
        let mut idx: usize = 0;
        while idx < m
            invariant
                m == write_batch@.len(),
                idx <= m,
                forall|j: int| 0 <= j < idx ==> op_valid(self.spec_cfs(), #[trigger] write_batch@[j]),
            decreases m - idx,
        {
            let (name, is_merge): (&String, bool) = match &write_batch.ops[idx] {
                BatchOp::Put { column_family, .. } => (column_family, false),
                BatchOp::Delete { column_family, .. } => (column_family, false),
                BatchOp::Merge { column_family, .. } => (column_family, true),
            };
            match self.cf_index(name) {
                None => {
                    proof {
                        assert(op_cf(write_batch@[idx as int]) == name@);
                        assert(!op_valid(self.spec_cfs(), write_batch@[idx as int]));
                    }
                    return Err(Error::ColumnFamilyNotFound);
                },
                Some(j) => {
                    if is_merge && !self.column_families[j].has_merge_operator() {
                        proof {
                            assert(op_cf(write_batch@[idx as int]) == name@);
                            assert(!op_valid(self.spec_cfs(), write_batch@[idx as int]));
                        }
                        return Err(err_merge_in_batch_unsupported());
                    }
                    proof {
                        assert(op_cf(write_batch@[idx as int]) == name@);
                        assert(op_valid(self.spec_cfs(), write_batch@[idx as int]));
                    }
                },
            }
            idx = idx + 1;
        }
        Ok(())
    }

    /// Commit a batch atomically: either every staged operation becomes
    /// visible, in order, or (when the batch names a column family the store
    /// does not have, or stages a merge where no operator is configured)
    /// none does and the store is unchanged.
    pub fn write(&mut self, options: &WriteOptions, write_batch: WriteBatch) -> (r: Result<
        (),
        Error,
    >)
        requires
            old(self).wf(),
        ensures
            final(self).wf(),
            r is Ok <==> batch_valid(old(self).spec_cfs(), write_batch@),
            r is Err ==> *final(self) == *old(self),
            r is Ok ==> final(self).spec_path() == old(self).spec_path()
                && final(self).spec_cfs().len() == old(self).spec_cfs().len() && (forall|i: int|
                0 <= i < old(self).spec_cfs().len() ==> (#[trigger] final(self).spec_cfs()[i]).same_config(
                    old(self).spec_cfs()[i],
                )) && (forall|i: int, k: Seq<u8>|
                0 <= i < old(self).spec_cfs().len() ==> #[trigger] spec_find(
                    final(self).spec_cfs()[i]@,
                    k,
                ) == apply_ops_at(
                    write_batch@,
                    old(self).spec_cfs()[i].spec_name(),
                    k,
                    spec_find(old(self).spec_cfs()[i]@, k),
                )),
            r matches Err(e) ==> ((e matches Error::ColumnFamilyNotFound && exists|i: int|
                0 <= i < write_batch@.len() && find_cf(
                    old(self).spec_cfs(),
                    op_cf(#[trigger] write_batch@[i]),
                ) is None) || (e matches Error::EngineFailure(_) && exists|i: int|
                0 <= i < write_batch@.len() && (#[trigger] write_batch@[i]) is Merge && !op_valid(
                    old(self).spec_cfs(),
                    write_batch@[i],
                ))),
    {
        match self.validate_batch(&write_batch) {
            Err(e) => {
                return Err(e);
            },
            Ok(()) => {
            },
        }
        let ghost pre = old(self).spec_cfs();
        let ghost ops = write_batch@;
        let m = write_batch.ops.len();
        let mut idx: usize = 0;
        proof {
            assert(ops.take(0) =~= Seq::<BatchOpView>::empty());
        }
        while idx < m
            invariant
                m == ops.len(),
                ops == write_batch@,
                idx <= m,
                batch_valid(pre, ops),
                pre == old(self).spec_cfs(),
                old(self).wf(),
                self.wf(),
                self.spec_path() == old(self).spec_path(),
                self.spec_cfs().len() == pre.len(),
                forall|i: int|
                    0 <= i < pre.len() ==> (#[trigger] self.spec_cfs()[i]).same_config(pre[i]),
                forall|i: int, k: Seq<u8>|
                    0 <= i < pre.len() ==> #[trigger] spec_find(self.spec_cfs()[i]@, k)
                        == apply_ops_at(
                        ops.take(idx as int),
                        pre[i].spec_name(),
                        k,
                        spec_find(pre[i]@, k),
                    ),
            decreases m - idx,
        {
            let ghost mid = self.spec_cfs();
            let name: &String = match &write_batch.ops[idx] {
                BatchOp::Put { column_family, .. } => column_family,
                BatchOp::Delete { column_family, .. } => column_family,
                BatchOp::Merge { column_family, .. } => column_family,
            };
            let ghost opname = name@;
            let j = match self.cf_index(name) {
                Some(j) => j,
                None => {
                    // Unreachable: validation found this column family, and
                    // applying a batch never renames or removes one.
                    proof {
                        assert(op_valid(pre, ops[idx as int]));
                        lemma_find_cf_same_names(pre, mid, opname);
                        assert(false);
                    }
                    return Err(Error::ColumnFamilyNotFound);
                },
            };
            proof {
                assert(op_cf(ops[idx as int]) == opname);
                assert(op_valid(pre, ops[idx as int]));
                assert(mid[j as int].spec_name() == opname);
                assert(mid[j as int].same_config(pre[j as int]));
                lemma_find_cf_at_index(pre, j as int, opname);
            }
            let outcome: Result<(), Error> = match &write_batch.ops[idx] {
                BatchOp::Put { key, value, .. } => self.column_families[j].put(
                    options,
                    key.as_slice(),
                    value.as_slice(),
                ),
                BatchOp::Delete { key, .. } => self.column_families[j].delete(
                    options,
                    key.as_slice(),
                ),
                BatchOp::Merge { key, value, .. } => self.column_families[j].merge(
                    options,
                    key.as_slice(),
                    value.as_slice(),
                ),
            };
            match outcome {
                Ok(()) => {
                },
                Err(_) => {
                    // Unreachable: puts and deletions never fail, and
                    // validation checked the operator every merge needs.
                    proof {
                        assert(false);
                    }
                    return Err(Error::MergeFailure);
                },
            }
            proof {
                let cur = self.spec_cfs();
                let op = ops[idx as int];
                assert(ops.take(idx as int + 1) =~= ops.take(idx as int).push(op));
                assert forall|i: int| 0 <= i < pre.len() implies (#[trigger] cur[i]).same_config(
                    pre[i],
                ) && cur[i].wf() by {
                    if i != j {
                        assert(cur[i] == mid[i]);
                    }
                }
                assert forall|i: int, k: Seq<u8>| 0 <= i < pre.len() implies #[trigger] spec_find(
                    cur[i]@,
                    k,
                ) == apply_ops_at(
                    ops.take(idx as int + 1),
                    pre[i].spec_name(),
                    k,
                    spec_find(pre[i]@, k),
                ) by {
                    lemma_apply_ops_push(
                        ops.take(idx as int),
                        op,
                        pre[i].spec_name(),
                        k,
                        spec_find(pre[i]@, k),
                    );
                    if i != j {
                        assert(cur[i] == mid[i]);
                        assert(pre[i].spec_name() != pre[j as int].spec_name());
                    }
                }
            }
            idx = idx + 1;
        }
        proof {
            assert(ops.take(m as int) =~= ops);
        }
        Ok(())
    }
}

impl<C: Comparator, M: MergeOperator> Database<C, M> {
    /// Write `val` at `key` in the column family named `column_family`.
    ///
    /// Fails, changing nothing, exactly when the store has no column family
    /// of that name.  No other column family and no other key changes.
    pub fn put_cf(&mut self, options: &WriteOptions, column_family: &str, key: &[u8], val: &[u8])
        -> (r: Result<(), Error>)
        requires
            old(self).wf(),
        ensures
            final(self).wf(),
            r is Ok <==> find_cf(old(self).spec_cfs(), column_family@) is Some,
            r matches Err(e) ==> (e matches Error::ColumnFamilyNotFound) && *final(self) == *old(
                self,
            ),
            r is Ok ==> final(self).spec_path() == old(self).spec_path()
                && final(self).spec_cfs().len() == old(self).spec_cfs().len() && (forall|i: int|
                0 <= i < old(self).spec_cfs().len() ==> (
                #[trigger] final(self).spec_cfs()[i]).same_config(old(self).spec_cfs()[i]))
                && (forall|i: int, k: Seq<u8>|
                0 <= i < old(self).spec_cfs().len() ==> #[trigger] spec_find(
                    final(self).spec_cfs()[i]@,
                    k,
                ) == (if old(self).spec_cfs()[i].spec_name() == column_family@ && k == key@ {
                    Some(EntryView { key: key@, base: Some(val@), operands: Seq::empty() })
                } else {
                    spec_find(old(self).spec_cfs()[i]@, k)
                })),
    {
        let name: String = column_family.to_owned();
        let j = match self.cf_index(&name) {
            Some(j) => j,
            None => {
                return Err(Error::ColumnFamilyNotFound);
            },
        };
        let ghost pre = self.spec_cfs();
        let res = self.column_families[j].put(options, key, val);
        proof {
            self.lemma_routed_frame(pre, j as int, column_family@);
        }
        res
    }

    /// Remove `key` (and its staged merges) from the column family named
    /// `column_family`.
    ///
    /// Fails, changing nothing, exactly when the store has no column family
    /// of that name.  No other column family and no other key changes.
    pub fn delete_cf(&mut self, options: &WriteOptions, column_family: &str, key: &[u8]) -> (r:
        Result<(), Error>)
        requires
            old(self).wf(),
        ensures
            final(self).wf(),
            r is Ok <==> find_cf(old(self).spec_cfs(), column_family@) is Some,
            r matches Err(e) ==> (e matches Error::ColumnFamilyNotFound) && *final(self) == *old(
                self,
            ),
            r is Ok ==> final(self).spec_path() == old(self).spec_path()
                && final(self).spec_cfs().len() == old(self).spec_cfs().len() && (forall|i: int|
                0 <= i < old(self).spec_cfs().len() ==> (
                #[trigger] final(self).spec_cfs()[i]).same_config(old(self).spec_cfs()[i]))
                && (forall|i: int, k: Seq<u8>|
                0 <= i < old(self).spec_cfs().len() ==> #[trigger] spec_find(
                    final(self).spec_cfs()[i]@,
                    k,
                ) == (if old(self).spec_cfs()[i].spec_name() == column_family@ && k == key@ {
                    None::<EntryView>
                } else {
                    spec_find(old(self).spec_cfs()[i]@, k)
                })),
    {
        let name: String = column_family.to_owned();
        let j = match self.cf_index(&name) {
            Some(j) => j,
            None => {
                return Err(Error::ColumnFamilyNotFound);
            },
        };
        let ghost pre = self.spec_cfs();
        let res = self.column_families[j].delete(options, key);
        proof {
            self.lemma_routed_frame(pre, j as int, column_family@);
        }
        res
    }

    /// Stage a merge operand at `key` in the column family named
    /// `column_family`, to be folded when the key is next read.
    ///
    /// Fails, changing nothing, when the store has no column family of that
    /// name, or when that column family has no merge operator.  No other
    /// column family and no other key changes.
    pub fn merge_cf(&mut self, options: &WriteOptions, column_family: &str, key: &[u8], val: &[u8])
        -> (r: Result<(), Error>)
        requires
            old(self).wf(),
        ensures
            final(self).wf(),
            r is Ok <==> (find_cf(old(self).spec_cfs(), column_family@) matches Some(cf)
                && cf.spec_merge_operator() is Some),
            r matches Err(e) ==> final(self).spec_path() == old(self).spec_path()
                && final(self).spec_cfs() == old(self).spec_cfs() && ((e matches Error::ColumnFamilyNotFound
                && find_cf(old(self).spec_cfs(), column_family@) is None) || (e matches
                Error::EngineFailure(_) && find_cf(old(self).spec_cfs(), column_family@)
                is Some)),
            r is Ok ==> final(self).spec_path() == old(self).spec_path()
                && final(self).spec_cfs().len() == old(self).spec_cfs().len() && (forall|i: int|
                0 <= i < old(self).spec_cfs().len() ==> (
                #[trigger] final(self).spec_cfs()[i]).same_config(old(self).spec_cfs()[i]))
                && (forall|i: int, k: Seq<u8>|
                0 <= i < old(self).spec_cfs().len() ==> #[trigger] spec_find(
                    final(self).spec_cfs()[i]@,
                    k,
                ) == (if old(self).spec_cfs()[i].spec_name() == column_family@ && k == key@ {
                    Some(merged_entry(spec_find(old(self).spec_cfs()[i]@, key@), key@, val@))
                } else {
                    spec_find(old(self).spec_cfs()[i]@, k)
                })),
    {
        let name: String = column_family.to_owned();
        let j = match self.cf_index(&name) {
            Some(j) => j,
            None => {
                return Err(Error::ColumnFamilyNotFound);
            },
        };
        let ghost pre = self.spec_cfs();
        let res = self.column_families[j].merge(options, key, val);
        match res {
            Ok(()) => {
                proof {
                    self.lemma_routed_frame(pre, j as int, column_family@);
                }
                Ok(())
            },
            Err(e) => {
                proof {
                    assert(self.spec_cfs() =~= pre.update(j as int, pre[j as int]));
                    assert(self.spec_cfs() =~= pre);
                }
                Err(e)
            },
        }
    }

    /// After an operation routed to the column family at `j`, every other
    /// column family is untouched, and lookups by name pick out `j`.
    proof fn lemma_routed_frame(self, pre: Seq<ColumnFamily<C, M>>, j: int, name: Seq<char>)
        requires
            0 <= j < pre.len(),
            pre[j].spec_name() == name,
            forall|p: int, q: int|
                #![trigger pre[p], pre[q]]
                0 <= p < q < pre.len() ==> pre[p].spec_name() != pre[q].spec_name(),
            forall|i: int| 0 <= i < pre.len() ==> (#[trigger] pre[i]).wf(),
            self.spec_cfs() == pre.update(j, self.spec_cfs()[j]),
            self.spec_cfs()[j].same_config(pre[j]),
            self.spec_cfs()[j].wf(),
        ensures
            self.wf(),
            self.spec_cfs().len() == pre.len(),
            forall|i: int|
                0 <= i < pre.len() ==> (#[trigger] self.spec_cfs()[i]).same_config(pre[i]),
            forall|i: int|
                0 <= i < pre.len() && i != j ==> #[trigger] self.spec_cfs()[i] == pre[i],
            forall|i: int|
                0 <= i < pre.len() && i != j ==> (#[trigger] pre[i]).spec_name() != name,
    {
        let cur = self.spec_cfs();
        assert forall|i: int| 0 <= i < pre.len() && i != j implies (#[trigger] pre[i]).spec_name()
            != name by {
            if i < j {
                assert(pre[i].spec_name() != pre[j].spec_name());
            } else {
                assert(pre[j].spec_name() != pre[i].spec_name());
            }
        }
    }
}

/// Two sequences of column families with the same names pointwise find a
/// column family under the same names.
proof fn lemma_find_cf_same_names<C: Comparator, M: MergeOperator>(
    s: Seq<ColumnFamily<C, M>>,
    t: Seq<ColumnFamily<C, M>>,
    name: Seq<char>,
)
    requires
        s.len() == t.len(),
        forall|i: int| 0 <= i < s.len() ==> (#[trigger] s[i]).spec_name() == t[i].spec_name(),
    ensures
        (find_cf(s, name) is Some) == (find_cf(t, name) is Some),
    decreases s.len(),
{
    if s.len() > 0 {
        assert(s.drop_first().len() == t.drop_first().len());
        assert forall|i: int| 0 <= i < s.drop_first().len() implies (#[trigger] s.drop_first()[i]).spec_name()
            == t.drop_first()[i].spec_name() by {
            assert(s.drop_first()[i] == s[i + 1]);
            assert(t.drop_first()[i] == t[i + 1]);
        }
        lemma_find_cf_same_names(s.drop_first(), t.drop_first(), name);
    }
}

/// With unique names, the column family at `i` is the one found under its
/// name.
proof fn lemma_find_cf_at_index<C: Comparator, M: MergeOperator>(
    s: Seq<ColumnFamily<C, M>>,
    i: int,
    name: Seq<char>,
)
    requires
        0 <= i < s.len(),
        s[i].spec_name() == name,
        forall|p: int, q: int|
            #![trigger s[p], s[q]]
            0 <= p < q < s.len() ==> s[p].spec_name() != s[q].spec_name(),
    ensures
        find_cf(s, name) == Some(s[i]),
{
    assert forall|j: int| 0 <= j < i implies (#[trigger] s[j]).spec_name() != name by {
        assert(s[j].spec_name() != s[i].spec_name());
    }
    lemma_find_cf_present(s, name, i);
}

/// What `find_cf` finds under a name stands at some index of the sequence.
proof fn lemma_find_cf_unique<C: Comparator, M: MergeOperator>(
    s: Seq<ColumnFamily<C, M>>,
    name: Seq<char>,
)
    requires
        find_cf(s, name) is Some,
    ensures
        exists|i: int|
            0 <= i < s.len() && (#[trigger] s[i]).spec_name() == name && find_cf(s, name) == Some(
                s[i],
            ),
    decreases s.len(),
{
    if s.len() > 0 && s[0].spec_name() != name {
        lemma_find_cf_unique(s.drop_first(), name);
        let i = choose|i: int|
            0 <= i < s.drop_first().len() && (#[trigger] s.drop_first()[i]).spec_name() == name
                && find_cf(s.drop_first(), name) == Some(s.drop_first()[i]);
        assert(s[i + 1] == s.drop_first()[i]);
    }
}

/// A batch whose operations all address other column families leaves a
/// column family's keys as they were: multi-column-family isolation.
pub proof fn lemma_batch_isolation(
    ops: Seq<BatchOpView>,
    cf_name: Seq<char>,
    k: Seq<u8>,
    prev: Option<EntryView>,
)
    requires
        forall|i: int| 0 <= i < ops.len() ==> op_cf(#[trigger] ops[i]) != cf_name,
    ensures
        apply_ops_at(ops, cf_name, k, prev) == prev,
    decreases ops.len(),
{
    if ops.len() > 0 {
        assert(op_cf(ops[0]) != cf_name);
        lemma_batch_isolation(ops.drop_first(), cf_name, k, apply_op_at(ops[0], cf_name, k, prev));
    }
}

/// A store at `path` found nothing means no record has that path.
proof fn lemma_store_at_none_inverse(s: Seq<StoredStoreView>, path: Seq<char>)
    requires
        stored_store_at(s, path) is None,
    ensures
        forall|j: int| 0 <= j < s.len() ==> (#[trigger] s[j]).path != path,
    decreases s.len(),
{
    if s.len() > 0 {
        lemma_store_at_none_inverse(s.drop_first(), path);
        assert forall|j: int| 0 <= j < s.len() implies (#[trigger] s[j]).path != path by {
            if j > 0 {
                assert(s.drop_first()[j - 1] == s[j]);
            }
        }
    }
}

/// A found store has a first index, with no earlier record at the path.
proof fn lemma_store_at_witness(s: Seq<StoredStoreView>, path: Seq<char>)
    requires
        stored_store_at(s, path) is Some,
    ensures
        exists|i: int|
            0 <= i < s.len() && (#[trigger] s[i]).path == path && stored_store_at(s, path)
                == Some(s[i].column_families) && (forall|j: int|
                0 <= j < i ==> (#[trigger] s[j]).path != path),
    decreases s.len(),
{
    if s[0].path == path {
        assert(0 <= 0 < s.len() && (#[trigger] s[0]).path == path && stored_store_at(s, path)
            == Some(s[0].column_families) && (forall|j: int|
            0 <= j < 0 ==> (#[trigger] s[j]).path != path));
    } else {
        lemma_store_at_witness(s.drop_first(), path);
        let w = choose|w: int|
            0 <= w < s.drop_first().len() && (#[trigger] s.drop_first()[w]).path == path
                && stored_store_at(s.drop_first(), path) == Some(s.drop_first()[w].column_families)
                && (forall|j: int| 0 <= j < w ==> (#[trigger] s.drop_first()[j]).path != path);
        assert forall|j: int| 0 <= j < w + 1 implies (#[trigger] s[j]).path != path by {
            if j > 0 {
                assert(s.drop_first()[j - 1] == s[j]);
            }
        }
        assert(s[w + 1] == s.drop_first()[w]);
    }
}

/// The persisted form of a store handle's column families.
pub open spec fn cfs_stored_view<C: Comparator, M: MergeOperator>(
    s: Seq<ColumnFamily<C, M>>,
) -> Seq<StoredColumnFamilyView> {
    Seq::new(s.len(), |i: int| StoredColumnFamilyView { name: s[i].spec_name(), entries: s[i]@ })
}

impl<C: Comparator, M: MergeOperator> Database<C, M> {
    /// Write the store's data back to its path in `env`, releasing the
    /// handle: a later `open` of the path sees exactly this data.  No other
    /// path changes.
    pub fn close(self, env: &mut Env)
        requires
            old(env).wf(),
        ensures
            final(env).wf(),
            stored_store_at(final(env)@, self.spec_path()) == Some(cfs_stored_view(self.spec_cfs())),
            forall|p: Seq<char>|
                p != self.spec_path() ==> #[trigger] stored_store_at(final(env)@, p)
                    == stored_store_at(old(env)@, p),
    {
        let mut stored: Vec<StoredColumnFamily> = Vec::new();
        let n = self.column_families.len();
        let mut i: usize = 0;
        while i < n
            invariant
                n == self.spec_cfs().len(),
                i <= n,
                stored@.len() == i,
                forall|j: int|
                    0 <= j < i ==> #[trigger] stored_cf_views(stored@)[j] == cfs_stored_view(
                        self.spec_cfs(),
                    )[j],
            decreases n - i,
        {
            let ghost before = stored@;
            stored.push(
                StoredColumnFamily {
                    name: self.column_families[i].name().clone(),
                    entries: self.column_families[i].export_entries(),
                },
            );
            proof {
                assert(stored@[i as int]@.name == self.spec_cfs()[i as int].spec_name());
                assert(stored@[i as int]@.entries == self.spec_cfs()[i as int]@);
                assert(stored_cf_views(stored@)[i as int] == cfs_stored_view(
                    self.spec_cfs(),
                )[i as int]);
                assert forall|j: int| 0 <= j < i implies #[trigger] stored_cf_views(stored@)[j]
                    == cfs_stored_view(self.spec_cfs())[j] by {
                    assert(stored@[j] == before[j]);
                    assert(stored_cf_views(before)[j] == cfs_stored_view(self.spec_cfs())[j]);
                }
            }
            i = i + 1;
        }
        let record = StoredStore { path: self.path, column_families: stored };
        proof {
            assert(record@.column_families =~= cfs_stored_view(self.spec_cfs()));
        }
        let ghost pre = env@;
        match env.store_index(&record.path) {
            Some(si) => {
                proof {
                    assert forall|j: int| 0 <= j < si implies (#[trigger] pre[j]).path
                        != record.path@ by {
                        assert(pre[j].path != pre[si as int].path);
                    }
                }
                env.stores.set(si, record);
                proof {
                    assert(env@ =~= pre.update(si as int, record@));
                    lemma_store_at_present(env@, self.spec_path(), si as int);
                    assert forall|p: Seq<char>| p != self.spec_path() implies #[trigger] stored_store_at(
                        env@,
                        p,
                    ) == stored_store_at(pre, p) by {
                        Self::lemma_store_at_update_other(pre, env@, si as int, p);
                    }
                }
            },
            None => {
                proof {
                    lemma_store_at_none_inverse(pre, record.path@);
                }
                env.stores.push(record);
                proof {
                    assert(env@ =~= pre.push(record@));
                    lemma_store_at_present(env@, self.spec_path(), pre.len() as int);
                    assert forall|p: Seq<char>| p != self.spec_path() implies #[trigger] stored_store_at(
                        env@,
                        p,
                    ) == stored_store_at(pre, p) by {
                        Self::lemma_store_at_update_other(pre, env@, pre.len() as int, p);
                    }
                }
            },
        }
    }

    /// Changing (or appending) the record at `si` leaves every other path's
    /// lookup unchanged.
    proof fn lemma_store_at_update_other(
        pre: Seq<StoredStoreView>,
        cur: Seq<StoredStoreView>,
        si: int,
        p: Seq<char>,
    )
        requires
            0 <= si < cur.len(),
            pre.len() == cur.len() || pre.len() + 1 == cur.len(),
            si == cur.len() - 1 || pre.len() == cur.len(),
            forall|j: int| 0 <= j < cur.len() && j != si ==> #[trigger] cur[j] == pre[j],
            cur[si].path != p,
            pre.len() == cur.len() ==> pre[si].path != p,
        ensures
            stored_store_at(cur, p) == stored_store_at(pre, p),
    {
        if stored_store_at(pre, p) is Some {
            lemma_store_at_witness(pre, p);
            let w = choose|w: int|
                0 <= w < pre.len() && (#[trigger] pre[w]).path == p && stored_store_at(pre, p)
                    == Some(pre[w].column_families) && (forall|j: int|
                    0 <= j < w ==> (#[trigger] pre[j]).path != p);
            assert(w != si);
            assert(cur[w] == pre[w]);
            assert forall|j: int| 0 <= j < w implies (#[trigger] cur[j]).path != p by {
                if j != si {
                    assert(cur[j] == pre[j]);
                }
            }
            lemma_store_at_present(cur, p, w);
        } else {
            lemma_store_at_none_inverse(pre, p);
            assert forall|j: int| 0 <= j < cur.len() implies (#[trigger] cur[j]).path != p by {
                if j != si {
                    assert(cur[j] == pre[j]);
                }
            }
            lemma_store_at_none(cur, p);
        }
    }
}

/// The names in a requested column-family configuration, in request order.
pub open spec fn requested_names<C: Comparator, M: MergeOperator>(
    s: Seq<(String, ColumnFamilyOptions<C, M>)>,
) -> Seq<Seq<char>> {
    Seq::new(s.len(), |i: int| s[i].0@)
}

/// Whether the names are pairwise distinct.
pub open spec fn distinct_names(names: Seq<Seq<char>>) -> bool {
    forall|i: int, j: int| #![trigger names[i], names[j]] 0 <= i < j < names.len() ==> names[i] != names[j]
}

/// What a freshly created store persists: the requested column families,
/// each empty.
pub open spec fn fresh_stored_cfs(names: Seq<Seq<char>>) -> Seq<StoredColumnFamilyView> {
    Seq::new(
        names.len(),
        |i: int| StoredColumnFamilyView { name: names[i], entries: Seq::empty() },
    )
}

/// Whether an open of `reqs` against the persisted column families `stored`
/// succeeds: every persisted column family is requested, and every requested
/// one either exists with entries well formed under the requested key order,
/// or is created because `create_missing` is set.
pub open spec fn open_ok<C: Comparator, M: MergeOperator>(
    stored: Seq<StoredColumnFamilyView>,
    reqs: Seq<(String, ColumnFamilyOptions<C, M>)>,
    create_missing: bool,
) -> bool {
    &&& forall|i: int|
        0 <= i < stored.len() ==> exists|j: int|
            0 <= j < reqs.len() && (#[trigger] reqs[j]).0@ == (#[trigger] stored[i]).name
    &&& forall|j: int|
        0 <= j < reqs.len() ==> match stored_cf_at(stored, (#[trigger] reqs[j]).0@) {
            Some(es) => crate::columnfamily::entries_wf_under(reqs[j].1.spec_comparator(), es),
            None => create_missing,
        }
}

/// The error reported when a store is asked to open the same column family
/// name twice.
fn err_duplicate_cf_names() -> (e: Error)
    ensures
        e matches Error::EngineFailure(_),
{
    Error::EngineFailure("Invalid argument: column family names must be distinct".to_owned())
}

/// The error reported when a store has column families the open did not
/// request.
fn err_unopened_cf() -> (e: Error)
    ensures
        e matches Error::EngineFailure(_),
{
    Error::EngineFailure("Invalid argument: you have to open all column families".to_owned())
}

impl<C: Comparator, M: MergeOperator> Database<C, M> {
    /// Create a store at `path` with the given column families, each under
    /// its options.  Fails when a store already exists at the path.
    pub fn create_with_column_families(
        env: &mut Env,
        path: &str,
        db_options: DatabaseOptions,
        cf_options: Vec<(String, ColumnFamilyOptions<C, M>)>,
    ) -> (r: Result<Database<C, M>, Error>)
        requires
            old(env).wf(),
        ensures
            final(env).wf(),
            r is Ok <==> distinct_names(requested_names(cf_options@)) && stored_store_at(
                old(env)@,
                path@,
            ) is None,
            r is Err ==> final(env)@ == old(env)@,
            (distinct_names(requested_names(cf_options@)) && stored_store_at(old(env)@, path@)
                is Some) ==> r matches Err(Error::OpenConflict),
            r is Ok ==> final(env)@ == old(env)@.push(
                StoredStoreView {
                    path: path@,
                    column_families: fresh_stored_cfs(requested_names(cf_options@)),
                },
            ),
            r matches Ok(db) ==> db.wf() && db.spec_path() == path@ && db.spec_cfs().len()
                == cf_options@.len() && (forall|i: int|
                0 <= i < cf_options@.len() ==> {
                    let cf = #[trigger] db.spec_cfs()[i];
                    &&& cf.spec_name() == cf_options@[i].0@
                    &&& cf.spec_comparator() == cf_options@[i].1.spec_comparator()
                    &&& cf.spec_merge_operator() == cf_options@[i].1.spec_merge_operator()
                    &&& cf@ == Seq::<EntryView>::empty()
                }),
    {
        let mut db_options = db_options;
        db_options.raw.error_if_exists = true;
        db_options.raw.create_if_missing = true;
        db_options.raw.create_missing_column_families = true;
        Database::create_or_open_with_column_families(env, path, db_options, cf_options)
    }

    /// Open the store at `path` with the given column families, each under
    /// its options.  Fails when no store exists at the path, when the store
    /// has column families the request leaves out, when a requested one is
    /// missing, or when a column family's entries do not fit the requested
    /// key order (a comparator mismatch).
    pub fn open_with_column_families(
        env: &mut Env,
        path: &str,
        db_options: DatabaseOptions,
        cf_options: Vec<(String, ColumnFamilyOptions<C, M>)>,
    ) -> (r: Result<Database<C, M>, Error>)
        requires
            old(env).wf(),
        ensures
            final(env).wf(),
            final(env)@ == old(env)@,
            r is Ok <==> distinct_names(requested_names(cf_options@)) && (match stored_store_at(
                old(env)@,
                path@,
            ) {
                Some(sd) => open_ok(sd, cf_options@, db_options.raw.create_missing_column_families),
                None => false,
            }),
            (distinct_names(requested_names(cf_options@)) && stored_store_at(old(env)@, path@)
                is None) ==> r matches Err(Error::OpenConflict),
            r matches Ok(db) ==> db.wf() && db.spec_path() == path@ && db.spec_cfs().len()
                == cf_options@.len() && (forall|i: int|
                0 <= i < cf_options@.len() ==> {
                    let cf = #[trigger] db.spec_cfs()[i];
                    &&& cf.spec_name() == cf_options@[i].0@
                    &&& cf.spec_comparator() == cf_options@[i].1.spec_comparator()
                    &&& cf.spec_merge_operator() == cf_options@[i].1.spec_merge_operator()
                    &&& cf@ == (match stored_store_at(old(env)@, path@) {
                        Some(sd) => match stored_cf_at(sd, cf_options@[i].0@) {
                            Some(es) => es,
                            None => Seq::<EntryView>::empty(),
                        },
                        None => Seq::<EntryView>::empty(),
                    })
                }),
    {
        let mut db_options = db_options;
        db_options.raw.error_if_exists = false;
        db_options.raw.create_if_missing = false;
        let r = Database::create_or_open_with_column_families(env, path, db_options, cf_options);
        proof {
            assert(final(env)@ =~= old(env)@);
        }
        r
    }

    /// Create or open a store at `path`, according to the option flags.
    #[verifier::loop_isolation(false)]
    fn create_or_open_with_column_families(
        env: &mut Env,
        path: &str,
        db_options: DatabaseOptions,
        cf_options: Vec<(String, ColumnFamilyOptions<C, M>)>,
    ) -> (r: Result<Database<C, M>, Error>)
        requires
            old(env).wf(),
        ensures
            final(env).wf(),
            r is Ok <==> distinct_names(requested_names(cf_options@)) && (match stored_store_at(
                old(env)@,
                path@,
            ) {
                Some(sd) => !db_options.raw.error_if_exists && open_ok(
                    sd,
                    cf_options@,
                    db_options.raw.create_missing_column_families,
                ),
                None => db_options.raw.create_if_missing,
            }),
            r is Err ==> final(env)@ == old(env)@,
            stored_store_at(old(env)@, path@) is Some ==> final(env)@ == old(env)@,
            (r is Ok && stored_store_at(old(env)@, path@) is None) ==> final(env)@ == old(
                env,
            )@.push(
                StoredStoreView {
                    path: path@,
                    column_families: fresh_stored_cfs(requested_names(cf_options@)),
                },
            ),
            (distinct_names(requested_names(cf_options@)) && stored_store_at(old(env)@, path@)
                is Some && db_options.raw.error_if_exists) ==> r matches Err(Error::OpenConflict),
            (distinct_names(requested_names(cf_options@)) && stored_store_at(old(env)@, path@)
                is None && !db_options.raw.create_if_missing) ==> r matches Err(
                Error::OpenConflict,
            ),
            r matches Ok(db) ==> db.wf() && db.spec_path() == path@ && db.spec_cfs().len()
                == cf_options@.len() && (forall|i: int|
                0 <= i < cf_options@.len() ==> {
                    let cf = #[trigger] db.spec_cfs()[i];
                    &&& cf.spec_name() == cf_options@[i].0@
                    &&& cf.spec_comparator() == cf_options@[i].1.spec_comparator()
                    &&& cf.spec_merge_operator() == cf_options@[i].1.spec_merge_operator()
                    &&& cf@ == (match stored_store_at(old(env)@, path@) {
                        Some(sd) => match stored_cf_at(sd, cf_options@[i].0@) {
                            Some(es) => es,
                            None => Seq::<EntryView>::empty(),
                        },
                        None => Seq::<EntryView>::empty(),
                    })
                }),
    {
        let ghost reqs = cf_options@;
        let ghost names = requested_names(cf_options@);
        // Reject duplicate names: one column family cannot be opened twice.
        let n = cf_options.len();
        let mut i: usize = 0;
        while i < n
            invariant
                n == reqs.len(),
                reqs == cf_options@,
                i <= n,
                forall|p: int, q: int|
                    #![trigger names[p], names[q]]
                    0 <= p < q < reqs.len() && p < i ==> names[p] != names[q],
            decreases n - i,
        {
            let mut j: usize = i + 1;
            while j < n
                invariant
                    n == reqs.len(),
                    reqs == cf_options@,
                    i < n,
                    i < j <= n,
                    forall|q: int| i < q < j ==> names[i as int] != #[trigger] names[q],
                decreases n - j,
            {
                if string_equal(&cf_options[i].0, &cf_options[j].0) {
                    proof {
                        assert(names[i as int] == names[j as int]);
                    }
                    return Err(err_duplicate_cf_names());
                }
                j = j + 1;
            }
            i = i + 1;
        }
        proof {
            assert(distinct_names(names));
        }
        let path_owned: String = path.to_owned();
        match env.store_index(&path_owned) {
            Some(si) => {
                if db_options.raw.error_if_exists {
                    return Err(Error::OpenConflict);
                }
                let ghost sd = env@[si as int].column_families;
                // Every persisted column family must be requested.
                let stored_len = env.stores[si].column_families.len();
                let mut s: usize = 0;
                while s < stored_len
                    invariant
                        si < env@.len(),
                        sd == env@[si as int].column_families,
                        stored_len == sd.len(),
                        s <= stored_len,
                        n == reqs.len(),
                        reqs == cf_options@,
                        names == requested_names(cf_options@),
                        forall|p: int|
                            0 <= p < s ==> exists|q: int|
                                0 <= q < reqs.len() && (#[trigger] reqs[q]).0@ == (
                                #[trigger] sd[p]).name,
                    decreases stored_len - s,
                {
                    let mut q: usize = 0;
                    let mut found = false;
                    while q < n
                        invariant
                            si < env@.len(),
                            sd == env@[si as int].column_families,
                            s < stored_len == sd.len(),
                            n == reqs.len(),
                            reqs == cf_options@,
                            q <= n,
                            found ==> exists|qq: int|
                                0 <= qq < reqs.len() && (#[trigger] reqs[qq]).0@ == sd[s as int].name,
                            !found ==> forall|qq: int|
                                0 <= qq < q ==> (#[trigger] reqs[qq]).0@ != sd[s as int].name,
                        decreases n - q,
                    {
                        if string_equal(&cf_options[q].0, &env.stores[si].column_families[s].name) {
                            found = true;
                            proof {
                                assert((#[trigger] reqs[q as int]).0@ == sd[s as int].name);
                            }
                        }
                        q = q + 1;
                    }
                    if !found {
                        proof {
                            if open_ok(sd, reqs, db_options.raw.create_missing_column_families) {
                                let sname = sd[s as int].name;
                                let qq = choose|qq: int|
                                    0 <= qq < reqs.len() && (#[trigger] reqs[qq]).0@ == sname;
                                assert(false);
                            }
                        }
                        return Err(err_unopened_cf());
                    }
                    s = s + 1;
                }
                // Build the handles, in request order.
                let mut cfs: Vec<ColumnFamily<C, M>> = Vec::new();
                let mut remaining = cf_options;
                let mut b: usize = 0;
                while remaining.len() > 0
                    invariant
                        si < env@.len(),
                        sd == env@[si as int].column_families,
                        n == reqs.len(),
                        b <= n,
                        b + remaining@.len() == n,
                        forall|p: int|
                            0 <= p < remaining@.len() ==> #[trigger] remaining@[p] == reqs[b + p],
                        cfs@.len() == b,
                        forall|p: int|
                            0 <= p < b ==> {
                                let cf = #[trigger] cfs@[p];
                                &&& cf.wf()
                                &&& cf.spec_name() == reqs[p].0@
                                &&& cf.spec_comparator() == reqs[p].1.spec_comparator()
                                &&& cf.spec_merge_operator() == reqs[p].1.spec_merge_operator()
                                &&& cf@ == (match stored_cf_at(sd, reqs[p].0@) {
                                    Some(es) => es,
                                    None => Seq::<EntryView>::empty(),
                                })
                                &&& match stored_cf_at(sd, reqs[p].0@) {
                                    Some(es) => crate::columnfamily::entries_wf_under(
                                        reqs[p].1.spec_comparator(),
                                        es,
                                    ),
                                    None => db_options.raw.create_missing_column_families,
                                }
                            },
                    decreases remaining@.len(),
                {
                    let pair = remaining.remove(0);
                    let (name, options) = pair;
                    proof {
                        assert(name@ == reqs[b as int].0@);
                        assert(forall|p: int|
                            0 <= p < remaining@.len() ==> #[trigger] remaining@[p]
                                == reqs[b + 1 + p]);
                    }
                    match stored_cf_index(&env.stores[si].column_families, &name) {
                        Some(k) => {
                            let entries = duplicate_entries(
                                &env.stores[si].column_families[k].entries,
                            );
                            proof {
                                assert(entry_views(entries@) == sd[k as int].entries);
                            }
                            match ColumnFamily::create_with_entries(name, options, entries) {
                                Ok(cf) => {
                                    cfs.push(cf);
                                },
                                Err(e) => {
                                    proof {
                                        assert(stored_cf_at(sd, reqs[b as int].0@) == Some(
                                            sd[k as int].entries,
                                        ));
                                        if open_ok(
                                            sd,
                                            reqs,
                                            db_options.raw.create_missing_column_families,
                                        ) {
                                            assert(match stored_cf_at(
                                                sd,
                                                (#[trigger] reqs[b as int]).0@,
                                            ) {
                                                Some(es) => crate::columnfamily::entries_wf_under(
                                                    reqs[b as int].1.spec_comparator(),
                                                    es,
                                                ),
                                                None => db_options.raw.create_missing_column_families,
                                            });
                                            assert(false);
                                        }
                                    }
                                    return Err(e);
                                },
                            }
                        },
                        None => {
                            if !db_options.raw.create_missing_column_families {
                                proof {
                                    if open_ok(sd, reqs, false) {
                                        assert(match stored_cf_at(
                                            sd,
                                            (#[trigger] reqs[b as int]).0@,
                                        ) {
                                            Some(es) => crate::columnfamily::entries_wf_under(
                                                reqs[b as int].1.spec_comparator(),
                                                es,
                                            ),
                                            None => false,
                                        });
                                        assert(false);
                                    }
                                }
                                return Err(Error::ColumnFamilyNotFound);
                            }
                            cfs.push(ColumnFamily::create(name, options));
                        },
                    }
                    b = b + 1;
                }
                let db = Database { path: path_owned, column_families: cfs };
                proof {
                    assert(db.wf()) by {
                        assert(forall|p: int|
                            0 <= p < db.spec_cfs().len() ==> (
                            #[trigger] db.spec_cfs()[p]).spec_name() == names[p]);
                    }
                    assert forall|j: int| 0 <= j < reqs.len() implies match stored_cf_at(
                        sd,
                        (#[trigger] reqs[j]).0@,
                    ) {
                        Some(es) => crate::columnfamily::entries_wf_under(
                            reqs[j].1.spec_comparator(),
                            es,
                        ),
                        None => db_options.raw.create_missing_column_families,
                    } by {
                        assert(cfs@[j].spec_name() == reqs[j].0@);
                    }
                    assert(open_ok(sd, reqs, db_options.raw.create_missing_column_families));
                }
                Ok(db)
            },
            None => {
                if !db_options.raw.create_if_missing {
                    return Err(Error::OpenConflict);
                }
                let mut cfs: Vec<ColumnFamily<C, M>> = Vec::new();
                let mut stored_cfs: Vec<StoredColumnFamily> = Vec::new();
                let mut remaining = cf_options;
                let mut b: usize = 0;
                while remaining.len() > 0
                    invariant
                        n == reqs.len(),
                        b <= n,
                        b + remaining@.len() == n,
                        forall|p: int|
                            0 <= p < remaining@.len() ==> #[trigger] remaining@[p] == reqs[b + p],
                        cfs@.len() == b,
                        stored_cfs@.len() == b,
                        forall|p: int|
                            0 <= p < b ==> {
                                let cf = #[trigger] cfs@[p];
                                &&& cf.wf()
                                &&& cf.spec_name() == reqs[p].0@
                                &&& cf.spec_comparator() == reqs[p].1.spec_comparator()
                                &&& cf.spec_merge_operator() == reqs[p].1.spec_merge_operator()
                                &&& cf@ == Seq::<EntryView>::empty()
                            },
                        forall|p: int|
                            0 <= p < b ==> #[trigger] stored_cf_views(stored_cfs@)[p]
                                == fresh_stored_cfs(requested_names(reqs))[p],
                    decreases remaining@.len(),
                {
                    let pair = remaining.remove(0);
                    let (name, options) = pair;
                    proof {
                        assert(name@ == reqs[b as int].0@);
                        assert(forall|p: int|
                            0 <= p < remaining@.len() ==> #[trigger] remaining@[p]
                                == reqs[b + 1 + p]);
                    }
                    let ghost before = stored_cfs@;
                    stored_cfs.push(StoredColumnFamily { name: name.clone(), entries: Vec::new() });
                    cfs.push(ColumnFamily::create(name, options));
                    proof {
                        assert(stored_cfs@[b as int]@.entries =~= Seq::<EntryView>::empty());
                        assert(stored_cf_views(stored_cfs@)[b as int] == fresh_stored_cfs(
                            requested_names(reqs),
                        )[b as int]);
                        assert forall|p: int| 0 <= p < b implies #[trigger] stored_cf_views(
                            stored_cfs@,
                        )[p] == fresh_stored_cfs(requested_names(reqs))[p] by {
                            assert(stored_cfs@[p] == before[p]);
                            assert(stored_cf_views(before)[p] == fresh_stored_cfs(
                                requested_names(reqs),
                            )[p]);
                        }
                    }
                    b = b + 1;
                }
                let ghost pre = env@;
                let record = StoredStore { path: path_owned.clone(), column_families: stored_cfs };
                proof {
                    assert(record@.column_families =~= fresh_stored_cfs(names));
                    lemma_store_at_none_inverse(pre, path@);
                }
                env.stores.push(record);
                let db = Database { path: path_owned, column_families: cfs };
                proof {
                    assert(env@ =~= pre.push(
                        StoredStoreView { path: path@, column_families: fresh_stored_cfs(names) },
                    ));
                    assert(db.wf()) by {
                        assert(forall|p: int|
                            0 <= p < db.spec_cfs().len() ==> (
                            #[trigger] db.spec_cfs()[p]).spec_name() == names[p]);
                    }
                }
                Ok(db)
            },
        }
    }
}

/// The name of the default column family.
pub open spec fn default_cf_name() -> Seq<char> {
    "default"@
}

/// Whether an open with one requested column family, the default one under
/// `cf_options`, succeeds against the persisted column families `sd`.
pub open spec fn open_default_ok<C: Comparator, M: MergeOperator>(
    sd: Seq<StoredColumnFamilyView>,
    cf_options: ColumnFamilyOptions<C, M>,
    create_missing: bool,
) -> bool {
    &&& forall|i: int| 0 <= i < sd.len() ==> (#[trigger] sd[i]).name == default_cf_name()
    &&& match stored_cf_at(sd, default_cf_name()) {
        Some(es) => crate::columnfamily::entries_wf_under(cf_options.spec_comparator(), es),
        None => create_missing,
    }
}

impl<C: Comparator, M: MergeOperator> Database<C, M> {
    /// Create a store at `path` with the default column family under
    /// `cf_options`.  Fails when a store already exists at the path.
    pub fn create(
        env: &mut Env,
        path: &str,
        db_options: DatabaseOptions,
        cf_options: ColumnFamilyOptions<C, M>,
    ) -> (r: Result<Database<C, M>, Error>)
        requires
            old(env).wf(),
        ensures
            final(env).wf(),
            r is Ok <==> stored_store_at(old(env)@, path@) is None,
            stored_store_at(old(env)@, path@) is Some ==> r matches Err(Error::OpenConflict),
            r is Err ==> final(env)@ == old(env)@,
            r is Ok ==> final(env)@ == old(env)@.push(
                StoredStoreView {
                    path: path@,
                    column_families: fresh_stored_cfs(seq![default_cf_name()]),
                },
            ),
            r matches Ok(db) ==> db.wf() && db.spec_path() == path@ && db.spec_cfs().len() == 1
                && db.spec_cfs()[0].spec_name() == default_cf_name()
                && db.spec_cfs()[0].spec_comparator() == cf_options.spec_comparator()
                && db.spec_cfs()[0].spec_merge_operator() == cf_options.spec_merge_operator()
                && db.spec_cfs()[0]@ == Seq::<EntryView>::empty(),
    {
        let mut v: Vec<(String, ColumnFamilyOptions<C, M>)> = Vec::new();
        v.push(("default".to_owned(), cf_options));
        proof {
            assert(requested_names(v@) =~= seq![default_cf_name()]);
        }
        Database::create_with_column_families(env, path, db_options, v)
    }

    /// Open the store at `path` with the default column family under
    /// `cf_options`.  Fails when no store exists at the path, when the store
    /// has other column families, or when the stored entries do not fit the
    /// requested key order.
    pub fn open(
        env: &mut Env,
        path: &str,
        db_options: DatabaseOptions,
        cf_options: ColumnFamilyOptions<C, M>,
    ) -> (r: Result<Database<C, M>, Error>)
        requires
            old(env).wf(),
        ensures
            final(env).wf(),
            final(env)@ == old(env)@,
            r is Ok <==> (match stored_store_at(old(env)@, path@) {
                Some(sd) => open_default_ok(
                    sd,
                    cf_options,
                    db_options.raw.create_missing_column_families,
                ),
                None => false,
            }),
            stored_store_at(old(env)@, path@) is None ==> r matches Err(Error::OpenConflict),
            r matches Ok(db) ==> db.wf() && db.spec_path() == path@ && db.spec_cfs().len() == 1
                && db.spec_cfs()[0].spec_name() == default_cf_name()
                && db.spec_cfs()[0].spec_comparator() == cf_options.spec_comparator()
                && db.spec_cfs()[0].spec_merge_operator() == cf_options.spec_merge_operator()
                && db.spec_cfs()[0]@ == (match stored_store_at(old(env)@, path@) {
                    Some(sd) => match stored_cf_at(sd, default_cf_name()) {
                        Some(es) => es,
                        None => Seq::<EntryView>::empty(),
                    },
                    None => Seq::<EntryView>::empty(),
                }),
    {
        let ghost cfo = cf_options;
        let mut v: Vec<(String, ColumnFamilyOptions<C, M>)> = Vec::new();
        v.push(("default".to_owned(), cf_options));
        proof {
            assert(requested_names(v@) =~= seq![default_cf_name()]);
            assert(distinct_names(requested_names(v@)));
            if stored_store_at(old(env)@, path@) is Some {
                let sd = stored_store_at(old(env)@, path@)->Some_0;
                assert(open_ok(sd, v@, db_options.raw.create_missing_column_families)
                    <==> open_default_ok(
                    sd,
                    cfo,
                    db_options.raw.create_missing_column_families,
                )) by {
                    assert(v@[0].0@ == default_cf_name());
                    assert(v@[0].1 == cfo);
                    if open_default_ok(sd, cfo, db_options.raw.create_missing_column_families) {
                        assert forall|i: int| 0 <= i < sd.len() implies exists|j: int|
                            0 <= j < v@.len() && (#[trigger] v@[j]).0@ == (
                            #[trigger] sd[i]).name by {
                            assert((#[trigger] v@[0]).0@ == sd[i].name);
                        }
                    }
                    if open_ok(sd, v@, db_options.raw.create_missing_column_families) {
                        assert forall|i: int| 0 <= i < sd.len() implies (#[trigger] sd[i]).name
                            == default_cf_name() by {
                            let j = choose|j: int|
                                0 <= j < v@.len() && (#[trigger] v@[j]).0@ == sd[i].name;
                        }
                        assert(match stored_cf_at(sd, (#[trigger] v@[0]).0@) {
                            Some(es) => crate::columnfamily::entries_wf_under(
                                v@[0].1.spec_comparator(),
                                es,
                            ),
                            None => db_options.raw.create_missing_column_families,
                        });
                    }
                }
            }
        }
        Database::open_with_column_families(env, path, db_options, v)
    }

    /// Read `key` from the default column family.
    pub fn get(&self, options: &crate::options::ReadOptions, key: &[u8]) -> (r: Result<
        Option<Vec<u8>>,
        Error,
    >)
        requires
            self.wf(),
        ensures
            find_cf(self.spec_cfs(), default_cf_name()) is None ==> (r matches Err(e) && e matches
                Error::ColumnFamilyNotFound),
            find_cf(self.spec_cfs(), default_cf_name()) matches Some(cf) ==> (match r {
                Ok(Some(v)) => cf.spec_lookup(key@) == crate::columnfamily::Lookup::Found(v@),
                Ok(None) => cf.spec_lookup(key@) == crate::columnfamily::Lookup::Absent,
                Err(e) => (cf.spec_lookup(key@) == crate::columnfamily::Lookup::NoOperator
                    && e matches Error::EngineFailure(_)) || (cf.spec_lookup(key@)
                    == crate::columnfamily::Lookup::MergeFailed && e matches Error::MergeFailure),
            }),
    {
        match self.get_column_family("default") {
            Some(cf) => {
                proof {
                    lemma_find_cf_unique(self.spec_cfs(), default_cf_name());
                }
                cf.get(options, key)
            },
            None => Err(Error::ColumnFamilyNotFound),
        }
    }

    /// Write `val` at `key` in the default column family.
    pub fn put(&mut self, options: &WriteOptions, key: &[u8], val: &[u8]) -> (r: Result<
        (),
        Error,
    >)
        requires
            old(self).wf(),
        ensures
            final(self).wf(),
            r is Ok <==> find_cf(old(self).spec_cfs(), default_cf_name()) is Some,
            r matches Err(e) ==> (e matches Error::ColumnFamilyNotFound) && *final(self) == *old(
                self,
            ),
            r is Ok ==> final(self).spec_path() == old(self).spec_path()
                && final(self).spec_cfs().len() == old(self).spec_cfs().len() && (forall|i: int|
                0 <= i < old(self).spec_cfs().len() ==> (
                #[trigger] final(self).spec_cfs()[i]).same_config(old(self).spec_cfs()[i]))
                && (forall|i: int, k: Seq<u8>|
                0 <= i < old(self).spec_cfs().len() ==> #[trigger] spec_find(
                    final(self).spec_cfs()[i]@,
                    k,
                ) == (if old(self).spec_cfs()[i].spec_name() == default_cf_name() && k == key@ {
                    Some(EntryView { key: key@, base: Some(val@), operands: Seq::empty() })
                } else {
                    spec_find(old(self).spec_cfs()[i]@, k)
                })),
    {
        self.put_cf(options, "default", key, val)
    }

    /// Remove `key` from the default column family.
    pub fn delete(&mut self, options: &WriteOptions, key: &[u8]) -> (r: Result<(), Error>)
        requires
            old(self).wf(),
        ensures
            final(self).wf(),
            r is Ok <==> find_cf(old(self).spec_cfs(), default_cf_name()) is Some,
            r matches Err(e) ==> (e matches Error::ColumnFamilyNotFound) && *final(self) == *old(
                self,
            ),
            r is Ok ==> final(self).spec_path() == old(self).spec_path()
                && final(self).spec_cfs().len() == old(self).spec_cfs().len() && (forall|i: int|
                0 <= i < old(self).spec_cfs().len() ==> (
                #[trigger] final(self).spec_cfs()[i]).same_config(old(self).spec_cfs()[i]))
                && (forall|i: int, k: Seq<u8>|
                0 <= i < old(self).spec_cfs().len() ==> #[trigger] spec_find(
                    final(self).spec_cfs()[i]@,
                    k,
                ) == (if old(self).spec_cfs()[i].spec_name() == default_cf_name() && k == key@ {
                    None::<EntryView>
                } else {
                    spec_find(old(self).spec_cfs()[i]@, k)
                })),
    {
        self.delete_cf(options, "default", key)
    }
}

/// The error reported when a batch stages a merge for a column family with
/// no merge operator.
fn err_merge_in_batch_unsupported() -> (e: Error)
    ensures
        e matches Error::EngineFailure(_),
{
    Error::EngineFailure("NotSupported: merge requires a merge operator".to_owned())
}

} // verus!
