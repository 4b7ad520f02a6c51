//! One column family: an independently keyed, independently ordered
//! partition of a store.
//!
//! A column family holds entries sorted strictly ascending under its
//! comparator.  Each entry carries a key, an optional base value and the
//! staged merge operands not yet folded into it; folding happens when the
//! key is read, through the column family's merge operator.

use vstd::prelude::*;
use vstd::pervasive::VecAdditionalExecFns;
use vstd::slice::slice_to_vec;

use crate::comparator::{bytewise_compare, lex_cmp, Comparator, KeyOrdering, ReverseComparator};
use crate::iterator::{KeyValue, KeyValues};
use crate::merge::{views_of, MergeOperator, Operands};
use crate::options::{ColumnFamilyOptions, ReadOptions, WriteOptions};
use crate::Error;

verus! {

/// Whether two byte slices hold the same bytes.
pub fn bytes_eq(a: &[u8], b: &[u8]) -> (r: bool)
    ensures
        r == (a@ == b@),
{
    if a.len() != b.len() {
        return false;
    }
    let mut i: usize = 0;
    while i < a.len()
        invariant
            a@.len() == b@.len(),
            i <= a@.len(),
            forall|j: int| 0 <= j < i ==> a@[j] == b@[j],
        decreases a@.len() - i,
    {
        if a[i] != b[i] {
            return false;
        }
        i = i + 1;
    }
    proof {
        assert(a@ =~= b@);
    }
    true
}

/// Copy a list of byte vectors.
fn clone_vec_list(items: &Vec<Vec<u8>>) -> (r: Vec<Vec<u8>>)
    ensures
        views_of(r@) == views_of(items@),
{
    let mut r: Vec<Vec<u8>> = Vec::new();
    let mut i: usize = 0;
    while i < items.len()
        invariant
            i <= items@.len(),
            r@.len() == i,
            forall|j: int| 0 <= j < i ==> r@[j]@ == items@[j]@,
        decreases items@.len() - i,
    {
        r.push(slice_to_vec(items[i].as_slice()));
        i = i + 1;
    }
    proof {
        assert(views_of(r@) =~= views_of(items@));
    }
    r
}

/// One stored key with its base value and staged merge operands.
pub struct Entry {
    /// The key, unique within its column family.
    pub key: Vec<u8>,
    /// The value written by the last put, if any put is still visible.
    pub base: Option<Vec<u8>>,
    /// Staged merge operands, front first, not yet folded into the value.
    pub operands: Vec<Vec<u8>>,
}

/// The mathematical value of one [`Entry`].
pub struct EntryView {
    pub key: Seq<u8>,
    pub base: Option<Seq<u8>>,
    pub operands: Seq<Seq<u8>>,
}

impl View for Entry {
    type V = EntryView;

    open spec fn view(&self) -> EntryView {
        EntryView {
            key: self.key@,
            base: match self.base {
                Some(v) => Some(v@),
                None => None,
            },
            operands: views_of(self.operands@),
        }
    }
}

impl Entry {
    /// Copy an entry.
    pub fn duplicate(&self) -> (r: Entry)
        ensures
            r@ == self@,
    {
        let r = Entry {
            key: slice_to_vec(self.key.as_slice()),
            base: match &self.base {
                Some(v) => Some(slice_to_vec(v.as_slice())),
                None => None,
            },
            operands: clone_vec_list(&self.operands),
        };
        proof {
            assert(r@.base == self@.base);
        }
        r
    }
}

/// The views of a sequence of entries.
pub open spec fn entry_views(s: Seq<Entry>) -> Seq<EntryView> {
    Seq::new(s.len(), |i: int| s[i]@)
}

/// The first entry whose key is `k`, scanning front first.
pub open spec fn spec_find(s: Seq<EntryView>, k: Seq<u8>) -> Option<EntryView>
    decreases s.len(),
{
    if s.len() == 0 {
        None
    } else if s[0].key == k {
        Some(s[0])
    } else {
        spec_find(s.drop_first(), k)
    }
}

/// A single entry whose key is not `k` hides nothing.
pub proof fn lemma_find_single_miss(e: EntryView, k: Seq<u8>)
    requires
        e.key != k,
    ensures
        spec_find(seq![e], k) == None::<EntryView>,
{
    assert(seq![e].drop_first() =~= Seq::<EntryView>::empty());
    assert(spec_find(Seq::<EntryView>::empty(), k) is None);
}

/// Replacing the entry at `i` replaces its view at `i`.
proof fn lemma_views_update(prev: Seq<Entry>, cur: Seq<Entry>, i: int, e: Entry)
    requires
        0 <= i < prev.len(),
        cur == prev.update(i, e),
    ensures
        entry_views(cur) == entry_views(prev).update(i, e@),
{
    assert(entry_views(cur) =~= entry_views(prev).update(i, e@));
}

/// Inserting an entry at `i` inserts its view at `i`.
proof fn lemma_views_insert(prev: Seq<Entry>, cur: Seq<Entry>, i: int, e: Entry)
    requires
        0 <= i <= prev.len(),
        cur == prev.insert(i, e),
    ensures
        entry_views(cur) == entry_views(prev).insert(i, e@),
{
    prev.insert_ensures(i, e);
    entry_views(prev).insert_ensures(i, e@);
    assert(entry_views(cur) =~= entry_views(prev).insert(i, e@));
}

/// Removing the entry at `i` removes its view at `i`.
proof fn lemma_views_remove(prev: Seq<Entry>, cur: Seq<Entry>, i: int)
    requires
        0 <= i < prev.len(),
        cur == prev.remove(i),
    ensures
        entry_views(cur) == entry_views(prev).remove(i),
{
    prev.remove_ensures(i);
    entry_views(prev).remove_ensures(i);
    assert(entry_views(cur) =~= entry_views(prev).remove(i));
}

/// When no entry has key `k`, nothing is found.
pub proof fn lemma_find_none(s: Seq<EntryView>, k: Seq<u8>)
    requires
        forall|j: int| 0 <= j < s.len() ==> (#[trigger] s[j]).key != k,
    ensures
        spec_find(s, k) == None::<EntryView>,
    decreases s.len(),
{
    if s.len() > 0 {
        lemma_find_none(s.drop_first(), k);
    }
}

/// When the first entry with key `k` stands at `i`, it is what is found.
pub proof fn lemma_find_present(s: Seq<EntryView>, k: Seq<u8>, i: int)
    requires
        0 <= i < s.len(),
        s[i].key == k,
        forall|j: int| 0 <= j < i ==> (#[trigger] s[j]).key != k,
    ensures
        spec_find(s, k) == Some(s[i]),
    decreases i,
{
    if i > 0 {
        lemma_find_present(s.drop_first(), k, i - 1);
    }
}

/// Finding in a concatenation searches the front part first.
pub proof fn lemma_find_concat(s: Seq<EntryView>, t: Seq<EntryView>, k: Seq<u8>)
    ensures
        spec_find(s + t, k) == match spec_find(s, k) {
            Some(e) => Some(e),
            None => spec_find(t, k),
        },
    decreases s.len(),
{
    if s.len() == 0 {
        assert(s + t =~= t);
    } else {
        assert((s + t)[0] == s[0]);
        assert((s + t).drop_first() =~= s.drop_first() + t);
        lemma_find_concat(s.drop_first(), t, k);
    }
}

/// The order a column family uses: its comparator's order when one is
/// configured, else byte-wise lexicographic order.
pub open spec fn cmp_of<C: Comparator>(c: Option<C>, a: Seq<u8>, b: Seq<u8>) -> KeyOrdering {
    match c {
        Some(cc) => cc.cmp_spec(a, b),
        None => lex_cmp(a, b),
    }
}

/// [`cmp_of`] reports `Equal` exactly on equal keys.
pub proof fn lemma_cmp_of_equal_iff<C: Comparator>(c: Option<C>, a: Seq<u8>, b: Seq<u8>)
    ensures
        (cmp_of(c, a, b) == KeyOrdering::Equal) <==> (a == b),
{
    match c {
        Some(cc) => cc.lemma_equal_iff_eq(a, b),
        None => crate::comparator::lemma_lex_equal_iff_eq(a, b),
    }
}

/// [`cmp_of`] is antisymmetric.
pub proof fn lemma_cmp_of_flip<C: Comparator>(c: Option<C>, a: Seq<u8>, b: Seq<u8>)
    ensures
        (cmp_of(c, a, b) == KeyOrdering::Less) <==> (cmp_of(c, b, a) == KeyOrdering::Greater),
{
    match c {
        Some(cc) => cc.lemma_flip(a, b),
        None => crate::comparator::lemma_lex_flip(a, b),
    }
}

/// [`cmp_of`]'s strict part is transitive.
pub proof fn lemma_cmp_of_transitive<C: Comparator>(c: Option<C>, a: Seq<u8>, b: Seq<u8>, d: Seq<u8>)
    requires
        cmp_of(c, a, b) == KeyOrdering::Less,
        cmp_of(c, b, d) == KeyOrdering::Less,
    ensures
        cmp_of(c, a, d) == KeyOrdering::Less,
{
    match c {
        Some(cc) => cc.lemma_transitive(a, b, d),
        None => crate::comparator::lemma_lex_transitive(a, b, d),
    }
}

/// Well-formed column-family contents under the order `c` gives: entries
/// strictly sorted with unique keys, and no entry empty.
pub open spec fn entries_wf_under<C: Comparator>(c: Option<C>, s: Seq<EntryView>) -> bool {
    &&& forall|i: int, j: int|
        #![trigger s[i], s[j]]
        0 <= i < j < s.len() ==> cmp_of(c, s[i].key, s[j].key) == KeyOrdering::Less && s[i].key
            != s[j].key
    &&& forall|i: int|
        0 <= i < s.len() ==> (#[trigger] s[i]).base is Some || s[i].operands.len() > 0
}

/// Entries whose adjacent keys are strictly ascending and none of which is
/// empty are well formed.
pub proof fn lemma_adjacent_sorted_wf<C: Comparator>(c: Option<C>, s: Seq<EntryView>)
    requires
        forall|i: int|
            0 <= i < s.len() - 1 ==> #[trigger] cmp_of(c, s[i].key, s[i + 1].key)
                == KeyOrdering::Less,
        forall|i: int| 0 <= i < s.len() ==> (#[trigger] s[i]).base is Some || s[i].operands.len() > 0,
    ensures
        entries_wf_under(c, s),
{
    assert forall|i: int, j: int|
        #![trigger s[i], s[j]]
        0 <= i < j < s.len() implies cmp_of(c, s[i].key, s[j].key) == KeyOrdering::Less && s[i].key
        != s[j].key by {
        lemma_sorted_chain(c, s, i, j);
        lemma_cmp_of_equal_iff(c, s[i].key, s[j].key);
    }
}

/// Adjacent ascending keys give `Less` across any distance, by transitivity.
proof fn lemma_sorted_chain<C: Comparator>(c: Option<C>, s: Seq<EntryView>, i: int, j: int)
    requires
        forall|p: int|
            0 <= p < s.len() - 1 ==> #[trigger] cmp_of(c, s[p].key, s[p + 1].key)
                == KeyOrdering::Less,
        0 <= i < j < s.len(),
    ensures
        cmp_of(c, s[i].key, s[j].key) == KeyOrdering::Less,
    decreases j - i,
{
    let p = j - 1;
    assert(cmp_of(c, s[p].key, s[p + 1].key) == KeyOrdering::Less);
    assert(s[p + 1] == s[j]);
    if j > i + 1 {
        lemma_sorted_chain(c, s, i, j - 1);
        lemma_cmp_of_transitive(c, s[i].key, s[j - 1].key, s[j].key);
    }
}

/// The entry a merge of `operand` at `key` leaves behind: the previous
/// base value (if any) with `operand` appended to the staged operands.
pub open spec fn merged_entry(prev: Option<EntryView>, key: Seq<u8>, operand: Seq<u8>) -> EntryView {
    match prev {
        Some(e) => EntryView { key, base: e.base, operands: e.operands.push(operand) },
        None => EntryView { key, base: None, operands: seq![operand] },
    }
}

/// The outcome of reading one key, stated mathematically.
pub enum Lookup {
    /// The key is present with this value (after folding staged operands).
    Found(Seq<u8>),
    /// The key is absent.
    Absent,
    /// Staged operands exist but the column family has no merge operator.
    NoOperator,
    /// The merge operator reported failure while folding.
    MergeFailed,
}

/// A column family handle: one partition's data, its comparator and its
/// merge operator.
///
/// It is created by its owning store when the store is created or opened,
/// and is not valid for longer than the store.
pub struct ColumnFamily<C: Comparator, M: MergeOperator> {
    name: String,
    comparator: Option<(String, C)>,
    merge_operator: Option<(String, M)>,
    entries: Vec<Entry>,
}

impl<C: Comparator, M: MergeOperator> View for ColumnFamily<C, M> {
    type V = Seq<EntryView>;

    closed spec fn view(&self) -> Seq<EntryView> {
        entry_views(self.entries@)
    }
}

impl<C: Comparator, M: MergeOperator> ColumnFamily<C, M> {
    /// The column family's name.
    pub closed spec fn spec_name(self) -> Seq<char> {
        self.name@
    }

    /// The comparator configured for this column family, if any.
    pub closed spec fn spec_comparator(self) -> Option<C> {
        match self.comparator {
            Some(p) => Some(p.1),
            None => None,
        }
    }

    /// The merge operator configured for this column family, if any.
    pub closed spec fn spec_merge_operator(self) -> Option<M> {
        match self.merge_operator {
            Some(p) => Some(p.1),
            None => None,
        }
    }

    /// The key order this column family uses: its comparator's order, or
    /// byte-wise lexicographic order when none is configured.
    pub open spec fn key_cmp(self, a: Seq<u8>, b: Seq<u8>) -> KeyOrdering {
        cmp_of(self.spec_comparator(), a, b)
    }

    /// Whether `a` orders strictly before `b` in this column family.
    pub open spec fn key_lt(self, a: Seq<u8>, b: Seq<u8>) -> bool {
        self.key_cmp(a, b) == KeyOrdering::Less
    }

    /// Two handles configured alike: same name, comparator and operator.
    pub open spec fn same_config(self, other: Self) -> bool {
        &&& self.spec_name() == other.spec_name()
        &&& self.spec_comparator() == other.spec_comparator()
        &&& self.spec_merge_operator() == other.spec_merge_operator()
    }

    /// Well-formed: entries strictly sorted under the key order, keys
    /// unique, and no entry empty (deleted keys are removed outright).
    pub open spec fn wf(self) -> bool {
        entries_wf_under(self.spec_comparator(), self@)
    }

    /// The key order agrees with equality: `Equal` exactly on equal keys.
    pub proof fn lemma_key_equal_iff(self, a: Seq<u8>, b: Seq<u8>)
        ensures
            (self.key_cmp(a, b) == KeyOrdering::Equal) <==> (a == b),
    {
        lemma_cmp_of_equal_iff(self.spec_comparator(), a, b);
    }

    /// The key order's strict part is transitive.
    pub proof fn lemma_key_transitive(self, a: Seq<u8>, b: Seq<u8>, c: Seq<u8>)
        requires
            self.key_lt(a, b),
            self.key_lt(b, c),
        ensures
            self.key_lt(a, c),
    {
        lemma_cmp_of_transitive(self.spec_comparator(), a, b, c);
    }

    /// Create a handle from a name and its configuration, with no entries.
    pub fn create(name: String, options: ColumnFamilyOptions<C, M>) -> (r: Self)
        ensures
            r.wf(),
            r@ == Seq::<EntryView>::empty(),
            r.spec_name() == name@,
            r.spec_comparator() == options.spec_comparator(),
            r.spec_merge_operator() == options.spec_merge_operator(),
    {
        let r = ColumnFamily {
            name,
            comparator: options.comparator,
            merge_operator: options.merge_operator,
            entries: Vec::new(),
        };
        proof {
            assert(r@ =~= Seq::<EntryView>::empty());
        }
        r
    }

    /// The column family's name.
    pub fn name(&self) -> (r: &String)
        ensures
            r@ == self.spec_name(),
    {
        &self.name
    }

    /// Compare two keys in this column family's order.
    fn compare_keys(&self, a: &[u8], b: &[u8]) -> (r: KeyOrdering)
        ensures
            r == self.key_cmp(a@, b@),
    {
        match &self.comparator {
            Some(p) => p.1.compare(a, b),
            None => bytewise_compare(a, b),
        }
    }

    /// What reading `k` yields.
    pub open spec fn spec_lookup(self, k: Seq<u8>) -> Lookup {
        match spec_find(self@, k) {
            None => Lookup::Absent,
            Some(e) => if e.operands.len() == 0 {
                match e.base {
                    Some(v) => Lookup::Found(v),
                    None => Lookup::Absent,
                }
            } else {
                match self.spec_merge_operator() {
                    None => Lookup::NoOperator,
                    Some(m) => match m.spec_full_merge(k, e.base, e.operands) {
                        Some(v) => Lookup::Found(v),
                        None => Lookup::MergeFailed,
                    },
                }
            },
        }
    }

    /// Read one key.
    ///
    /// Returns the value at `key` (folding staged merge operands through the
    /// merge operator), nothing when the key is absent, and an error exactly
    /// when operands must be folded but no operator is configured or the
    /// operator reports failure.
    pub fn get(&self, options: &ReadOptions, key: &[u8]) -> (r: Result<Option<Vec<u8>>, Error>)
        requires
            self.wf(),
        ensures
            match r {
                Ok(Some(v)) => self.spec_lookup(key@) == Lookup::Found(v@),
                Ok(None) => self.spec_lookup(key@) == Lookup::Absent,
                Err(e) => (self.spec_lookup(key@) == Lookup::NoOperator && e matches
                    Error::EngineFailure(_)) || (self.spec_lookup(key@) == Lookup::MergeFailed
                    && e matches Error::MergeFailure),
            },
    {
        let n = self.entries.len();
        let mut i: usize = 0;
        while i < n
            invariant
                n == self@.len(),
                i <= n,
                forall|j: int| 0 <= j < i ==> (#[trigger] self@[j]).key != key@,
            decreases n - i,
        {
            if bytes_eq(self.entries[i].key.as_slice(), key) {
                proof {
                    lemma_find_present(self@, key@, i as int);
                }
                let entry = &self.entries[i];
                if entry.operands.len() == 0 {
                    match &entry.base {
                        Some(v) => {
                            return Ok(Some(slice_to_vec(v.as_slice())));
                        },
                        None => {
                            return Ok(None);
                        },
                    }
                }
                match &self.merge_operator {
                    None => {
                        return Err(err_no_merge_operator());
                    },
                    Some(p) => {
                        let operands = Operands::new(clone_vec_list(&entry.operands));
                        let existing: Option<&[u8]> = match &entry.base {
                            Some(v) => Some(v.as_slice()),
                            None => None,
                        };
                        match p.1.full_merge(key, existing, operands) {
                            Some(v) => {
                                return Ok(Some(v));
                            },
                            None => {
                                return Err(Error::MergeFailure);
                            },
                        }
                    },
                }
            }
            i = i + 1;
        }
        proof {
            lemma_find_none(self@, key@);
        }
        Ok(None)
    }

    /// The key order is antisymmetric in this column family.
    pub proof fn lemma_key_flip(self, a: Seq<u8>, b: Seq<u8>)
        ensures
            (self.key_cmp(a, b) == KeyOrdering::Less) <==> (self.key_cmp(b, a)
                == KeyOrdering::Greater),
    {
        lemma_cmp_of_flip(self.spec_comparator(), a, b);
    }

    /// Keys strictly ordered are distinct.
    proof fn lemma_lt_ne(self, a: Seq<u8>, b: Seq<u8>)
        requires
            self.key_lt(a, b) || self.key_lt(b, a),
        ensures
            a != b,
    {
        self.lemma_key_equal_iff(a, b);
        self.lemma_key_equal_iff(b, a);
    }

    /// Where `key` stands: the index of its entry (`true`), or the index at
    /// which an entry for it would have to be inserted (`false`).
    fn find_position(&self, key: &[u8]) -> (r: (usize, bool))
        requires
            self.wf(),
        ensures
            ({
                let (i, found) = r;
                &&& i <= self@.len()
                &&& forall|j: int| 0 <= j < i ==> self.key_lt((#[trigger] self@[j]).key, key@)
                &&& (found ==> i < self@.len() && self@[i as int].key == key@)
                &&& (!found ==> forall|j: int|
                    i <= j < self@.len() ==> self.key_lt(key@, (#[trigger] self@[j]).key))
            }),
    {
        let n = self.entries.len();
        let mut i: usize = 0;
        while i < n
            invariant
                self.wf(),
                n == self@.len(),
                i <= n,
                forall|j: int| 0 <= j < i ==> self.key_lt((#[trigger] self@[j]).key, key@),
            decreases n - i,
        {
            match self.compare_keys(self.entries[i].key.as_slice(), key) {
                KeyOrdering::Less => {
                    i = i + 1;
                },
                KeyOrdering::Equal => {
                    proof {
                        self.lemma_key_equal_iff(self@[i as int].key, key@);
                    }
                    return (i, true);
                },
                KeyOrdering::Greater => {
                    proof {
                        self.lemma_key_flip(key@, self@[i as int].key);
                        assert forall|j: int| i <= j < self@.len() implies self.key_lt(
                            key@,
                            (#[trigger] self@[j]).key,
                        ) by {
                            if j > i {
                                self.lemma_key_transitive(
                                    key@,
                                    self@[i as int].key,
                                    self@[j].key,
                                );
                            }
                        }
                    }
                    return (i, false);
                },
            }
        }
        (i, false)
    }

    /// Write `val` at `key`, superseding any previous value and any staged
    /// merge operands.  Never fails.
    pub fn put(&mut self, options: &WriteOptions, key: &[u8], val: &[u8]) -> (r: Result<
        (),
        Error,
    >)
        requires
            old(self).wf(),
        ensures
            r is Ok,
            final(self).wf(),
            final(self).same_config(*old(self)),
            spec_find(final(self)@, key@) == Some(
                EntryView { key: key@, base: Some(val@), operands: Seq::empty() },
            ),
            forall|k2: Seq<u8>|
                k2 != key@ ==> spec_find(final(self)@, k2) == spec_find(old(self)@, k2),
    {
        let entry = Entry {
            key: slice_to_vec(key),
            base: Some(slice_to_vec(val)),
            operands: Vec::new(),
        };
        let ghost ev = EntryView { key: key@, base: Some(val@), operands: Seq::empty() };
        proof {
            assert(entry@.operands =~= ev.operands);
            assert(entry@ == ev);
        }
        let (i, found) = self.find_position(key);
        let ghost pre = self@;
        let ghost prev_entries = self.entries@;
        let ghost esnap = entry;
        if found {
            self.entries.set(i, entry);
            proof {
                lemma_views_update(prev_entries, self.entries@, i as int, esnap);
                self.lemma_after_replace(pre, i as int, ev, key@);
            }
        } else {
            self.entries.insert(i, entry);
            proof {
                lemma_views_insert(prev_entries, self.entries@, i as int, esnap);
                self.lemma_after_insert(pre, i as int, ev, key@);
            }
        }
        Ok(())
    }

    /// After replacing the entry at `i` (whose key was `key`) by `ev` (whose
    /// key is `key`), the column family is well formed, `key` finds `ev`, and
    /// every other key finds what it found before.
    proof fn lemma_after_replace(self, pre: Seq<EntryView>, i: int, ev: EntryView, key: Seq<u8>)
        requires
            0 <= i < pre.len(),
            self@ == pre.update(i, ev),
            ev.key == key,
            pre[i].key == key,
            ev.base is Some || ev.operands.len() > 0,
            forall|j: int| 0 <= j < i ==> self.key_lt((#[trigger] pre[j]).key, key),
            forall|p: int, q: int|
                #![trigger pre[p], pre[q]]
                0 <= p < q < pre.len() ==> self.key_lt(pre[p].key, pre[q].key) && pre[p].key
                    != pre[q].key,
            forall|j: int|
                0 <= j < pre.len() ==> (#[trigger] pre[j]).base is Some || pre[j].operands.len()
                    > 0,
        ensures
            self.wf(),
            spec_find(self@, key) == Some(ev),
            forall|k2: Seq<u8>| k2 != key ==> spec_find(self@, k2) == spec_find(pre, k2),
    {
        let cur = self@;
        assert(forall|j: int|
            0 <= j < cur.len() ==> (#[trigger] cur[j]).key == pre[j].key && (cur[j].base is Some
                || cur[j].operands.len() > 0));
        assert forall|p: int, q: int|
            #![trigger cur[p], cur[q]]
            0 <= p < q < cur.len() implies self.key_lt(cur[p].key, cur[q].key) && cur[p].key
            != cur[q].key by {
            assert(pre[p].key == cur[p].key && pre[q].key == cur[q].key);
        }
        assert forall|j: int| 0 <= j < i implies (#[trigger] cur[j]).key != key by {
            self.lemma_lt_ne(cur[j].key, key);
        }
        lemma_find_present(cur, key, i);
        assert forall|k2: Seq<u8>| k2 != key implies spec_find(cur, k2) == spec_find(pre, k2) by {
            let front = pre.take(i);
            let back = pre.skip(i + 1);
            assert(pre =~= front + (seq![pre[i]] + back));
            assert(cur =~= front + (seq![ev] + back));
            lemma_find_concat(front, seq![pre[i]] + back, k2);
            lemma_find_concat(front, seq![ev] + back, k2);
            lemma_find_concat(seq![pre[i]], back, k2);
            lemma_find_concat(seq![ev], back, k2);
            lemma_find_single_miss(pre[i], k2);
            lemma_find_single_miss(ev, k2);
            assert(spec_find(seq![pre[i]] + back, k2) == spec_find(back, k2));
            assert(spec_find(seq![ev] + back, k2) == spec_find(back, k2));
            if spec_find(front, k2) is Some {
                assert(spec_find(pre, k2) == spec_find(front, k2));
                assert(spec_find(cur, k2) == spec_find(front, k2));
            } else {
                assert(spec_find(pre, k2) == spec_find(back, k2));
                assert(spec_find(cur, k2) == spec_find(back, k2));
            }
        }
    }

    /// After inserting `ev` (whose key is `key`) at the position where
    /// `key` belongs in the order, the column family is well formed, `key`
    /// finds `ev`, and every other key finds what it found before.
    proof fn lemma_after_insert(self, pre: Seq<EntryView>, i: int, ev: EntryView, key: Seq<u8>)
        requires
            0 <= i <= pre.len(),
            self@ == pre.insert(i, ev),
            ev.key == key,
            ev.base is Some || ev.operands.len() > 0,
            forall|j: int| 0 <= j < i ==> self.key_lt((#[trigger] pre[j]).key, key),
            forall|j: int| i <= j < pre.len() ==> self.key_lt(key, (#[trigger] pre[j]).key),
            forall|p: int, q: int|
                #![trigger pre[p], pre[q]]
                0 <= p < q < pre.len() ==> self.key_lt(pre[p].key, pre[q].key) && pre[p].key
                    != pre[q].key,
            forall|j: int|
                0 <= j < pre.len() ==> (#[trigger] pre[j]).base is Some || pre[j].operands.len()
                    > 0,
        ensures
            self.wf(),
            spec_find(self@, key) == Some(ev),
            forall|k2: Seq<u8>| k2 != key ==> spec_find(self@, k2) == spec_find(pre, k2),
    {
        let cur = self@;
        pre.insert_ensures(i, ev);
        assert forall|p: int, q: int|
            #![trigger cur[p], cur[q]]
            0 <= p < q < cur.len() implies self.key_lt(cur[p].key, cur[q].key) && cur[p].key
            != cur[q].key by {
            if q < i {
                assert(cur[p] == pre[p] && cur[q] == pre[q]);
            } else if q == i {
                assert(cur[p] == pre[p]);
                self.lemma_lt_ne(cur[p].key, key);
            } else if p < i {
                assert(cur[p] == pre[p] && cur[q] == pre[q - 1]);
                self.lemma_lt_ne(cur[p].key, cur[q].key);
            } else if p == i {
                assert(cur[q] == pre[q - 1]);
                self.lemma_lt_ne(key, cur[q].key);
            } else {
                assert(cur[p] == pre[p - 1] && cur[q] == pre[q - 1]);
            }
        }
        assert forall|j: int|
            0 <= j < cur.len() implies (#[trigger] cur[j]).base is Some || cur[j].operands.len()
            > 0 by {
            if j < i {
                assert(cur[j] == pre[j]);
            } else if j > i {
                assert(cur[j] == pre[j - 1]);
            }
        }
        assert forall|j: int| 0 <= j < i implies (#[trigger] cur[j]).key != key by {
            assert(cur[j] == pre[j]);
            self.lemma_lt_ne(cur[j].key, key);
        }
        assert(cur[i] == ev);
        lemma_find_present(cur, key, i);
        assert forall|k2: Seq<u8>| k2 != key implies spec_find(cur, k2) == spec_find(pre, k2) by {
            let front = pre.take(i);
            let back = pre.skip(i);
            assert(pre =~= front + back);
            assert(cur =~= front + (seq![ev] + back));
            lemma_find_concat(front, back, k2);
            lemma_find_concat(front, seq![ev] + back, k2);
            lemma_find_concat(seq![ev], back, k2);
            lemma_find_single_miss(ev, k2);
            assert(spec_find(seq![ev] + back, k2) == spec_find(back, k2));
        }
    }

    /// Remove `key` and any staged merge operands for it.  Deleting an
    /// absent key is a no-op.  Never fails.
    pub fn delete(&mut self, options: &WriteOptions, key: &[u8]) -> (r: Result<(), Error>)
        requires
            old(self).wf(),
        ensures
            r is Ok,
            final(self).wf(),
            final(self).same_config(*old(self)),
            spec_find(final(self)@, key@) == None::<EntryView>,
            forall|k2: Seq<u8>|
                k2 != key@ ==> spec_find(final(self)@, k2) == spec_find(old(self)@, k2),
    {
        let (i, found) = self.find_position(key);
        let ghost pre = self@;
        let ghost prev_entries = self.entries@;
        if found {
            self.entries.remove(i);
            proof {
                lemma_views_remove(prev_entries, self.entries@, i as int);
                self.lemma_after_remove(pre, i as int, key@);
            }
        } else {
            proof {
                assert forall|j: int| 0 <= j < pre.len() implies (#[trigger] pre[j]).key
                    != key@ by {
                    self.lemma_lt_ne(pre[j].key, key@);
                }
                lemma_find_none(pre, key@);
            }
        }
        Ok(())
    }

    /// After removing the entry at `i` (whose key was `key`), the column
    /// family is well formed, `key` finds nothing, and every other key finds
    /// what it found before.
    proof fn lemma_after_remove(self, pre: Seq<EntryView>, i: int, key: Seq<u8>)
        requires
            0 <= i < pre.len(),
            self@ == pre.remove(i),
            pre[i].key == key,
            forall|j: int| 0 <= j < i ==> self.key_lt((#[trigger] pre[j]).key, key),
            forall|p: int, q: int|
                #![trigger pre[p], pre[q]]
                0 <= p < q < pre.len() ==> self.key_lt(pre[p].key, pre[q].key) && pre[p].key
                    != pre[q].key,
            forall|j: int|
                0 <= j < pre.len() ==> (#[trigger] pre[j]).base is Some || pre[j].operands.len()
                    > 0,
        ensures
            self.wf(),
            spec_find(self@, key) == None::<EntryView>,
            forall|k2: Seq<u8>| k2 != key ==> spec_find(self@, k2) == spec_find(pre, k2),
    {
        let cur = self@;
        pre.remove_ensures(i);
        assert forall|p: int, q: int|
            #![trigger cur[p], cur[q]]
            0 <= p < q < cur.len() implies self.key_lt(cur[p].key, cur[q].key) && cur[p].key
            != cur[q].key by {
            if q < i {
                assert(cur[p] == pre[p] && cur[q] == pre[q]);
            } else if p < i {
                assert(cur[p] == pre[p] && cur[q] == pre[q + 1]);
            } else {
                assert(cur[p] == pre[p + 1] && cur[q] == pre[q + 1]);
            }
        }
        assert forall|j: int|
            0 <= j < cur.len() implies ((#[trigger] cur[j]).base is Some || cur[j].operands.len()
            > 0) && cur[j].key != key by {
            if j < i {
                assert(cur[j] == pre[j]);
                self.lemma_lt_ne(cur[j].key, key);
            } else {
                assert(cur[j] == pre[j + 1]);
                self.lemma_lt_ne(key, cur[j].key);
            }
        }
        lemma_find_none(cur, key);
        assert forall|k2: Seq<u8>| k2 != key implies spec_find(cur, k2) == spec_find(pre, k2) by {
            let front = pre.take(i);
            let back = pre.skip(i + 1);
            assert(pre =~= front + (seq![pre[i]] + back));
            assert(cur =~= front + back);
            lemma_find_concat(front, seq![pre[i]] + back, k2);
            lemma_find_concat(front, back, k2);
            lemma_find_concat(seq![pre[i]], back, k2);
            lemma_find_single_miss(pre[i], k2);
            assert(spec_find(seq![pre[i]] + back, k2) == spec_find(back, k2));
        }
    }

    /// Stage a merge operand at `key`, to be folded through the merge
    /// operator when the key is next read.
    ///
    /// Fails, changing nothing, exactly when the column family has no merge
    /// operator configured.
    pub fn merge(&mut self, options: &WriteOptions, key: &[u8], val: &[u8]) -> (r: Result<
        (),
        Error,
    >)
        requires
            old(self).wf(),
        ensures
            old(self).spec_merge_operator() is Some ==> r is Ok && final(self).wf()
                && final(self).same_config(*old(self)) && spec_find(final(self)@, key@) == Some(
                merged_entry(spec_find(old(self)@, key@), key@, val@),
            ) && (forall|k2: Seq<u8>|
                k2 != key@ ==> spec_find(final(self)@, k2) == spec_find(old(self)@, k2)),
            old(self).spec_merge_operator() is None ==> (r matches Err(e) && e matches
                Error::EngineFailure(_)) && *final(self) == *old(self),
    {
        if self.merge_operator.is_none() {
            return Err(err_no_merge_operator());
        }
        let (i, found) = self.find_position(key);
        let ghost pre = self@;
        let ghost prev_entries = self.entries@;
        if found {
            let mut entry = self.entries[i].duplicate();
            entry.operands.push(slice_to_vec(val));
            let ghost ev = EntryView {
                key: pre[i as int].key,
                base: pre[i as int].base,
                operands: pre[i as int].operands.push(val@),
            };
            proof {
                assert(entry@.operands =~= ev.operands);
                assert(entry@ == ev);
                assert forall|j: int| 0 <= j < i implies (#[trigger] pre[j]).key != key@ by {
                    self.lemma_lt_ne(pre[j].key, key@);
                }
                lemma_find_present(pre, key@, i as int);
            }
            let ghost esnap = entry;
            self.entries.set(i, entry);
            proof {
                lemma_views_update(prev_entries, self.entries@, i as int, esnap);
                self.lemma_after_replace(pre, i as int, ev, key@);
            }
        } else {
            let mut operands: Vec<Vec<u8>> = Vec::new();
            operands.push(slice_to_vec(val));
            let entry = Entry { key: slice_to_vec(key), base: None, operands };
            let ghost ev = EntryView { key: key@, base: None, operands: seq![val@] };
            proof {
                assert(entry@.operands =~= ev.operands);
                assert(entry@ == ev);
                assert forall|j: int| 0 <= j < pre.len() implies (#[trigger] pre[j]).key
                    != key@ by {
                    self.lemma_lt_ne(pre[j].key, key@);
                }
                lemma_find_none(pre, key@);
            }
            let ghost esnap = entry;
            self.entries.insert(i, entry);
            proof {
                lemma_views_insert(prev_entries, self.entries@, i as int, esnap);
                self.lemma_after_insert(pre, i as int, ev, key@);
            }
        }
        Ok(())
    }
}

impl<C: Comparator, M: MergeOperator> ColumnFamily<C, M> {
    /// The value one entry folds to when read: its base value when no
    /// merges are staged, else the full merge of base and operands; `None`
    /// when the fold fails or no operator is configured.
    pub open spec fn spec_fold_value(self, e: EntryView) -> Option<Seq<u8>> {
        if e.operands.len() == 0 {
            e.base
        } else {
            match self.spec_merge_operator() {
                None => None,
                Some(m) => m.spec_full_merge(e.key, e.base, e.operands),
            }
        }
    }

    /// The column family's keys, front first in its key order.
    pub open spec fn spec_keys(self) -> Seq<Seq<u8>> {
        self@.map_values(|e: EntryView| e.key)
    }

    /// A fresh cursor over the column family, seeded at its first key.
    ///
    /// The cursor yields one pair per entry, in the column family's key
    /// order (ascending under its comparator), each value with its staged
    /// merges folded in.  When folding an entry fails, the cursor yields the
    /// pairs before it and then reports a terminal failure instead of normal
    /// exhaustion.
    pub fn iter(&self, options: &ReadOptions) -> (r: Result<KeyValues, Error>)
        requires
            self.wf(),
        ensures
            r matches Ok(kvs) && ({
                &&& kvs.wf()
                &&& kvs.remaining().len() <= self@.len()
                &&& forall|i: int|
                    0 <= i < kvs.remaining().len() ==> (#[trigger] kvs.remaining()[i]).0
                        == self@[i].key && self.spec_fold_value(self@[i]) == Some(
                        kvs.remaining()[i].1,
                    )
                &&& (kvs.spec_failed() ==> kvs.remaining().len() < self@.len()
                    && self.spec_fold_value(self@[kvs.remaining().len() as int]) is None)
                &&& (!kvs.spec_failed() ==> kvs.remaining().len() == self@.len())
            }),
    {
        let n = self.entries.len();
        let mut items: Vec<KeyValue> = Vec::new();
        let mut i: usize = 0;
        while i < n
            invariant
                self.wf(),
                n == self@.len(),
                i <= n,
                items@.len() == i,
                forall|j: int|
                    0 <= j < i ==> (#[trigger] items@[j]).key@ == self@[j].key
                        && self.spec_fold_value(self@[j]) == Some(items@[j].value@),
            decreases n - i,
        {
            let entry = &self.entries[i];
            if entry.operands.len() == 0 {
                match &entry.base {
                    Some(v) => {
                        items.push(
                            KeyValue {
                                key: slice_to_vec(entry.key.as_slice()),
                                value: slice_to_vec(v.as_slice()),
                            },
                        );
                    },
                    None => {
                        return Ok(KeyValues::new(items, true));
                    },
                }
            } else {
                match &self.merge_operator {
                    None => {
                        return Ok(KeyValues::new(items, true));
                    },
                    Some(p) => {
                        let operands = Operands::new(clone_vec_list(&entry.operands));
                        let existing: Option<&[u8]> = match &entry.base {
                            Some(v) => Some(v.as_slice()),
                            None => None,
                        };
                        match p.1.full_merge(entry.key.as_slice(), existing, operands) {
                            Some(v) => {
                                items.push(
                                    KeyValue { key: slice_to_vec(entry.key.as_slice()), value: v },
                                );
                            },
                            None => {
                                return Ok(KeyValues::new(items, true));
                            },
                        }
                    },
                }
            }
            i = i + 1;
        }
        Ok(KeyValues::new(items, false))
    }

    /// Whether `ks` is strictly ascending in this column family's key order.
    pub open spec fn keys_sorted(self, ks: Seq<Seq<u8>>) -> bool {
        forall|i: int, j: int|
            #![trigger ks[i], ks[j]]
            0 <= i < j < ks.len() ==> self.key_lt(ks[i], ks[j])
    }

    /// Iteration order: the keys a fresh cursor yields (a front prefix of
    /// the column family's keys) are strictly ascending under the column
    /// family's comparator.
    pub proof fn lemma_iteration_sorted(self, ks: Seq<Seq<u8>>)
        requires
            self.wf(),
            ks.len() <= self@.len(),
            forall|i: int| 0 <= i < ks.len() ==> (#[trigger] ks[i]) == self@[i].key,
        ensures
            self.keys_sorted(ks),
    {
    }

    /// With a comparator configured, this column family's sortedness is that
    /// comparator's.
    pub proof fn lemma_keys_sorted_by_comparator(self, c: C, ks: Seq<Seq<u8>>)
        requires
            self.spec_comparator() == Some(c),
        ensures
            self.keys_sorted(ks) == crate::comparator::strictly_sorted_by(c, ks),
    {
    }
}

/// Iteration-order reversal, end to end: for two well-formed column
/// families holding the same keys, one ordered by comparator `c` and one by
/// its reversal, the key sequences their cursors yield in full are exact
/// reversals of each other.
pub proof fn lemma_reversed_iteration_order<C: Comparator, M1: MergeOperator, M2: MergeOperator>(
    a: ColumnFamily<C, M1>,
    b: ColumnFamily<ReverseComparator<C>, M2>,
    c: C,
)
    requires
        a.wf(),
        b.wf(),
        a.spec_comparator() == Some(c),
        b.spec_comparator() == Some(ReverseComparator(c)),
        a.spec_keys().to_multiset() == b.spec_keys().to_multiset(),
    ensures
        b.spec_keys() == a.spec_keys().reverse(),
{
    let ka = a.spec_keys();
    let kb = b.spec_keys();
    assert(crate::comparator::strictly_sorted_by(c, ka)) by {
        assert forall|i: int, j: int| 0 <= i < j < ka.len() implies c.cmp_spec(ka[i], ka[j])
            == KeyOrdering::Less by {
            assert(ka[i] == a@[i].key && ka[j] == a@[j].key);
        }
    }
    assert(crate::comparator::strictly_sorted_by(ReverseComparator(c), kb)) by {
        assert forall|i: int, j: int| 0 <= i < j < kb.len() implies ReverseComparator(c).cmp_spec(
            kb[i],
            kb[j],
        ) == KeyOrdering::Less by {
            assert(kb[i] == b@[i].key && kb[j] == b@[j].key);
        }
    }
    crate::comparator::lemma_reversed_comparator_reverses_order(c, ka, kb);
}

impl<C: Comparator, M: MergeOperator> ColumnFamily<C, M> {
    /// Whether a merge operator is configured.
    pub fn has_merge_operator(&self) -> (r: bool)
        ensures
            r == (self.spec_merge_operator() is Some),
    {
        self.merge_operator.is_some()
    }

    /// Copy the column family's entries out, e.g. to persist them.
    pub fn export_entries(&self) -> (r: Vec<Entry>)
        ensures
            entry_views(r@) == self@,
    {
        let mut r: Vec<Entry> = Vec::new();
        let n = self.entries.len();
        let mut i: usize = 0;
        while i < n
            invariant
                n == self@.len(),
                i <= n,
                r@.len() == i,
                forall|j: int| 0 <= j < i ==> (#[trigger] r@[j])@ == self@[j],
            decreases n - i,
        {
            r.push(self.entries[i].duplicate());
            i = i + 1;
        }
        proof {
            assert(entry_views(r@) =~= self@);
        }
        r
    }

    /// Rebuild a handle from a name, its configuration and previously
    /// exported entries.
    ///
    /// Fails exactly when the entries are not well formed under the
    /// configuration's key order: that is how a comparator that does not
    /// match the one the entries were written under is detected.
    pub fn create_with_entries(
        name: String,
        options: ColumnFamilyOptions<C, M>,
        entries: Vec<Entry>,
    ) -> (r: Result<Self, Error>)
        ensures
            match r {
                Ok(cf) => {
                    &&& cf.wf()
                    &&& cf@ == entry_views(entries@)
                    &&& cf.spec_name() == name@
                    &&& cf.spec_comparator() == options.spec_comparator()
                    &&& cf.spec_merge_operator() == options.spec_merge_operator()
                },
                Err(e) => (e matches Error::EngineFailure(_)) && !entries_wf_under(
                    options.spec_comparator(),
                    entry_views(entries@),
                ),
            },
    {
        let cf = ColumnFamily {
            name,
            comparator: options.comparator,
            merge_operator: options.merge_operator,
            entries,
        };
        let n = cf.entries.len();
        let mut i: usize = 0;
        while i < n
            invariant
                n == cf@.len(),
                cf@ == entry_views(entries@),
                cf.spec_comparator() == options.spec_comparator(),
                i <= n,
                forall|j: int|
                    0 <= j < i ==> (#[trigger] cf@[j]).base is Some || cf@[j].operands.len() > 0,
                forall|p: int|
                    0 <= p < i - 1 ==> #[trigger] cmp_of(
                        cf.spec_comparator(),
                        cf@[p].key,
                        cf@[p + 1].key,
                    ) == KeyOrdering::Less,
            decreases n - i,
        {
            let empty_entry = match &cf.entries[i].base {
                Some(_) => false,
                None => cf.entries[i].operands.len() == 0,
            };
            if empty_entry {
                proof {
                    let bad = cf@[i as int];
                    assert(bad.base is None && bad.operands.len() == 0);
                    assert(!entries_wf_under(options.spec_comparator(), entry_views(entries@)));
                }
                return Err(err_entries_not_ordered());
            }
            if i > 0 {
                match cf.compare_keys(
                    cf.entries[i - 1].key.as_slice(),
                    cf.entries[i].key.as_slice(),
                ) {
                    KeyOrdering::Less => {
                    },
                    _ => {
                        proof {
                            if entries_wf_under(options.spec_comparator(), entry_views(entries@)) {
                                let a = cf@[i as int - 1];
                                let b = cf@[i as int];
                                assert(cmp_of(cf.spec_comparator(), a.key, b.key)
                                    == KeyOrdering::Less);
                            }
                        }
                        return Err(err_entries_not_ordered());
                    },
                }
            }
            proof {
                if i > 0 {
                    let p = i - 1;
                    assert(cmp_of(cf.spec_comparator(), cf@[p as int].key, cf@[p as int + 1].key)
                        == KeyOrdering::Less);
                }
            }
            i = i + 1;
        }
        proof {
            lemma_adjacent_sorted_wf(cf.spec_comparator(), cf@);
        }
        Ok(cf)
    }

    /// After a put of `key` and `value` (see [`ColumnFamily::put`]'s
    /// contract), reading `key` finds exactly `value`.
    pub proof fn lemma_put_then_get(self, key: Seq<u8>, value: Seq<u8>)
        requires
            spec_find(self@, key) == Some(
                EntryView { key, base: Some(value), operands: Seq::empty() },
            ),
        ensures
            self.spec_lookup(key) == Lookup::Found(value),
    {
    }

    /// A key that was never put (or was deleted, or whose staged merges were
    /// deleted with it — see [`ColumnFamily::delete`]'s contract) reads as
    /// absent.
    pub proof fn lemma_absent_then_get(self, key: Seq<u8>)
        requires
            spec_find(self@, key) == None::<EntryView>,
        ensures
            self.spec_lookup(key) == Lookup::Absent,
    {
    }

    /// Reading a key with staged merge operands folds them through the merge
    /// operator: the value read is the operator's full merge of the base
    /// value and the operands, and a fold failure surfaces as a failed read.
    /// Together with [`crate::merge::lemma_associative_merge_fold`], reading
    /// after a put and a run of merges yields the direct left fold of the
    /// operands onto the put value.
    pub proof fn lemma_merge_then_get(self, key: Seq<u8>, base: Seq<u8>, operands: Seq<Seq<u8>>, m: M)
        requires
            spec_find(self@, key) == Some(EntryView { key, base: Some(base), operands }),
            operands.len() > 0,
            self.spec_merge_operator() == Some(m),
        ensures
            self.spec_lookup(key) == (match m.spec_full_merge(key, Some(base), operands) {
                Some(v) => Lookup::Found(v),
                None => Lookup::MergeFailed,
            }),
    {
    }
}

/// The error reported when a merge is attempted without a merge operator.
fn err_no_merge_operator() -> (e: Error)
    ensures
        e matches Error::EngineFailure(_),
{
    Error::EngineFailure("NotSupported: merge requires a merge operator".to_owned())
}

/// The error reported when stored entries do not fit the configured key
/// order, e.g. because a different comparator wrote them.
fn err_entries_not_ordered() -> (e: Error)
    ensures
        e matches Error::EngineFailure(_),
{
    Error::EngineFailure(
        "Invalid argument: stored keys do not match the configured comparator".to_owned(),
    )
}

} // verus!
