//! The merge-operator extension point.
//!
//! A merge operator specifies the semantics of a merge, which only the client
//! knows: numeric addition, list append, string concatenation, anything.
//! This layer is concerned with exercising that interface at the right time
//! (during reads, iteration and compaction) and folds staged operands through
//! it when a merged key is read.
//!
//! Two shapes are supported.  The full shape gives the operator the base
//! value and the whole operand sequence; the simpler associative shape gives
//! it one accumulated value and one operand, and is lifted into the full
//! shape here by a left fold.  A merge step signals an unrecoverable merge by
//! returning the missing sentinel (`None`); that failure representation is
//! used consistently throughout this crate, and the access layer reports it
//! as [`crate::Error::MergeFailure`].

use vstd::prelude::*;
use vstd::slice::slice_to_vec;

verus! {

/// The byte-string view of an optional borrowed byte slice.
pub open spec fn opt_slice_view(v: Option<&[u8]>) -> Option<Seq<u8>> {
    match v {
        Some(s) => Some(s@),
        None => None,
    }
}

/// The sequence of byte-string views of a sequence of byte vectors.
pub open spec fn views_of(s: Seq<Vec<u8>>) -> Seq<Seq<u8>> {
    Seq::new(s.len(), |i: int| s[i]@)
}

/// The sequence of merge operands handed to a merge operator, front first.
///
/// Operands support random access by index; they are never mutated by the
/// operator.
pub struct Operands {
    items: Vec<Vec<u8>>,
}

impl View for Operands {
    type V = Seq<Seq<u8>>;

    closed spec fn view(&self) -> Seq<Seq<u8>> {
        views_of(self.items@)
    }
}

impl Operands {
    /// Wrap a vector of operand values, front first.
    pub fn new(items: Vec<Vec<u8>>) -> (r: Operands)
        ensures
            r@ == views_of(items@),
    {
        Operands { items }
    }

    /// How many operands there are.
    pub fn len(&self) -> (n: usize)
        ensures
            n == self@.len(),
    {
        self.items.len()
    }

    /// The operand at `i`, or nothing when `i` is out of range.
    pub fn get(&self, i: usize) -> (r: Option<&Vec<u8>>)
        ensures
            match r {
                Some(v) => i < self@.len() && v@ == self@[i as int],
                None => i >= self@.len(),
            },
    {
        if i < self.items.len() {
            Some(&self.items[i])
        } else {
            None
        }
    }
}

/// The full merge-operator shape.
///
/// `spec_full_merge` and `spec_partial_merge` state the operator's semantics
/// mathematically; the executable methods must return exactly what they say,
/// with `None` as the missing sentinel for an unrecoverable merge.  Operators
/// may be invoked concurrently by the engine and must not panic.
pub trait MergeOperator: Sized {
    /// What folding `operands` (front first) onto `existing` yields, or
    /// `None` when the merge is unrecoverable.
    spec fn spec_full_merge(
        self,
        key: Seq<u8>,
        existing: Option<Seq<u8>>,
        operands: Seq<Seq<u8>>,
    ) -> Option<Seq<u8>>;

    /// What combining `operands` (no base value) into one equivalent operand
    /// yields, or `None` to tell the engine to keep them unmerged.
    spec fn spec_partial_merge(self, key: Seq<u8>, operands: Seq<Seq<u8>>) -> Option<Seq<u8>>;

    /// Fold a base value (when there is one) and pending operands,
    /// front first, into one value.
    ///
    /// * `key`: the key this merge is for; an operator may multiplex on it.
    /// * `existing_val`: the value at the key before the staged merges.
    /// * `operands`: the staged merge operands, front first.
    fn full_merge(&self, key: &[u8], existing_val: Option<&[u8]>, operands: Operands) -> (r:
        Option<Vec<u8>>)
        ensures
            match r {
                Some(v) => self.spec_full_merge(key@, opt_slice_view(existing_val), operands@)
                    == Some(v@),
                None => self.spec_full_merge(key@, opt_slice_view(existing_val), operands@)
                    is None,
            },
    ;

    /// Combine two or more operands into a single equivalent operand.
    ///
    /// Merging `key` with the result must be equivalent to merging `key`
    /// with each operand front to back.  Returning `None` skips the
    /// optimization and keeps the operands unmerged.
    fn partial_merge(&self, key: &[u8], operands: Operands) -> (r: Option<Vec<u8>>)
        ensures
            match r {
                Some(v) => self.spec_partial_merge(key@, operands@) == Some(v@),
                None => self.spec_partial_merge(key@, operands@) is None,
            },
    ;
}

/// The simpler, associative merge-operator shape: one accumulated value and
/// one operand at a time.
pub trait AssociativeMergeOperator: Sized {
    /// What merging `operand` onto `existing` yields, or `None` when the
    /// merge is unrecoverable.
    spec fn spec_merge(self, key: Seq<u8>, existing: Seq<u8>, operand: Seq<u8>) -> Option<Seq<u8>>;

    /// Merge one operand onto the accumulated value.
    fn merge(&self, key: &[u8], existing_val: Vec<u8>, operand: &[u8]) -> (r: Option<Vec<u8>>)
        ensures
            match r {
                Some(v) => self.spec_merge(key@, existing_val@, operand@) == Some(v@),
                None => self.spec_merge(key@, existing_val@, operand@) is None,
            },
    ;
}

/// The left fold of `operands` (front first) onto `acc` through an
/// associative operator, short-circuiting to `None` on the first failure.
pub open spec fn assoc_fold<T: AssociativeMergeOperator>(
    op: T,
    key: Seq<u8>,
    acc: Seq<u8>,
    operands: Seq<Seq<u8>>,
) -> Option<Seq<u8>>
    decreases operands.len(),
{
    if operands.len() == 0 {
        Some(acc)
    } else {
        match op.spec_merge(key, acc, operands[0]) {
            Some(next) => assoc_fold(op, key, next, operands.drop_first()),
            None => None,
        }
    }
}

/// One step of [`assoc_fold`] at position `i` of a longer sequence.
proof fn lemma_assoc_fold_step<T: AssociativeMergeOperator>(
    op: T,
    key: Seq<u8>,
    acc: Seq<u8>,
    operands: Seq<Seq<u8>>,
    i: int,
)
    requires
        0 <= i < operands.len(),
    ensures
        assoc_fold(op, key, acc, operands.skip(i)) == match op.spec_merge(
            key,
            acc,
            operands[i],
        ) {
            Some(next) => assoc_fold(op, key, next, operands.skip(i + 1)),
            None => None::<Seq<u8>>,
        },
{
    assert(operands.skip(i)[0] == operands[i]);
    assert(operands.skip(i).drop_first() =~= operands.skip(i + 1));
}

/// Every associative operator is a full operator: the base value (or the
/// first operand when no base exists) seeds the accumulator and the
/// remaining operands are left-folded through `merge`, short-circuiting to
/// the missing sentinel on the first failure.
impl<T: AssociativeMergeOperator> MergeOperator for T {
    open spec fn spec_full_merge(
        self,
        key: Seq<u8>,
        existing: Option<Seq<u8>>,
        operands: Seq<Seq<u8>>,
    ) -> Option<Seq<u8>> {
        match existing {
            Some(base) => assoc_fold(self, key, base, operands),
            None => if operands.len() == 0 {
                None
            } else {
                assoc_fold(self, key, operands[0], operands.drop_first())
            },
        }
    }

    open spec fn spec_partial_merge(self, key: Seq<u8>, operands: Seq<Seq<u8>>) -> Option<
        Seq<u8>,
    > {
        if operands.len() == 0 {
            None
        } else {
            assoc_fold(self, key, operands[0], operands.drop_first())
        }
    }

    fn full_merge(&self, key: &[u8], existing_val: Option<&[u8]>, operands: Operands) -> (r:
        Option<Vec<u8>>) {
        let mut start: usize = 0;
        let mut acc: Vec<u8>;
        match existing_val {
            Some(base) => {
                acc = slice_to_vec(base);
            },
            None => {
                match operands.get(0) {
                    Some(first) => {
                        acc = slice_to_vec(first.as_slice());
                        start = 1;
                    },
                    None => {
                        return None;
                    },
                }
            },
        }
        proof {
            assert(operands@.skip(0) =~= operands@);
            if existing_val is None {
                assert(operands@.skip(1) =~= operands@.drop_first());
            }
        }
        fold_from(self, key, acc, operands, start)
    }

    fn partial_merge(&self, key: &[u8], operands: Operands) -> (r: Option<Vec<u8>>) {
        match operands.get(0) {
            Some(first) => {
                let acc = slice_to_vec(first.as_slice());
                proof {
                    assert(operands@.skip(1) =~= operands@.drop_first());
                }
                fold_from(self, key, acc, operands, 1)
            },
            None => None,
        }
    }
}

/// Fold `operands[start..]` onto `acc` through `op`, front first.
fn fold_from<T: AssociativeMergeOperator>(
    op: &T,
    key: &[u8],
    acc: Vec<u8>,
    operands: Operands,
    start: usize,
) -> (r: Option<Vec<u8>>)
    requires
        start <= operands@.len(),
    ensures
        match r {
            Some(v) => assoc_fold(*op, key@, acc@, operands@.skip(start as int)) == Some(v@),
            None => assoc_fold(*op, key@, acc@, operands@.skip(start as int)) is None,
        },
{
    let ghost whole = assoc_fold(*op, key@, acc@, operands@.skip(start as int));
    let mut cur = acc;
    let mut i: usize = start;
    loop
        invariant
            start <= i <= operands@.len(),
            whole == assoc_fold(*op, key@, acc@, operands@.skip(start as int)),
            assoc_fold(*op, key@, cur@, operands@.skip(i as int)) == whole,
        decreases operands@.len() - i,
    {
        match operands.get(i) {
            Some(operand) => {
                proof {
                    lemma_assoc_fold_step(*op, key@, cur@, operands@, i as int);
                }
                match op.merge(key, cur, operand.as_slice()) {
                    Some(next) => {
                        cur = next;
                        i = i + 1;
                    },
                    None => {
                        return None;
                    },
                }
            },
            None => {
                proof {
                    assert(operands@.skip(i as int) =~= Seq::<Seq<u8>>::empty());
                }
                return Some(cur);
            },
        }
    }
}

/// The associative-merge fold law: for an associative operator, folding a
/// base value `v0` and staged operands `o1 .. on` through the lifted full
/// merge equals the direct left fold of `o1 .. on` onto `v0` through the
/// operator's own `merge`.
pub proof fn lemma_associative_merge_fold<T: AssociativeMergeOperator>(
    op: T,
    key: Seq<u8>,
    base: Seq<u8>,
    operands: Seq<Seq<u8>>,
)
    ensures
        op.spec_full_merge(key, Some(base), operands) == operands.fold_left(
            Some(base),
            |acc: Option<Seq<u8>>, operand: Seq<u8>|
                match acc {
                    Some(v) => op.spec_merge(key, v, operand),
                    None => None,
                },
        ),
{
    lemma_assoc_fold_is_fold_left(op, key, Some(base), operands);
}

/// [`assoc_fold`] (over a present accumulator) agrees with `Seq::fold_left`
/// over an optional accumulator.
proof fn lemma_assoc_fold_is_fold_left<T: AssociativeMergeOperator>(
    op: T,
    key: Seq<u8>,
    acc: Option<Seq<u8>>,
    operands: Seq<Seq<u8>>,
)
    ensures
        (match acc {
            Some(v) => assoc_fold(op, key, v, operands),
            None => None,
        }) == operands.fold_left(
            acc,
            |a: Option<Seq<u8>>, operand: Seq<u8>|
                match a {
                    Some(v) => op.spec_merge(key, v, operand),
                    None => None,
                },
        ),
    decreases operands.len(),
{
    let f = |a: Option<Seq<u8>>, operand: Seq<u8>|
        match a {
            Some(v) => op.spec_merge(key, v, operand),
            None => None,
        };
    if operands.len() == 0 {
    } else {
        let next = f(acc, operands[0]);
        lemma_assoc_fold_is_fold_left(op, key, next, operands.drop_first());
        operands.lemma_fold_left_alt(acc, f);
        operands.drop_first().lemma_fold_left_alt(next, f);
        assert(operands.subrange(1, operands.len() as int) =~= operands.drop_first());
    }
}

} // verus!
