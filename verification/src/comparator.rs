//! Key orders for column families.
//!
//! A comparator is a named, deterministic total-order function over keys,
//! fixed for the lifetime of a column family's on-disk data.  The trait below
//! states the order mathematically and obliges every implementation to prove
//! the total-order laws, so that the sortedness invariant of a column family
//! and the iteration-order contract can be proved for any comparator.

use vstd::prelude::*;
use vstd::seq_lib::*;

verus! {

/// Three-way result of comparing two keys.
#[derive(Clone, Copy, Debug, PartialEq, Eq, Structural)]
pub enum KeyOrdering {
    Less,
    Equal,
    Greater,
}

/// Lexicographic byte-wise three-way comparison: the engine's default key
/// order.  A proper prefix orders before its extensions.
pub open spec fn lex_cmp(a: Seq<u8>, b: Seq<u8>) -> KeyOrdering
    decreases a.len(),
{
    if a.len() == 0 && b.len() == 0 {
        KeyOrdering::Equal
    } else if a.len() == 0 {
        KeyOrdering::Less
    } else if b.len() == 0 {
        KeyOrdering::Greater
    } else if a[0] < b[0] {
        KeyOrdering::Less
    } else if a[0] > b[0] {
        KeyOrdering::Greater
    } else {
        lex_cmp(a.drop_first(), b.drop_first())
    }
}

/// `lex_cmp` reports `Equal` exactly on equal byte strings.
pub proof fn lemma_lex_equal_iff_eq(a: Seq<u8>, b: Seq<u8>)
    ensures
        (lex_cmp(a, b) == KeyOrdering::Equal) <==> (a == b),
    decreases a.len(),
{
    if a.len() == 0 && b.len() == 0 {
        assert(a =~= b);
    } else if a.len() == 0 || b.len() == 0 {
        assert(a != b);
    } else if a[0] == b[0] {
        lemma_lex_equal_iff_eq(a.drop_first(), b.drop_first());
        if lex_cmp(a, b) == KeyOrdering::Equal {
            assert(a =~= seq![a[0]] + a.drop_first());
            assert(b =~= seq![b[0]] + b.drop_first());
        }
        if a == b {
            assert(a.drop_first() =~= b.drop_first());
        }
    } else {
        assert(a != b);
    }
}

/// `lex_cmp` is antisymmetric: swapping the arguments swaps `Less` and
/// `Greater`.
pub proof fn lemma_lex_flip(a: Seq<u8>, b: Seq<u8>)
    ensures
        (lex_cmp(a, b) == KeyOrdering::Less) <==> (lex_cmp(b, a) == KeyOrdering::Greater),
    decreases a.len(),
{
    if a.len() > 0 && b.len() > 0 && a[0] == b[0] {
        lemma_lex_flip(a.drop_first(), b.drop_first());
    }
}

/// `lex_cmp`'s strict order is transitive.
pub proof fn lemma_lex_transitive(a: Seq<u8>, b: Seq<u8>, c: Seq<u8>)
    requires
        lex_cmp(a, b) == KeyOrdering::Less,
        lex_cmp(b, c) == KeyOrdering::Less,
    ensures
        lex_cmp(a, c) == KeyOrdering::Less,
    decreases a.len(),
{
    if a.len() > 0 && b.len() > 0 && c.len() > 0 && a[0] == b[0] && b[0] == c[0] {
        lemma_lex_transitive(a.drop_first(), b.drop_first(), c.drop_first());
    }
}

/// A named, deterministic total order over byte-string keys.
///
/// Implementations state their order as a spec function and prove the
/// total-order laws.  An implementation must order keys exactly the same,
/// under the same name, across every open of the same on-disk store; that is
/// an engine-level correctness contract this layer cannot enforce, and it is
/// the caller's obligation.  Comparators may be invoked concurrently and must
/// not fail.
pub trait Comparator: Sized {
    /// The mathematical order this comparator implements.
    spec fn cmp_spec(self, a: Seq<u8>, b: Seq<u8>) -> KeyOrdering;

    /// Keys compare `Equal` exactly when they are the same bytes.
    proof fn lemma_equal_iff_eq(self, a: Seq<u8>, b: Seq<u8>)
        ensures
            (self.cmp_spec(a, b) == KeyOrdering::Equal) <==> (a == b),
    ;

    /// Swapping the arguments swaps `Less` and `Greater`.
    proof fn lemma_flip(self, a: Seq<u8>, b: Seq<u8>)
        ensures
            (self.cmp_spec(a, b) == KeyOrdering::Less) <==> (self.cmp_spec(b, a)
                == KeyOrdering::Greater),
    ;

    /// The strict order is transitive.
    proof fn lemma_transitive(self, a: Seq<u8>, b: Seq<u8>, c: Seq<u8>)
        requires
            self.cmp_spec(a, b) == KeyOrdering::Less,
            self.cmp_spec(b, c) == KeyOrdering::Less,
        ensures
            self.cmp_spec(a, c) == KeyOrdering::Less,
    ;

    /// Compare two keys; the result is exactly what `cmp_spec` says.
    fn compare(&self, a: &[u8], b: &[u8]) -> (r: KeyOrdering)
        ensures
            r == self.cmp_spec(a@, b@),
    ;
}

/// Helper for `bytewise_compare`: while the first `i` bytes agree, the
/// comparison of the suffixes from `i` equals the one from `i + 1`.
proof fn lemma_lex_skip_step(a: Seq<u8>, b: Seq<u8>, i: int)
    requires
        0 <= i < a.len(),
        i < b.len(),
        a[i] == b[i],
    ensures
        lex_cmp(a.skip(i), b.skip(i)) == lex_cmp(a.skip(i + 1), b.skip(i + 1)),
{
    assert(a.skip(i).drop_first() =~= a.skip(i + 1));
    assert(b.skip(i).drop_first() =~= b.skip(i + 1));
    assert(a.skip(i)[0] == a[i]);
    assert(b.skip(i)[0] == b[i]);
}

/// Byte-wise lexicographic comparison, the executable form of [`lex_cmp`].
pub fn bytewise_compare(a: &[u8], b: &[u8]) -> (r: KeyOrdering)
    ensures
        r == lex_cmp(a@, b@),
{
    let mut i: usize = 0;
    proof {
        assert(a@.skip(0) =~= a@);
        assert(b@.skip(0) =~= b@);
    }
    loop
        invariant
            i <= a@.len(),
            i <= b@.len(),
            lex_cmp(a@, b@) == lex_cmp(a@.skip(i as int), b@.skip(i as int)),
        decreases a@.len() - i,
    {
        if i == a.len() && i == b.len() {
            proof {
                assert(a@.skip(i as int) =~= Seq::<u8>::empty());
                assert(b@.skip(i as int) =~= Seq::<u8>::empty());
            }
            return KeyOrdering::Equal;
        } else if i == a.len() {
            proof {
                assert(a@.skip(i as int) =~= Seq::<u8>::empty());
                assert(b@.skip(i as int).len() > 0);
            }
            return KeyOrdering::Less;
        } else if i == b.len() {
            proof {
                assert(b@.skip(i as int) =~= Seq::<u8>::empty());
                assert(a@.skip(i as int).len() > 0);
            }
            return KeyOrdering::Greater;
        } else if a[i] < b[i] {
            proof {
                assert(a@.skip(i as int)[0] == a@[i as int]);
                assert(b@.skip(i as int)[0] == b@[i as int]);
            }
            return KeyOrdering::Less;
        } else if a[i] > b[i] {
            proof {
                assert(a@.skip(i as int)[0] == a@[i as int]);
                assert(b@.skip(i as int)[0] == b@[i as int]);
            }
            return KeyOrdering::Greater;
        } else {
            proof {
                lemma_lex_skip_step(a@, b@, i as int);
            }
            i = i + 1;
        }
    }
}

/// The engine's default comparator: lexicographic byte-wise order.
#[derive(Clone, Copy, Debug)]
pub struct BytewiseComparator;

impl Comparator for BytewiseComparator {
    open spec fn cmp_spec(self, a: Seq<u8>, b: Seq<u8>) -> KeyOrdering {
        lex_cmp(a, b)
    }

    proof fn lemma_equal_iff_eq(self, a: Seq<u8>, b: Seq<u8>) {
        lemma_lex_equal_iff_eq(a, b);
    }

    proof fn lemma_flip(self, a: Seq<u8>, b: Seq<u8>) {
        lemma_lex_flip(a, b);
    }

    proof fn lemma_transitive(self, a: Seq<u8>, b: Seq<u8>, c: Seq<u8>) {
        lemma_lex_transitive(a, b, c);
    }

    fn compare(&self, a: &[u8], b: &[u8]) -> (r: KeyOrdering) {
        bytewise_compare(a, b)
    }
}

/// A comparator that orders keys exactly opposite to the one it wraps.
#[derive(Debug)]
pub struct ReverseComparator<C: Comparator>(pub C);

impl<C: Comparator> Comparator for ReverseComparator<C> {
    open spec fn cmp_spec(self, a: Seq<u8>, b: Seq<u8>) -> KeyOrdering {
        self.0.cmp_spec(b, a)
    }

    proof fn lemma_equal_iff_eq(self, a: Seq<u8>, b: Seq<u8>) {
        self.0.lemma_equal_iff_eq(b, a);
    }

    proof fn lemma_flip(self, a: Seq<u8>, b: Seq<u8>) {
        self.0.lemma_flip(b, a);
    }

    proof fn lemma_transitive(self, a: Seq<u8>, b: Seq<u8>, c: Seq<u8>) {
        self.0.lemma_transitive(c, b, a);
    }

    fn compare(&self, a: &[u8], b: &[u8]) -> (r: KeyOrdering) {
        self.0.compare(b, a)
    }
}

/// Whether `keys` is in strictly ascending order under `c`.
pub open spec fn strictly_sorted_by<C: Comparator>(c: C, keys: Seq<Seq<u8>>) -> bool {
    forall|i: int, j: int|
        0 <= i < j < keys.len() ==> c.cmp_spec(keys[i], keys[j]) == KeyOrdering::Less
}

/// A key never orders strictly below itself.
pub proof fn lemma_irreflexive<C: Comparator>(c: C, a: Seq<u8>)
    ensures
        c.cmp_spec(a, a) == KeyOrdering::Equal,
{
    c.lemma_equal_iff_eq(a, a);
}

/// Two strictly sorted sequences with the same keys are the same sequence:
/// the sorted order of a key set under a given comparator is unique.
pub proof fn lemma_sorted_unique<C: Comparator>(c: C, s: Seq<Seq<u8>>, t: Seq<Seq<u8>>)
    requires
        strictly_sorted_by(c, s),
        strictly_sorted_by(c, t),
        s.to_multiset() == t.to_multiset(),
    ensures
        s == t,
    decreases s.len(),
{
    broadcast use vstd::seq_lib::group_to_multiset_ensures;

    if s.len() == 0 {
        assert(t.to_multiset().len() == 0);
        assert(t =~= s);
    } else {
        assert(s.to_multiset().count(s[0]) > 0);
        assert(t.contains(s[0]));
        let j = choose|j: int| 0 <= j < t.len() && t[j] == s[0];
        assert(t.to_multiset().count(t[0]) > 0);
        assert(s.contains(t[0]));
        let i = choose|i: int| 0 <= i < s.len() && s[i] == t[0];
        if j > 0 && i > 0 {
            // t[0] < t[j] == s[0] and s[0] < s[i] == t[0]: a cycle, impossible.
            c.lemma_transitive(t[0], s[0], t[0]);
            lemma_irreflexive(c, t[0]);
            assert(false);
        }
        assert(s[0] == t[0]);
        assert(s =~= seq![s[0]] + s.drop_first());
        assert(t =~= seq![t[0]] + t.drop_first());
        assert(s.drop_first().to_multiset() =~= s.to_multiset().remove(s[0])) by {
            assert(s.remove(0) =~= s.drop_first());
        }
        assert(t.drop_first().to_multiset() =~= t.to_multiset().remove(t[0])) by {
            assert(t.remove(0) =~= t.drop_first());
        }
        assert(strictly_sorted_by(c, s.drop_first())) by {
            assert(forall|i: int, j: int|
                0 <= i < j < s.drop_first().len() ==> s.drop_first()[i] == s[i + 1]
                    && s.drop_first()[j] == s[j + 1]);
        }
        assert(strictly_sorted_by(c, t.drop_first())) by {
            assert(forall|i: int, j: int|
                0 <= i < j < t.drop_first().len() ==> t.drop_first()[i] == t[i + 1]
                    && t.drop_first()[j] == t[j + 1]);
        }
        lemma_sorted_unique(c, s.drop_first(), t.drop_first());
        assert(s =~= t);
    }
}

/// A sequence is strictly sorted under the reverse of `c` exactly when its
/// reversal is strictly sorted under `c`.
pub proof fn lemma_reverse_sorted<C: Comparator>(c: C, s: Seq<Seq<u8>>)
    ensures
        strictly_sorted_by(ReverseComparator(c), s) <==> strictly_sorted_by(c, s.reverse()),
{
    let r = s.reverse();
    let n = s.len() as int;
    assert(r.len() == n);
    if strictly_sorted_by(ReverseComparator(c), s) {
        assert forall|i: int, j: int| 0 <= i < j < n implies c.cmp_spec(r[i], r[j])
            == KeyOrdering::Less by {
            assert(r[i] == s[n - 1 - i]);
            assert(r[j] == s[n - 1 - j]);
            assert(ReverseComparator(c).cmp_spec(s[n - 1 - j], s[n - 1 - i])
                == KeyOrdering::Less);
        }
    }
    if strictly_sorted_by(c, r) {
        assert forall|i: int, j: int| 0 <= i < j < n implies ReverseComparator(c).cmp_spec(
            s[i],
            s[j],
        ) == KeyOrdering::Less by {
            assert(s[i] == r[n - 1 - i]);
            assert(s[j] == r[n - 1 - j]);
            assert(c.cmp_spec(r[n - 1 - j], r[n - 1 - i]) == KeyOrdering::Less);
        }
    }
}

/// Reversing a comparator reverses the iteration order end-to-end: a
/// sequence of keys sorted under `c` and one with the same keys sorted under
/// the reversed comparator are exact reversals of each other.
pub proof fn lemma_reversed_comparator_reverses_order<C: Comparator>(
    c: C,
    s: Seq<Seq<u8>>,
    t: Seq<Seq<u8>>,
)
    requires
        strictly_sorted_by(c, s),
        strictly_sorted_by(ReverseComparator(c), t),
        s.to_multiset() == t.to_multiset(),
    ensures
        t == s.reverse(),
{
    lemma_reverse_sorted(c, t);
    t.lemma_reverse_to_multiset();
    lemma_sorted_unique(c, s, t.reverse());
    assert(t.reverse().reverse() =~= t);
}

} // verus!
