//! The cursor protocol: a forward, single-pass, non-restartable sequence
//! over a column family's key-value pairs.
//!
//! A cursor is seeded at the first key when it is created and advances until
//! exhausted.  A failure met while folding staged merges surfaces as a
//! terminal error state, distinguishable from normal exhaustion; a fresh
//! cursor must be created to iterate again.

use vstd::prelude::*;
use vstd::slice::slice_to_vec;

use crate::Error;

verus! {

/// One key-value pair yielded by a cursor.
#[derive(Debug)]
pub struct KeyValue {
    /// The entry's key.
    pub key: Vec<u8>,
    /// The entry's value, with staged merges folded in.
    pub value: Vec<u8>,
}

impl KeyValue {
    /// The pair of byte strings this holds.
    pub open spec fn pair(self) -> (Seq<u8>, Seq<u8>) {
        (self.key@, self.value@)
    }

    /// Copy a pair.
    pub fn duplicate(&self) -> (r: KeyValue)
        ensures
            r.pair() == self.pair(),
    {
        KeyValue {
            key: slice_to_vec(self.key.as_slice()),
            value: slice_to_vec(self.value.as_slice()),
        }
    }
}

/// A cursor over a column family's pairs, in the column family's key order.
pub struct KeyValues {
    items: Vec<KeyValue>,
    pos: usize,
    failed: bool,
}

impl KeyValues {
    /// The cursor has not run past its pairs.
    pub closed spec fn wf(self) -> bool {
        self.pos <= self.items@.len()
    }

    /// The pairs the cursor has yet to yield, front first.
    pub closed spec fn remaining(self) -> Seq<(Seq<u8>, Seq<u8>)> {
        self.items@.skip(self.pos as int).map_values(|kv: KeyValue| kv.pair())
    }

    /// Whether the cursor ends in a failure instead of normal exhaustion.
    pub closed spec fn spec_failed(self) -> bool {
        self.failed
    }

    /// A cursor over `items`, seeded at the first pair; when `failed` is
    /// set, the pairs after `items` were unreadable and the cursor reports a
    /// failure once `items` is exhausted.
    pub fn new(items: Vec<KeyValue>, failed: bool) -> (r: KeyValues)
        ensures
            r.wf(),
            r.spec_failed() == failed,
            r.remaining().len() == items@.len(),
            forall|i: int|
                0 <= i < items@.len() ==> #[trigger] r.remaining()[i] == items@[i].pair(),
    {
        let r = KeyValues { items, pos: 0, failed };
        proof {
            assert(r.items@.skip(0) =~= r.items@);
        }
        r
    }

    /// Yield the next pair.
    ///
    /// Produces the pair at the cursor and advances by one; when the cursor
    /// is exhausted it produces nothing, permanently, and reports the
    /// terminal failure instead when the scan failed mid-way.
    pub fn next(&mut self) -> (r: Result<Option<KeyValue>, Error>)
        requires
            old(self).wf(),
        ensures
            final(self).wf(),
            final(self).spec_failed() == old(self).spec_failed(),
            match r {
                Ok(Some(kv)) => old(self).remaining().len() > 0
                    && kv.pair() == old(self).remaining()[0]
                    && final(self).remaining() == old(self).remaining().drop_first(),
                Ok(None) => old(self).remaining().len() == 0 && !old(self).spec_failed()
                    && final(self).remaining() == old(self).remaining(),
                Err(e) => old(self).remaining().len() == 0 && old(self).spec_failed()
                    && (e matches Error::IterationFailure)
                    && final(self).remaining() == old(self).remaining(),
            },
    {
        if self.pos < self.items.len() {
            let kv = self.items[self.pos].duplicate();
            let ghost before = self.remaining();
            self.pos = self.pos + 1;
            proof {
                assert(self.items@.skip(self.pos as int) =~= self.items@.skip(
                    self.pos as int - 1,
                ).drop_first());
                assert(self.remaining() =~= before.drop_first());
            }
            Ok(Some(kv))
        } else if self.failed {
            proof {
                assert(self.items@.skip(self.pos as int) =~= Seq::<KeyValue>::empty());
                assert(self.remaining() =~= Seq::<(Seq<u8>, Seq<u8>)>::empty());
            }
            Err(Error::IterationFailure)
        } else {
            proof {
                assert(self.items@.skip(self.pos as int) =~= Seq::<KeyValue>::empty());
                assert(self.remaining() =~= Seq::<(Seq<u8>, Seq<u8>)>::empty());
            }
            Ok(None)
        }
    }

    /// Drain the cursor: yield every remaining pair, in order, leaving the
    /// cursor exhausted (or at its terminal failure).
    pub fn collect_remaining(&mut self) -> (r: Vec<KeyValue>)
        requires
            old(self).wf(),
        ensures
            final(self).wf(),
            r@.len() == old(self).remaining().len(),
            forall|i: int|
                0 <= i < r@.len() ==> (#[trigger] r@[i]).pair() == old(self).remaining()[i],
            final(self).remaining().len() == 0,
    {
        let mut out: Vec<KeyValue> = Vec::new();
        loop
            invariant
                self.wf(),
                self.spec_failed() == old(self).spec_failed(),
                out@.len() <= old(self).remaining().len(),
                self.remaining().len() == old(self).remaining().len() - out@.len(),
                forall|i: int|
                    0 <= i < out@.len() ==> (#[trigger] out@[i]).pair() == old(self).remaining()[i],
                forall|i: int|
                    0 <= i < self.remaining().len() ==> self.remaining()[i]
                        == old(self).remaining()[out@.len() + i],
            decreases self.remaining().len() + 1,
        {
            match self.next() {
                Ok(Some(kv)) => {
                    out.push(kv);
                },
                Ok(None) => {
                    return out;
                },
                Err(_) => {
                    return out;
                },
            }
        }
    }
}

} // verus!
