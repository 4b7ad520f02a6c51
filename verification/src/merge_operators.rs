//! Stock merge operators: byte-string concatenation and big-endian addition.

use vstd::prelude::*;

use crate::merge::{
    opt_slice_view, AssociativeMergeOperator, MergeOperator, Operands,
};

verus! {

/// The concatenation of a sequence of byte strings, front first.
pub open spec fn concat_all(s: Seq<Seq<u8>>) -> Seq<u8>
    decreases s.len(),
{
    if s.len() == 0 {
        Seq::empty()
    } else {
        s[0] + concat_all(s.drop_first())
    }
}

/// The byte string of an optional value, empty when absent.
pub open spec fn opt_bytes(v: Option<Seq<u8>>) -> Seq<u8> {
    match v {
        Some(s) => s,
        None => Seq::empty(),
    }
}

/// One step of [`concat_all`] at position `i` of a longer sequence.
proof fn lemma_concat_all_step(s: Seq<Seq<u8>>, i: int)
    requires
        0 <= i < s.len(),
    ensures
        concat_all(s.skip(i)) == s[i] + concat_all(s.skip(i + 1)),
{
    assert(s.skip(i)[0] == s[i]);
    assert(s.skip(i).drop_first() =~= s.skip(i + 1));
}

/// Append every byte of `s` to `out`.
fn push_all(out: &mut Vec<u8>, s: &[u8])
    ensures
        final(out)@ == old(out)@ + s@,
{
    let mut i: usize = 0;
    while i < s.len()
        invariant
            i <= s@.len(),
            out@ == old(out)@ + s@.take(i as int),
        decreases s@.len() - i,
    {
        out.push(s[i]);
        proof {
            assert(old(out)@ + s@.take(i as int) + seq![s@[i as int]] =~= old(out)@ + s@.take(
                i as int + 1,
            ));
        }
        i = i + 1;
    }
    proof {
        assert(s@.take(s@.len() as int) =~= s@);
    }
}

/// A merge operator that concatenates: the merged value is the base value
/// (when there is one) followed by every operand, front first.  It never
/// fails.
#[derive(Clone, Copy, Debug)]
pub struct ConcatMergeOperator;

impl MergeOperator for ConcatMergeOperator {
    open spec fn spec_full_merge(
        self,
        key: Seq<u8>,
        existing: Option<Seq<u8>>,
        operands: Seq<Seq<u8>>,
    ) -> Option<Seq<u8>> {
        Some(opt_bytes(existing) + concat_all(operands))
    }

    open spec fn spec_partial_merge(self, key: Seq<u8>, operands: Seq<Seq<u8>>) -> Option<
        Seq<u8>,
    > {
        Some(concat_all(operands))
    }

    fn full_merge(&self, key: &[u8], existing_val: Option<&[u8]>, operands: Operands) -> (r:
        Option<Vec<u8>>) {
        let mut out: Vec<u8> = Vec::new();
        match existing_val {
            Some(base) => {
                push_all(&mut out, base);
            },
            None => {
            },
        }
        proof {
            assert(out@ =~= opt_bytes(opt_slice_view(existing_val)));
        }
        concat_operands_onto(out, operands)
    }

    fn partial_merge(&self, key: &[u8], operands: Operands) -> (r: Option<Vec<u8>>) {
        let out: Vec<u8> = Vec::new();
        proof {
            assert(out@ =~= Seq::<u8>::empty());
        }
        concat_operands_onto(out, operands)
    }
}

/// Append every operand to `out`, front first.
fn concat_operands_onto(out: Vec<u8>, operands: Operands) -> (r: Option<Vec<u8>>)
    ensures
        r matches Some(v) && v@ == out@ + concat_all(operands@),
{
    let mut cur = out;
    let mut i: usize = 0;
    let n = operands.len();
    proof {
        assert(operands@.skip(0) =~= operands@);
    }
    while i < n
        invariant
            i <= n == operands@.len(),
            cur@ + concat_all(operands@.skip(i as int)) == out@ + concat_all(operands@),
        decreases n - i,
    {
        match operands.get(i) {
            Some(operand) => {
                proof {
                    lemma_concat_all_step(operands@, i as int);
                }
                push_all(&mut cur, operand.as_slice());
                proof {
                    assert(cur@ + concat_all(operands@.skip(i as int + 1)) =~= out@ + concat_all(
                        operands@,
                    ));
                }
            },
            None => {
            },
        }
        i = i + 1;
    }
    proof {
        assert(operands@.skip(n as int) =~= Seq::<Seq<u8>>::empty());
        assert(cur@ + Seq::<u8>::empty() =~= cur@);
    }
    Some(cur)
}

/// The unsigned value of the first eight bytes of `s`, big-endian.
pub open spec fn be64_val(s: Seq<u8>) -> int
    recommends
        s.len() >= 8,
{
    s[0] * 0x100000000000000 + s[1] * 0x1000000000000 + s[2] * 0x10000000000 + s[3] * 0x100000000
        + s[4] * 0x1000000 + s[5] * 0x10000 + s[6] * 0x100 + s[7]
}

/// The eight big-endian bytes of `v`.
pub open spec fn be64_bytes(v: u64) -> Seq<u8> {
    seq![
        (v >> 56) as u8,
        (v >> 48) as u8,
        (v >> 40) as u8,
        (v >> 32) as u8,
        (v >> 24) as u8,
        (v >> 16) as u8,
        (v >> 8) as u8,
        v as u8,
    ]
}

/// Reading back the eight big-endian bytes of `v` yields `v`.
pub proof fn lemma_be64_round_trip(v: u64)
    ensures
        be64_val(be64_bytes(v)) == v as int,
{
    assert(((v >> 56) as u8) * 0x100000000000000 + ((v >> 48) as u8) * 0x1000000000000 + ((v
        >> 40) as u8) * 0x10000000000 + ((v >> 32) as u8) * 0x100000000 + ((v >> 24) as u8)
        * 0x1000000 + ((v >> 16) as u8) * 0x10000 + ((v >> 8) as u8) * 0x100 + (v as u8) == v)
        by (bit_vector);
}

/// A merge operator that adds unsigned 64-bit big-endian integers.
///
/// A merge fails when a value is shorter than eight bytes; the sum wraps
/// modulo 2^64, as unsigned 64-bit machine addition does.
#[derive(Clone, Copy, Debug)]
pub struct AddMergeOperator;

impl AddMergeOperator {
    /// Read a big-endian u64 from the first eight bytes, or nothing when
    /// fewer than eight bytes are given.
    pub fn read_u64(bytes: &[u8]) -> (r: Option<u64>)
        ensures
            match r {
                Some(v) => bytes@.len() >= 8 && v as int == be64_val(bytes@),
                None => bytes@.len() < 8,
            },
    {
        if bytes.len() < 8 {
            return None;
        }
        let b0 = bytes[0];
        let b1 = bytes[1];
        let b2 = bytes[2];
        let b3 = bytes[3];
        let b4 = bytes[4];
        let b5 = bytes[5];
        let b6 = bytes[6];
        let b7 = bytes[7];
        let v: u64 = ((b0 as u64) << 56) | ((b1 as u64) << 48) | ((b2 as u64) << 40) | ((
        b3 as u64) << 32) | ((b4 as u64) << 24) | ((b5 as u64) << 16) | ((b6 as u64) << 8) | (
        b7 as u64);
        proof {
            assert(((b0 as u64) << 56) | ((b1 as u64) << 48) | ((b2 as u64) << 40) | ((
            b3 as u64) << 32) | ((b4 as u64) << 24) | ((b5 as u64) << 16) | ((b6 as u64) << 8) | (
            b7 as u64) == b0 * 0x100000000000000 + b1 * 0x1000000000000 + b2 * 0x10000000000 + b3
                * 0x100000000 + b4 * 0x1000000 + b5 * 0x10000 + b6 * 0x100 + b7) by (bit_vector);
        }
        Some(v)
    }

    /// Write `value` as eight big-endian bytes.
    pub fn write_u64(value: u64) -> (r: Vec<u8>)
        ensures
            r@ == be64_bytes(value),
            be64_val(r@) == value as int,
    {
        let b0: u8 = #[verifier::truncate] ((value >> 56) as u8);
        let b1: u8 = #[verifier::truncate] ((value >> 48) as u8);
        let b2: u8 = #[verifier::truncate] ((value >> 40) as u8);
        let b3: u8 = #[verifier::truncate] ((value >> 32) as u8);
        let b4: u8 = #[verifier::truncate] ((value >> 24) as u8);
        let b5: u8 = #[verifier::truncate] ((value >> 16) as u8);
        let b6: u8 = #[verifier::truncate] ((value >> 8) as u8);
        let b7: u8 = #[verifier::truncate] (value as u8);
        let mut r: Vec<u8> = Vec::new();
        r.push(b0);
        r.push(b1);
        r.push(b2);
        r.push(b3);
        r.push(b4);
        r.push(b5);
        r.push(b6);
        r.push(b7);
        proof {
            assert(r@ =~= be64_bytes(value));
            lemma_be64_round_trip(value);
        }
        r
    }
}

impl AssociativeMergeOperator for AddMergeOperator {
    open spec fn spec_merge(self, key: Seq<u8>, existing: Seq<u8>, operand: Seq<u8>) -> Option<
        Seq<u8>,
    > {
        if existing.len() >= 8 && operand.len() >= 8 {
            Some(
                be64_bytes(
                    ((be64_val(existing) + be64_val(operand)) % 0x1_0000_0000_0000_0000) as u64,
                ),
            )
        } else {
            None
        }
    }

    fn merge(&self, key: &[u8], existing_val: Vec<u8>, operand: &[u8]) -> (r: Option<Vec<u8>>) {
        let a = match AddMergeOperator::read_u64(existing_val.as_slice()) {
            Some(a) => a,
            None => {
                return None;
            },
        };
        let b = match AddMergeOperator::read_u64(operand) {
            Some(b) => b,
            None => {
                return None;
            },
        };
        let sum = a.wrapping_add(b);
        proof {
            assert(sum as int == (a as int + b as int) % 0x1_0000_0000_0000_0000);
        }
        Some(AddMergeOperator::write_u64(sum))
    }
}

} // verus!
