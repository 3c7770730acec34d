use vstd::prelude::*;
use vstd::slice::slice_subrange;

use crate::error::BitcoinError;
use crate::le::{le32_bytes, le32_value, lemma_le32_round_trip, read_u32, write_u32};
use crate::input::{
    input_bytes, input_wf, lemma_input_prefix, lemma_input_round_trip, parse_input, InputModel,
    TransactionInput,
};
use crate::varint::{lemma_varint_prefix, lemma_varint_round_trip, parse_varint, varint_bytes, CompactSize};

verus! {

/// A transaction: a version, its inputs in order, and a lock time.
#[derive(Debug, Clone, PartialEq, Eq)]
pub struct BitcoinTransaction {
    pub version: u32,
    pub inputs: Vec<TransactionInput>,
    pub lock_time: u32,
}

/// What a `BitcoinTransaction` holds.
pub struct TransactionModel {
    pub version: u32,
    pub inputs: Seq<InputModel>,
    pub lock_time: u32,
}

impl View for BitcoinTransaction {
    type V = TransactionModel;

    open spec fn view(&self) -> TransactionModel {
        TransactionModel {
            version: self.version,
            inputs: self.inputs@.map_values(|x: TransactionInput| x@),
            lock_time: self.lock_time,
        }
    }
}

/// A transaction that can be encoded: its number of inputs fits a count and
/// each input can be encoded.
pub open spec fn transaction_wf(t: TransactionModel) -> bool {
    &&& t.inputs.len() <= u64::MAX
    &&& forall|i: int| 0 <= i < t.inputs.len() ==> #[trigger] input_wf(t.inputs[i])
}

/// The encodings of `xs`, one after the other, in order.
pub open spec fn inputs_bytes(xs: Seq<InputModel>) -> Seq<u8>
    decreases xs.len(),
{
    if xs.len() == 0 {
        Seq::empty()
    } else {
        inputs_bytes(xs.drop_last()) + input_bytes(xs.last())
    }
}

/// The encoding of a transaction: version, count of inputs, the inputs,
/// then the lock time; the integers in little-endian.
pub open spec fn transaction_bytes(t: TransactionModel) -> Seq<u8> {
    le32_bytes(t.version as nat) + varint_bytes(t.inputs.len() as u64) + inputs_bytes(t.inputs)
        + le32_bytes(t.lock_time as nat)
}

/// Reads `count` inputs of `b` one after the other, the first at offset
/// `start`: the inputs and the offset where the last one ends, or `None`
/// where one of them fails.
pub open spec fn parse_inputs(b: Seq<u8>, start: int, count: nat) -> Option<(Seq<InputModel>, int)>
    decreases count,
{
    if count == 0 {
        Some((Seq::empty(), start))
    } else {
        match parse_inputs(b, start, (count - 1) as nat) {
            None => None,
            Some((xs, p)) => match parse_input(b.subrange(p, b.len() as int)) {
                None => None,
                Some((x, n)) => Some((xs.push(x), p + n)),
            },
        }
    }
}

/// Reads a transaction from the front of `b`: as many inputs as its count
/// says, whatever the count, and no partial result where any field fails.
pub open spec fn parse_transaction(b: Seq<u8>) -> Option<(TransactionModel, nat)> {
    if b.len() < 4 {
        None
    } else {
        match parse_varint(b.subrange(4, b.len() as int)) {
            None => None,
            Some((count, m)) => match parse_inputs(b, 4 + m as int, count as nat) {
                None => None,
                Some((xs, p)) => if b.len() < p + 4 {
                    None
                } else {
                    Some(
                        (
                            TransactionModel {
                                version: le32_value(b.subrange(0, 4)) as u32,
                                inputs: xs,
                                lock_time: le32_value(b.subrange(p, p + 4)) as u32,
                            },
                            (p + 4) as nat,
                        ),
                    )
                },
            },
        }
    }
}

/// The inputs read from `start` end inside `b`, after `start`.
proof fn lemma_parse_inputs_bounds(b: Seq<u8>, start: int, count: nat)
    requires
        0 <= start <= b.len(),
        parse_inputs(b, start, count) is Some,
    ensures
        start <= parse_inputs(b, start, count).unwrap().1 <= b.len(),
        parse_inputs(b, start, count).unwrap().0.len() == count,
    decreases count,
{
    if count > 0 {
        lemma_parse_inputs_bounds(b, start, (count - 1) as nat);
    }
}

/// Once reading inputs fails, reading more of them fails too.
proof fn lemma_parse_inputs_fails_on(b: Seq<u8>, start: int, k: nat, count: nat)
    requires
        parse_inputs(b, start, k) is None,
        k <= count,
    ensures
        parse_inputs(b, start, count) is None,
    decreases count,
{
    if count > k {
        lemma_parse_inputs_fails_on(b, start, k, (count - 1) as nat);
    }
}

/// Encoded inputs, between any bytes before and after them, read back as
/// themselves.
#[verifier::rlimit(40)]
proof fn lemma_inputs_round_trip(pre: Seq<u8>, xs: Seq<InputModel>, rest: Seq<u8>)
    requires
        forall|i: int| 0 <= i < xs.len() ==> #[trigger] input_wf(xs[i]),
    ensures
        parse_inputs(pre + inputs_bytes(xs) + rest, pre.len() as int, xs.len()) == Some(
            (xs, pre.len() + inputs_bytes(xs).len() as int),
        ),
    decreases xs.len(),
{
    if xs.len() > 0 {
        let ys = xs.drop_last();
        let x = xs.last();
        assert(input_wf(xs[xs.len() - 1]));
        lemma_inputs_round_trip(pre, ys, input_bytes(x) + rest);
        let b = pre + inputs_bytes(xs) + rest;
        assert(b =~= pre + inputs_bytes(ys) + (input_bytes(x) + rest));
        let p = (pre.len() + inputs_bytes(ys).len()) as int;
        assert(b.subrange(p, b.len() as int) =~= input_bytes(x) + rest);
        lemma_input_round_trip(x, rest);
        assert(ys.push(x) =~= xs);
    }
}

/// Inputs read the same from any buffer that starts with the bytes they
/// took; a buffer cut short of them fails.
proof fn lemma_inputs_prefix(b: Seq<u8>, start: int, count: nat, j: int)
    requires
        0 <= start <= j <= b.len(),
        parse_inputs(b, start, count) is Some,
    ensures
        j < parse_inputs(b, start, count).unwrap().1 ==> parse_inputs(b.take(j), start, count) is None,
        j >= parse_inputs(b, start, count).unwrap().1 ==> parse_inputs(b.take(j), start, count)
            == parse_inputs(b, start, count),
    decreases count,
{
    let c = b.take(j);
    if count > 0 {
        let k = (count - 1) as nat;
        lemma_inputs_prefix(b, start, k, j);
        lemma_parse_inputs_bounds(b, start, k);
        let q = parse_inputs(b, start, k).unwrap().1;
        if j < q {
            lemma_parse_inputs_fails_on(c, start, k, count);
        } else {
            let r = b.subrange(q, b.len() as int);
            lemma_input_prefix(r, j - q);
            assert(c.subrange(q, c.len() as int) =~= r.take(j - q));
        }
    }
}

impl BitcoinTransaction {
    pub fn new(version: u32, inputs: Vec<TransactionInput>, lock_time: u32) -> (r: Self)
        ensures
            r.version == version,
            r.inputs == inputs,
            r.lock_time == lock_time,
    {
        BitcoinTransaction { version, inputs, lock_time }
    }

    pub fn to_bytes(&self) -> (r: Vec<u8>)
        ensures
            r@ == transaction_bytes(self@),
    {
        let ghost xs = self@.inputs;
        let mut bytes = write_u32(self.version);
        let mut count = CompactSize::new(self.inputs.len() as u64).to_bytes();
        bytes.append(&mut count);
        let ghost head = bytes@;
        let mut i: usize = 0;
        while i < self.inputs.len()
            invariant
                i <= self.inputs.len(),
                xs == self@.inputs,
                bytes@ == head + inputs_bytes(xs.take(i as int)),
            decreases self.inputs.len() - i,
        {
            let mut b = self.inputs[i].to_bytes();
            bytes.append(&mut b);
            proof {
                assert(xs.take(i + 1).drop_last() =~= xs.take(i as int));
                assert(head + inputs_bytes(xs.take(i + 1)) =~= head + inputs_bytes(xs.take(i as int))
                    + input_bytes(xs[i as int]));
            }
            i += 1;
        }
        assert(xs.take(i as int) =~= xs);
        let mut lock_time = write_u32(self.lock_time);
        bytes.append(&mut lock_time);
        bytes
    }

    /// Decodes a transaction from the front of `bytes`, with the number of
    /// bytes read. The count of inputs is not checked against the buffer
    /// beforehand: reading stops at the first input that does not fit.
    pub fn from_bytes(bytes: &[u8]) -> (r: Result<(Self, usize), BitcoinError>)
        ensures
            match r {
                Ok((t, n)) => parse_transaction(bytes@) == Some((t@, n as nat)),
                Err(e) => parse_transaction(bytes@) is None && e == BitcoinError::InsufficientBytes,
            },
    {
        if bytes.len() < 4 {
            return Err(BitcoinError::InsufficientBytes);
        }
        let version = read_u32(bytes, 0);
        let (input_count, size_len) = match CompactSize::from_bytes(
            slice_subrange(bytes, 4, bytes.len()),
        ) {
            Ok(p) => p,
            Err(e) => return Err(e),
        };
        let start = 4 + size_len;
        let mut cursor = start;
        let mut inputs: Vec<TransactionInput> = Vec::new();
        let mut i: u64 = 0;
        while i < input_count.value
            invariant
                start == 4 + size_len,
                start <= cursor <= bytes@.len(),
                i <= input_count.value,
                parse_varint(bytes@.subrange(4, bytes@.len() as int)) == Some(
                    (input_count.value, size_len as nat),
                ),
                parse_inputs(bytes@, start as int, i as nat) == Some(
                    (inputs@.map_values(|x: TransactionInput| x@), cursor as int),
                ),
            decreases input_count.value - i,
        {
            let rest = slice_subrange(bytes, cursor, bytes.len());
            let (input, input_len) = match TransactionInput::from_bytes(rest) {
                Ok(p) => p,
                Err(e) => {
                    proof {
                        assert(rest@ == bytes@.subrange(cursor as int, bytes@.len() as int));
                        assert(parse_inputs(bytes@, start as int, (i + 1) as nat) is None);
                        lemma_parse_inputs_fails_on(
                            bytes@,
                            start as int,
                            (i + 1) as nat,
                            input_count.value as nat,
                        );
                    }
                    return Err(e);
                },
            };
            let ghost before = inputs@;
            inputs.push(input);
            proof {
                assert(inputs@.map_values(|x: TransactionInput| x@) =~= before.map_values(
                    |x: TransactionInput| x@,
                ).push(input@));
            }
            cursor = cursor + input_len;
            i = i + 1;
        }
        if bytes.len() - cursor < 4 {
            return Err(BitcoinError::InsufficientBytes);
        }
        let lock_time = read_u32(bytes, cursor);
        Ok((BitcoinTransaction::new(version, inputs, lock_time), cursor + 4))
    }
}

/// Decoding the encoding of a transaction gives the transaction back, with
/// the whole length of the encoding as the number of bytes read.
pub proof fn lemma_transaction_round_trip(t: TransactionModel)
    requires
        transaction_wf(t),
    ensures
        parse_transaction(transaction_bytes(t)) == Some((t, transaction_bytes(t).len())),
{
    let v = le32_bytes(t.version as nat);
    let c = varint_bytes(t.inputs.len() as u64);
    let ib = inputs_bytes(t.inputs);
    let l = le32_bytes(t.lock_time as nat);
    lemma_le32_round_trip(t.version as nat);
    lemma_le32_round_trip(t.lock_time as nat);
    let b = transaction_bytes(t);
    assert(b.subrange(0, 4) =~= v);
    assert(b.subrange(4, b.len() as int) =~= c + (ib + l));
    lemma_varint_round_trip(t.inputs.len() as u64, ib + l);
    lemma_inputs_round_trip(v + c, t.inputs, l);
    let p = (4 + c.len() + ib.len()) as int;
    assert(b.subrange(p, p + 4) =~= l);
}

/// Decoding fails on every buffer that stops short of the bytes that a
/// successful decode of a longer buffer took.
pub proof fn lemma_transaction_prefix(b: Seq<u8>, j: int)
    requires
        parse_transaction(b) is Some,
        0 <= j < parse_transaction(b).unwrap().1,
    ensures
        parse_transaction(b.take(j)) is None,
{
    let c = b.take(j);
    let r = b.subrange(4, b.len() as int);
    let (count, m) = parse_varint(r).unwrap();
    let (xs, p) = parse_inputs(b, 4 + m as int, count as nat).unwrap();
    lemma_parse_inputs_bounds(b, 4 + m as int, count as nat);
    assert(parse_transaction(b).unwrap().1 == p + 4);
    if j >= 4 {
        lemma_varint_prefix(r, j - 4);
        assert(c.subrange(4, c.len() as int) =~= r.take(j - 4));
        if j >= 4 + m {
            lemma_inputs_prefix(b, 4 + m as int, count as nat, j);
        }
    }
}

/// Every proper prefix of the encoding of a transaction fails to decode.
pub proof fn lemma_transaction_truncation(t: TransactionModel, j: int)
    requires
        transaction_wf(t),
        0 <= j < transaction_bytes(t).len(),
    ensures
        parse_transaction(transaction_bytes(t).take(j)) is None,
{
    lemma_transaction_round_trip(t);
    lemma_transaction_prefix(transaction_bytes(t), j);
}

} // verus!
