use vstd::prelude::*;
use vstd::slice::slice_subrange;

use crate::error::BitcoinError;
use crate::le::{le32_bytes, le32_value, lemma_le32_round_trip, read_u32, write_u32};
use crate::outpoint::{
    lemma_outpoint_prefix, lemma_outpoint_round_trip, outpoint_bytes, parse_outpoint, OutPoint,
    OutPointModel,
};
use crate::varint::varint_bytes;
use crate::script::{lemma_script_prefix, lemma_script_round_trip, parse_script, script_bytes, Script};

verus! {

/// One input of a transaction.
#[derive(Debug, Clone, PartialEq, Eq)]
pub struct TransactionInput {
    pub previous_output: OutPoint,
    pub script_sig: Script,
    pub sequence: u32,
}

/// What a `TransactionInput` holds.
pub struct InputModel {
    pub previous_output: OutPointModel,
    pub script_sig: Seq<u8>,
    pub sequence: u32,
}

impl View for TransactionInput {
    type V = InputModel;

    open spec fn view(&self) -> InputModel {
        InputModel {
            previous_output: self.previous_output@,
            script_sig: self.script_sig@,
            sequence: self.sequence,
        }
    }
}

/// An input that can be encoded: a 32-byte identifier and a blob whose
/// length fits a count.
pub open spec fn input_wf(x: InputModel) -> bool {
    &&& x.previous_output.txid.len() == 32
    &&& x.script_sig.len() <= u64::MAX
}

/// The encoding of an input: outpoint, blob, then the sequence number in
/// little-endian.
pub open spec fn input_bytes(x: InputModel) -> Seq<u8> {
    outpoint_bytes(x.previous_output) + script_bytes(x.script_sig) + le32_bytes(x.sequence as nat)
}

/// Reads an input from the front of `b`, each field at the offset where the
/// previous one ended; `None` where any field is cut short.
pub open spec fn parse_input(b: Seq<u8>) -> Option<(InputModel, nat)> {
    match parse_outpoint(b) {
        None => None,
        Some((o, a)) => match parse_script(b.subrange(a as int, b.len() as int)) {
            None => None,
            Some((s, c)) => if b.len() < a + c + 4 {
                None
            } else {
                Some(
                    (
                        InputModel {
                            previous_output: o,
                            script_sig: s,
                            sequence: le32_value(b.subrange((a + c) as int, (a + c + 4) as int)) as u32,
                        },
                        (a + c + 4) as nat,
                    ),
                )
            },
        },
    }
}

impl TransactionInput {
    pub fn new(previous_output: OutPoint, script_sig: Script, sequence: u32) -> (r: Self)
        ensures
            r.previous_output == previous_output,
            r.script_sig == script_sig,
            r.sequence == sequence,
    {
        TransactionInput { previous_output, script_sig, sequence }
    }

    pub fn to_bytes(&self) -> (r: Vec<u8>)
        ensures
            r@ == input_bytes(self@),
    {
        let mut bytes = self.previous_output.to_bytes();
        let mut script = self.script_sig.to_bytes();
        let mut sequence = write_u32(self.sequence);
        bytes.append(&mut script);
        bytes.append(&mut sequence);
        bytes
    }

    /// Decodes an input from the front of `bytes`, with the number of bytes
    /// read; a failure of a field is returned as it came.
    pub fn from_bytes(bytes: &[u8]) -> (r: Result<(Self, usize), BitcoinError>)
        ensures
            match r {
                Ok((x, n)) => parse_input(bytes@) == Some((x@, n as nat)),
                Err(e) => parse_input(bytes@) is None && e == BitcoinError::InsufficientBytes,
            },
    {
        let (previous_output, prev_out_len) = match OutPoint::from_bytes(bytes) {
            Ok(p) => p,
            Err(e) => return Err(e),
        };
        let rest = slice_subrange(bytes, prev_out_len, bytes.len());
        let (script_sig, script_sig_len) = match Script::from_bytes(rest) {
            Ok(p) => p,
            Err(e) => return Err(e),
        };
        let sequence_start = prev_out_len + script_sig_len;
        if bytes.len() - sequence_start < 4 {
            return Err(BitcoinError::InsufficientBytes);
        }
        let sequence = read_u32(bytes, sequence_start);
        Ok((TransactionInput::new(previous_output, script_sig, sequence), sequence_start + 4))
    }
}

/// An input takes 36 bytes of outpoint, its blob with the count before it,
/// and 4 bytes of sequence number.
pub proof fn lemma_input_length(x: InputModel)
    requires
        input_wf(x),
    ensures
        input_bytes(x).len() == 36 + varint_bytes(x.script_sig.len() as u64).len()
            + x.script_sig.len() + 4,
{
    lemma_le32_round_trip(x.previous_output.vout as nat);
    lemma_le32_round_trip(x.sequence as nat);
}

/// Encoding an input and reading it back, with any bytes after it, gives
/// the input and the length of its encoding.
pub proof fn lemma_input_round_trip(x: InputModel, rest: Seq<u8>)
    requires
        input_wf(x),
    ensures
        parse_input(input_bytes(x) + rest) == Some((x, input_bytes(x).len())),
{
    let o = outpoint_bytes(x.previous_output);
    let s = script_bytes(x.script_sig);
    let q = le32_bytes(x.sequence as nat);
    lemma_le32_round_trip(x.sequence as nat);
    let b = input_bytes(x) + rest;
    assert(b =~= o + (s + q + rest));
    lemma_outpoint_round_trip(x.previous_output, s + q + rest);
    assert(b.subrange(36, b.len() as int) =~= s + (q + rest));
    lemma_script_round_trip(x.script_sig, q + rest);
    assert(b.subrange(36 + s.len() as int, 36 + s.len() as int + 4) =~= q);
}

/// An input reads the same from any buffer that starts with the bytes it
/// took; a buffer cut short of them fails.
pub proof fn lemma_input_prefix(b: Seq<u8>, j: int)
    requires
        parse_input(b) is Some,
        0 <= j <= b.len(),
    ensures
        j < parse_input(b).unwrap().1 ==> parse_input(b.take(j)) is None,
        j >= parse_input(b).unwrap().1 ==> parse_input(b.take(j)) == parse_input(b),
{
    let c = b.take(j);
    lemma_outpoint_prefix(b, j);
    if j >= 36 {
        let r = b.subrange(36, b.len() as int);
        lemma_script_prefix(r, j - 36);
        assert(c.subrange(36, c.len() as int) =~= r.take(j - 36));
        let n = parse_script(r).unwrap().1 as int;
        if j >= 36 + n + 4 {
            assert(c.subrange(36 + n, 36 + n + 4) =~= b.subrange(36 + n, 36 + n + 4));
        }
    }
}

} // verus!
