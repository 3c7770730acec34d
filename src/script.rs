use vstd::prelude::*;
use vstd::slice::{slice_subrange, slice_to_vec};

use crate::error::BitcoinError;
use crate::varint::{lemma_varint_prefix, lemma_varint_round_trip, parse_varint, varint_bytes, CompactSize};

verus! {

/// An opaque byte blob, written behind its length.
#[derive(Debug, Clone, PartialEq, Eq)]
pub struct Script {
    pub bytes: Vec<u8>,
}

impl View for Script {
    type V = Seq<u8>;

    open spec fn view(&self) -> Seq<u8> {
        self.bytes@
    }
}

/// The encoding of a blob: its length as a count, then its bytes.
pub open spec fn script_bytes(s: Seq<u8>) -> Seq<u8> {
    varint_bytes(s.len() as u64) + s
}

/// Reads a blob from the front of `b`; `None` where `b` ends inside the
/// count or holds fewer bytes than the count declares.
pub open spec fn parse_script(b: Seq<u8>) -> Option<(Seq<u8>, nat)> {
    match parse_varint(b) {
        None => None,
        Some((len, m)) => if b.len() < m + len {
            None
        } else {
            Some((b.subrange(m as int, m + len), (m + len) as nat))
        },
    }
}

impl Script {
    pub fn new(bytes: Vec<u8>) -> (r: Self)
        ensures
            r@ == bytes@,
    {
        Script { bytes }
    }

    pub fn to_bytes(&self) -> (r: Vec<u8>)
        ensures
            r@ == script_bytes(self@),
    {
        let mut bytes = CompactSize::new(self.bytes.len() as u64).to_bytes();
        let mut content = slice_to_vec(self.bytes.as_slice());
        bytes.append(&mut content);
        bytes
    }

    /// Decodes a blob from the front of `bytes`, with the number of bytes read.
    /// A declared length past the end of `bytes` fails, however large.
    pub fn from_bytes(bytes: &[u8]) -> (r: Result<(Self, usize), BitcoinError>)
        ensures
            match r {
                Ok((s, n)) => parse_script(bytes@) == Some((s@, n as nat)),
                Err(e) => parse_script(bytes@) is None && e == BitcoinError::InsufficientBytes,
            },
    {
        let (compact_size, size_len) = match CompactSize::from_bytes(bytes) {
            Ok(p) => p,
            Err(e) => return Err(e),
        };
        if compact_size.value > (bytes.len() - size_len) as u64 {
            return Err(BitcoinError::InsufficientBytes);
        }
        let script_len = compact_size.value as usize;
        let content = slice_to_vec(slice_subrange(bytes, size_len, size_len + script_len));
        Ok((Script::new(content), size_len + script_len))
    }
}

impl core::ops::Deref for Script {
    type Target = Vec<u8>;

    fn deref(&self) -> &Vec<u8> {
        &self.bytes
    }
}

/// Encoding a blob and reading it back, with any bytes after it, gives the
/// blob and the length of its encoding.
pub proof fn lemma_script_round_trip(s: Seq<u8>, rest: Seq<u8>)
    requires
        s.len() <= u64::MAX,
    ensures
        parse_script(script_bytes(s) + rest) == Some((s, script_bytes(s).len())),
{
    let v = varint_bytes(s.len() as u64);
    lemma_varint_round_trip(s.len() as u64, s + rest);
    assert(script_bytes(s) + rest =~= v + (s + rest));
    let b = script_bytes(s) + rest;
    assert(b.subrange(v.len() as int, (v.len() + s.len()) as int) =~= s);
}

/// A blob reads the same from any buffer that starts with the bytes it took;
/// a buffer cut short of them fails.
pub proof fn lemma_script_prefix(b: Seq<u8>, j: int)
    requires
        parse_script(b) is Some,
        0 <= j <= b.len(),
    ensures
        j < parse_script(b).unwrap().1 ==> parse_script(b.take(j)) is None,
        j >= parse_script(b).unwrap().1 ==> parse_script(b.take(j)) == parse_script(b),
{
    let c = b.take(j);
    lemma_varint_prefix(b, j);
    let (len, m) = parse_varint(b).unwrap();
    if j >= m + len {
        assert(c.subrange(m as int, m + len) =~= b.subrange(m as int, m + len));
    }
}

} // verus!
