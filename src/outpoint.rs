use vstd::prelude::*;
use vstd::slice::slice_to_vec;

use crate::error::BitcoinError;
use crate::le::{le32_bytes, le32_value, lemma_le32_round_trip, read_u32, write_u32};
use crate::text::{decode_hex, encode_hex, hex_bytes, hex_text, is_hex_text};

verus! {

/// A 32-byte transaction identifier, compared byte by byte.
#[derive(Debug, Clone, PartialEq, Eq)]
pub struct Txid(pub [u8; 32]);

/// A reference to an output of an earlier transaction.
#[derive(Debug, Clone, PartialEq, Eq)]
pub struct OutPoint {
    pub txid: Txid,
    pub vout: u32,
}

/// What an `OutPoint` holds: the identifier's bytes and the output index.
pub struct OutPointModel {
    pub txid: Seq<u8>,
    pub vout: u32,
}

impl View for Txid {
    type V = Seq<u8>;

    open spec fn view(&self) -> Seq<u8> {
        self.0@
    }
}

impl View for OutPoint {
    type V = OutPointModel;

    open spec fn view(&self) -> OutPointModel {
        OutPointModel { txid: self.txid@, vout: self.vout }
    }
}

/// The 36-byte encoding: the identifier, then the index in little-endian.
pub open spec fn outpoint_bytes(o: OutPointModel) -> Seq<u8> {
    o.txid + le32_bytes(o.vout as nat)
}

/// Reads an outpoint from the front of `b`; `None` where `b` is under 36 bytes.
pub open spec fn parse_outpoint(b: Seq<u8>) -> Option<(OutPointModel, nat)> {
    if b.len() < 36 {
        None
    } else {
        Some(
            (
                OutPointModel {
                    txid: b.subrange(0, 32),
                    vout: le32_value(b.subrange(32, 36)) as u32,
                },
                36,
            ),
        )
    }
}

impl Txid {
    /// The identifier as 64 lowercase hexadecimal digits.
    pub fn to_hex(&self) -> (r: String)
        ensures
            r@ == hex_text(self@),
    {
        encode_hex(self.0.as_slice())
    }

    /// Reads an identifier from hexadecimal text of either case; text that
    /// is not hexadecimal, or stands for other than 32 bytes, is `InvalidFormat`.
    pub fn from_hex(s: &str) -> (r: Result<Self, BitcoinError>)
        ensures
            match r {
                Ok(t) => is_hex_text(s@) && hex_bytes(s@) == t@,
                Err(e) => !(is_hex_text(s@) && hex_bytes(s@).len() == 32) && e
                    == BitcoinError::InvalidFormat,
            },
    {
        let bytes = match decode_hex(s) {
            Ok(v) => v,
            Err(_) => return Err(BitcoinError::InvalidFormat),
        };
        if bytes.len() != 32 {
            return Err(BitcoinError::InvalidFormat);
        }
        let mut id = [0u8; 32];
        let mut i: usize = 0;
        while i < 32
            invariant
                i <= 32,
                bytes@.len() == 32,
                forall|k: int| 0 <= k < i ==> id@[k] == bytes@[k],
            decreases 32 - i,
        {
            id[i] = bytes[i];
            i += 1;
        }
        assert(id@ =~= bytes@);
        Ok(Txid(id))
    }
}

impl OutPoint {
    pub fn new(txid: [u8; 32], vout: u32) -> (r: Self)
        ensures
            r.txid.0 == txid,
            r.vout == vout,
    {
        OutPoint { txid: Txid(txid), vout }
    }

    pub fn to_bytes(&self) -> (r: Vec<u8>)
        ensures
            r@ == outpoint_bytes(self@),
            r@.len() == 36,
    {
        proof {
            lemma_le32_round_trip(self.vout as nat);
        }
        let mut bytes = slice_to_vec(self.txid.0.as_slice());
        let mut rest = write_u32(self.vout);
        bytes.append(&mut rest);
        bytes
    }

    /// Decodes an outpoint from the front of `bytes`, with the number of bytes read.
    pub fn from_bytes(bytes: &[u8]) -> (r: Result<(Self, usize), BitcoinError>)
        ensures
            match r {
                Ok((o, n)) => parse_outpoint(bytes@) == Some((o@, n as nat)),
                Err(e) => parse_outpoint(bytes@) is None && e == BitcoinError::InsufficientBytes,
            },
    {
        if bytes.len() < 36 {
            return Err(BitcoinError::InsufficientBytes);
        }
        let mut txid = [0u8; 32];
        let mut i: usize = 0;
        while i < 32
            invariant
                i <= 32,
                bytes@.len() >= 36,
                forall|k: int| 0 <= k < i ==> txid@[k] == bytes@[k],
            decreases 32 - i,
        {
            txid[i] = bytes[i];
            i += 1;
        }
        assert(txid@ =~= bytes@.subrange(0, 32));
        let vout = read_u32(bytes, 32);
        Ok((OutPoint::new(txid, vout), 36))
    }
}

/// Encoding an outpoint and reading it back, with any bytes after it,
/// gives the outpoint and 36.
pub proof fn lemma_outpoint_round_trip(o: OutPointModel, rest: Seq<u8>)
    requires
        o.txid.len() == 32,
    ensures
        parse_outpoint(outpoint_bytes(o) + rest) == Some((o, 36nat)),
{
    let b = outpoint_bytes(o) + rest;
    assert(b.subrange(0, 32) =~= o.txid);
    lemma_le32_round_trip(o.vout as nat);
    assert(b.subrange(32, 36) =~= le32_bytes(o.vout as nat));
}

/// An outpoint reads the same from any buffer that starts with its 36
/// bytes; a buffer cut short of them fails.
pub proof fn lemma_outpoint_prefix(b: Seq<u8>, j: int)
    requires
        parse_outpoint(b) is Some,
        0 <= j <= b.len(),
    ensures
        j < 36 ==> parse_outpoint(b.take(j)) is None,
        j >= 36 ==> parse_outpoint(b.take(j)) == parse_outpoint(b),
{
    let c = b.take(j);
    if j >= 36 {
        assert(c.subrange(0, 32) =~= b.subrange(0, 32));
        assert(c.subrange(32, 36) =~= b.subrange(32, 36));
    }
}

} // verus!
