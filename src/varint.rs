use vstd::prelude::*;

use crate::error::BitcoinError;
use crate::le::{
    le16_bytes, le16_value, le32_bytes, le32_value, le64_bytes, le64_value, lemma_le16_round_trip,
    lemma_le32_round_trip, lemma_le64_round_trip, read_u16, read_u32, read_u64, write_u16, write_u32,
    write_u64,
};

verus! {

/// An unsigned 64-bit count in its variable-width (CompactSize) form.
#[derive(Debug, Clone, Copy, PartialEq, Eq, Structural)]
pub struct CompactSize {
    pub value: u64,
}

/// The encoding of `v`: one byte below 0xFD, else a tag byte followed by
/// `v` in 2, 4 or 8 little-endian bytes.
pub open spec fn varint_bytes(v: u64) -> Seq<u8> {
    if v < 0xFD {
        seq![v as u8]
    } else if v <= 0xFFFF {
        seq![0xFDu8] + le16_bytes(v as nat)
    } else if v <= 0xFFFF_FFFF {
        seq![0xFEu8] + le32_bytes(v as nat)
    } else {
        seq![0xFFu8] + le64_bytes(v as nat)
    }
}

/// Reads a count from the front of `b`: its value and how many bytes it
/// takes, or `None` where `b` ends before the width that the tag byte asks.
/// Any tag is accepted, also one wider than the value needs.
pub open spec fn parse_varint(b: Seq<u8>) -> Option<(u64, nat)> {
    if b.len() == 0 {
        None
    } else if b[0] <= 0xFC {
        Some((b[0] as u64, 1))
    } else if b[0] == 0xFD {
        if b.len() < 3 {
            None
        } else {
            Some((le16_value(b.subrange(1, 3)) as u64, 3))
        }
    } else if b[0] == 0xFE {
        if b.len() < 5 {
            None
        } else {
            Some((le32_value(b.subrange(1, 5)) as u64, 5))
        }
    } else {
        if b.len() < 9 {
            None
        } else {
            Some((le64_value(b.subrange(1, 9)) as u64, 9))
        }
    }
}

impl CompactSize {
    pub fn new(value: u64) -> (r: Self)
        ensures
            r.value == value,
    {
        CompactSize { value }
    }

    pub fn to_bytes(&self) -> (r: Vec<u8>)
        ensures
            r@ == varint_bytes(self.value),
    {
        if self.value < 0xFD {
            vec![self.value as u8]
        } else if self.value <= 0xFFFF {
            let mut bytes = vec![0xFDu8];
            let mut rest = write_u16(self.value as u16);
            bytes.append(&mut rest);
            bytes
        } else if self.value <= 0xFFFF_FFFF {
            let mut bytes = vec![0xFEu8];
            let mut rest = write_u32(self.value as u32);
            bytes.append(&mut rest);
            bytes
        } else {
            let mut bytes = vec![0xFFu8];
            let mut rest = write_u64(self.value);
            bytes.append(&mut rest);
            bytes
        }
    }

    /// Decodes a count from the front of `bytes`, with the number of bytes read.
    pub fn from_bytes(bytes: &[u8]) -> (r: Result<(Self, usize), BitcoinError>)
        ensures
            match r {
                Ok((c, n)) => parse_varint(bytes@) == Some((c.value, n as nat)),
                Err(e) => parse_varint(bytes@) is None && e == BitcoinError::InsufficientBytes,
            },
    {
        if bytes.len() == 0 {
            return Err(BitcoinError::InsufficientBytes);
        }
        let prefix = bytes[0];
        if prefix <= 0xFC {
            Ok((CompactSize::new(prefix as u64), 1))
        } else if prefix == 0xFD {
            if bytes.len() < 3 {
                return Err(BitcoinError::InsufficientBytes);
            }
            let value = read_u16(bytes, 1);
            Ok((CompactSize::new(value as u64), 3))
        } else if prefix == 0xFE {
            if bytes.len() < 5 {
                return Err(BitcoinError::InsufficientBytes);
            }
            let value = read_u32(bytes, 1);
            Ok((CompactSize::new(value as u64), 5))
        } else {
            if bytes.len() < 9 {
                return Err(BitcoinError::InsufficientBytes);
            }
            let value = read_u64(bytes, 1);
            Ok((CompactSize::new(value), 9))
        }
    }
}

/// Encoding a count and reading it back, with any bytes after it, gives the
/// count and the length of its encoding.
pub proof fn lemma_varint_round_trip(v: u64, rest: Seq<u8>)
    ensures
        parse_varint(varint_bytes(v) + rest) == Some((v, varint_bytes(v).len())),
{
    let b = varint_bytes(v) + rest;
    if v < 0xFD {
    } else if v <= 0xFFFF {
        lemma_le16_round_trip(v as nat);
        assert(b.subrange(1, 3) =~= le16_bytes(v as nat));
    } else if v <= 0xFFFF_FFFF {
        lemma_le32_round_trip(v as nat);
        assert(b.subrange(1, 5) =~= le32_bytes(v as nat));
    } else {
        lemma_le64_round_trip(v as nat);
        assert(b.subrange(1, 9) =~= le64_bytes(v as nat));
    }
}

/// A count reads the same from any buffer that starts with the bytes it
/// took; a buffer cut short of them fails.
pub proof fn lemma_varint_prefix(b: Seq<u8>, j: int)
    requires
        parse_varint(b) is Some,
        0 <= j <= b.len(),
    ensures
        j < parse_varint(b).unwrap().1 ==> parse_varint(b.take(j)) is None,
        j >= parse_varint(b).unwrap().1 ==> parse_varint(b.take(j)) == parse_varint(b),
{
    let c = b.take(j);
    if j >= parse_varint(b).unwrap().1 {
        if b[0] == 0xFD {
            assert(c.subrange(1, 3) =~= b.subrange(1, 3));
        } else if b[0] == 0xFE {
            assert(c.subrange(1, 5) =~= b.subrange(1, 5));
        } else if b[0] == 0xFF {
            assert(c.subrange(1, 9) =~= b.subrange(1, 9));
        }
    }
}


/// Every proper prefix of the encoding of a count fails to decode.
pub proof fn lemma_varint_truncation(v: u64, j: int)
    requires
        0 <= j < varint_bytes(v).len(),
    ensures
        parse_varint(varint_bytes(v).take(j)) is None,
{
    let b = varint_bytes(v);
    lemma_varint_round_trip(v, Seq::empty());
    assert(b + Seq::empty() =~= b);
    lemma_varint_prefix(b, j);
}

} // verus!
