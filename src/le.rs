use vstd::prelude::*;

verus! {

/// `v` below 2^16 as two little-endian bytes.
pub open spec fn le16_bytes(v: nat) -> Seq<u8> {
    seq![(v % 0x100) as u8, (v / 0x100) as u8]
}

/// `v` below 2^32 as four little-endian bytes.
pub open spec fn le32_bytes(v: nat) -> Seq<u8> {
    le16_bytes(v % 0x1_0000) + le16_bytes(v / 0x1_0000)
}

/// `v` below 2^64 as eight little-endian bytes.
pub open spec fn le64_bytes(v: nat) -> Seq<u8> {
    le32_bytes(v % 0x1_0000_0000) + le32_bytes(v / 0x1_0000_0000)
}

/// The value of the first two bytes of `s`, low byte first.
pub open spec fn le16_value(s: Seq<u8>) -> nat {
    s[0] as nat + 0x100 * (s[1] as nat)
}

/// The value of the first four bytes of `s`, low byte first.
pub open spec fn le32_value(s: Seq<u8>) -> nat {
    le16_value(s) + 0x1_0000 * le16_value(s.subrange(2, 4))
}

/// The value of the first eight bytes of `s`, low byte first.
pub open spec fn le64_value(s: Seq<u8>) -> nat {
    le32_value(s) + 0x1_0000_0000 * le32_value(s.subrange(4, 8))
}

pub proof fn lemma_le16_round_trip(v: nat)
    requires
        v < 0x1_0000,
    ensures
        le16_bytes(v).len() == 2,
        le16_value(le16_bytes(v)) == v,
{
}

pub proof fn lemma_le32_round_trip(v: nat)
    requires
        v < 0x1_0000_0000,
    ensures
        le32_bytes(v).len() == 4,
        le32_value(le32_bytes(v)) == v,
{
    let lo = v % 0x1_0000;
    let hi = v / 0x1_0000;
    lemma_le16_round_trip(lo);
    lemma_le16_round_trip(hi);
    assert(le32_bytes(v).subrange(2, 4) =~= le16_bytes(hi));
}

pub proof fn lemma_le64_round_trip(v: nat)
    requires
        v < 0x1_0000_0000_0000_0000,
    ensures
        le64_bytes(v).len() == 8,
        le64_value(le64_bytes(v)) == v,
{
    let lo = v % 0x1_0000_0000;
    let hi = v / 0x1_0000_0000;
    lemma_le32_round_trip(lo);
    lemma_le32_round_trip(hi);
    let b = le64_bytes(v);
    assert(b.subrange(2, 4) =~= le32_bytes(lo).subrange(2, 4));
    assert(b.subrange(4, 8) =~= le32_bytes(hi));
}

/// Two bytes that agree on their first `n` bytes have the same
/// little-endian value of width `n`.
pub proof fn lemma_le_value_prefix(s: Seq<u8>, t: Seq<u8>, n: int)
    requires
        n == 2 || n == 4 || n == 8,
        n <= s.len(),
        n <= t.len(),
        s.take(n) == t.take(n),
    ensures
        n == 2 ==> le16_value(s) == le16_value(t),
        n == 4 ==> le32_value(s) == le32_value(t),
        n == 8 ==> le64_value(s) == le64_value(t),
{
    assert forall|i: int| 0 <= i < n implies s[i] == t[i] by {
        assert(s[i] == s.take(n)[i]);
        assert(t[i] == t.take(n)[i]);
    }
    if n >= 4 {
        assert(s.subrange(2, 4) =~= t.subrange(2, 4));
    }
    if n == 8 {
        assert(s.subrange(4, 8).subrange(2, 4) =~= t.subrange(4, 8).subrange(2, 4));
        assert(s.subrange(4, 8) =~= t.subrange(4, 8));
    }
}

pub fn write_u16(v: u16) -> (r: Vec<u8>)
    ensures
        r@ == le16_bytes(v as nat),
{
    let mut r: Vec<u8> = Vec::new();
    r.push((v % 0x100) as u8);
    r.push((v / 0x100) as u8);
    assert(r@ =~= le16_bytes(v as nat));
    r
}

pub fn write_u32(v: u32) -> (r: Vec<u8>)
    ensures
        r@ == le32_bytes(v as nat),
{
    let mut r = write_u16((v % 0x1_0000) as u16);
    let mut hi = write_u16((v / 0x1_0000) as u16);
    r.append(&mut hi);
    r
}

pub fn write_u64(v: u64) -> (r: Vec<u8>)
    ensures
        r@ == le64_bytes(v as nat),
{
    let mut r = write_u32((v % 0x1_0000_0000) as u32);
    let mut hi = write_u32((v / 0x1_0000_0000) as u32);
    r.append(&mut hi);
    r
}

pub fn read_u16(b: &[u8], at: usize) -> (r: u16)
    requires
        at + 2 <= b@.len(),
    ensures
        r as nat == le16_value(b@.subrange(at as int, at + 2)),
{
    b[at] as u16 + (b[at + 1] as u16) * 0x100
}

pub fn read_u32(b: &[u8], at: usize) -> (r: u32)
    requires
        at + 4 <= b@.len(),
    ensures
        r as nat == le32_value(b@.subrange(at as int, at + 4)),
{
    let len = b.len();
    let lo = read_u16(b, at);
    let hi = read_u16(b, at + 2);
    proof {
        let s = b@.subrange(at as int, at + 4);
        assert(s.subrange(2, 4) =~= b@.subrange(at + 2, at + 4));
        assert(s.take(2) =~= b@.subrange(at as int, at + 2).take(2));
        lemma_le_value_prefix(s, b@.subrange(at as int, at + 2), 2);
    }
    lo as u32 + (hi as u32) * 0x1_0000
}

pub fn read_u64(b: &[u8], at: usize) -> (r: u64)
    requires
        at + 8 <= b@.len(),
    ensures
        r as nat == le64_value(b@.subrange(at as int, at + 8)),
{
    let len = b.len();
    let lo = read_u32(b, at);
    let hi = read_u32(b, at + 4);
    proof {
        let s = b@.subrange(at as int, at + 8);
        assert(s.subrange(4, 8) =~= b@.subrange(at + 4, at + 8));
        assert(s.take(4) =~= b@.subrange(at as int, at + 4).take(4));
        lemma_le_value_prefix(s, b@.subrange(at as int, at + 4), 4);
    }
    lo as u64 + (hi as u64) * 0x1_0000_0000
}

} // verus!
