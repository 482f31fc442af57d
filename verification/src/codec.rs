//! Little-endian integer encoding shared by every canonical byte format of
//! the hypervisor (machine config, boot parameters, hash preimages, device
//! register images).

use vstd::prelude::*;

verus! {

pub open spec fn le16(v: u16) -> Seq<u8> {
    seq![v as u8, (v >> 8u16) as u8]
}

pub open spec fn le32(v: u32) -> Seq<u8> {
    seq![v as u8, (v >> 8u32) as u8, (v >> 16u32) as u8, (v >> 24u32) as u8]
}

pub open spec fn le64(v: u64) -> Seq<u8> {
    seq![
        v as u8,
        (v >> 8u64) as u8,
        (v >> 16u64) as u8,
        (v >> 24u64) as u8,
        (v >> 32u64) as u8,
        (v >> 40u64) as u8,
        (v >> 48u64) as u8,
        (v >> 56u64) as u8,
    ]
}

pub open spec fn from_le16(b: Seq<u8>) -> u16 {
    (b[0] as u16) | ((b[1] as u16) << 8u16)
}

pub open spec fn from_le32(b: Seq<u8>) -> u32 {
    (b[0] as u32) | ((b[1] as u32) << 8u32) | ((b[2] as u32) << 16u32) | ((b[3] as u32) << 24u32)
}

pub open spec fn from_le64(b: Seq<u8>) -> u64 {
    (b[0] as u64) | ((b[1] as u64) << 8u64) | ((b[2] as u64) << 16u64) | ((b[3] as u64) << 24u64)
        | ((b[4] as u64) << 32u64) | ((b[5] as u64) << 40u64) | ((b[6] as u64) << 48u64) | ((
    b[7] as u64) << 56u64)
}

/// The little-endian `u16` at offset `k` of `b`.
pub open spec fn u16_at(b: Seq<u8>, k: int) -> u16 {
    from_le16(b.subrange(k, k + 2))
}

/// The little-endian `u32` at offset `k` of `b`.
pub open spec fn u32_at(b: Seq<u8>, k: int) -> u32 {
    from_le32(b.subrange(k, k + 4))
}

/// The little-endian `u64` at offset `k` of `b`.
pub open spec fn u64_at(b: Seq<u8>, k: int) -> u64 {
    from_le64(b.subrange(k, k + 8))
}

/// Reading back a 16-bit little-endian encoding gives the value.
pub proof fn lemma_le16_roundtrip(v: u16)
    ensures
        from_le16(le16(v)) == v,
{
    let b0 = v as u8;
    let b1 = (v >> 8u16) as u8;
    assert(((b0 as u16) | ((b1 as u16) << 8u16)) == v) by (bit_vector)
        requires
            b0 == v as u8,
            b1 == (v >> 8u16) as u8,
    ;
}

/// Reading back a 32-bit little-endian encoding gives the value.
pub proof fn lemma_le32_roundtrip(v: u32)
    ensures
        from_le32(le32(v)) == v,
{
    let b0 = v as u8;
    let b1 = (v >> 8u32) as u8;
    let b2 = (v >> 16u32) as u8;
    let b3 = (v >> 24u32) as u8;
    assert(((b0 as u32) | ((b1 as u32) << 8u32) | ((b2 as u32) << 16u32) | ((b3 as u32)
        << 24u32)) == v) by (bit_vector)
        requires
            b0 == v as u8,
            b1 == (v >> 8u32) as u8,
            b2 == (v >> 16u32) as u8,
            b3 == (v >> 24u32) as u8,
    ;
}

/// Reading back a 64-bit little-endian encoding gives the value.
pub proof fn lemma_le64_roundtrip(v: u64)
    ensures
        from_le64(le64(v)) == v,
{
    let b0 = v as u8;
    let b1 = (v >> 8u64) as u8;
    let b2 = (v >> 16u64) as u8;
    let b3 = (v >> 24u64) as u8;
    let b4 = (v >> 32u64) as u8;
    let b5 = (v >> 40u64) as u8;
    let b6 = (v >> 48u64) as u8;
    let b7 = (v >> 56u64) as u8;
    assert(((b0 as u64) | ((b1 as u64) << 8u64) | ((b2 as u64) << 16u64) | ((b3 as u64)
        << 24u64) | ((b4 as u64) << 32u64) | ((b5 as u64) << 40u64) | ((b6 as u64) << 48u64) | ((
    b7 as u64) << 56u64)) == v) by (bit_vector)
        requires
            b0 == v as u8,
            b1 == (v >> 8u64) as u8,
            b2 == (v >> 16u64) as u8,
            b3 == (v >> 24u64) as u8,
            b4 == (v >> 32u64) as u8,
            b5 == (v >> 40u64) as u8,
            b6 == (v >> 48u64) as u8,
            b7 == (v >> 56u64) as u8,
    ;
}

/// Re-encoding the value read from two bytes gives those bytes.
pub proof fn lemma_le16_of_bytes(b: Seq<u8>)
    requires
        b.len() == 2,
    ensures
        le16(from_le16(b)) == b,
{
    let b0 = b[0];
    let b1 = b[1];
    let v = from_le16(b);
    assert(v as u8 == b0 && (v >> 8u16) as u8 == b1) by (bit_vector)
        requires
            v == (b0 as u16) | ((b1 as u16) << 8u16),
    ;
    assert(le16(v) =~= b);
}

/// Re-encoding the value read from four bytes gives those bytes.
pub proof fn lemma_le32_of_bytes(b: Seq<u8>)
    requires
        b.len() == 4,
    ensures
        le32(from_le32(b)) == b,
{
    let b0 = b[0];
    let b1 = b[1];
    let b2 = b[2];
    let b3 = b[3];
    let v = from_le32(b);
    assert(v as u8 == b0 && (v >> 8u32) as u8 == b1 && (v >> 16u32) as u8 == b2 && (v >> 24u32)
        as u8 == b3) by (bit_vector)
        requires
            v == (b0 as u32) | ((b1 as u32) << 8u32) | ((b2 as u32) << 16u32) | ((b3 as u32)
                << 24u32),
    ;
    assert(le32(v) =~= b);
}

/// Re-encoding the value read from eight bytes gives those bytes.
pub proof fn lemma_le64_of_bytes(b: Seq<u8>)
    requires
        b.len() == 8,
    ensures
        le64(from_le64(b)) == b,
{
    let b0 = b[0];
    let b1 = b[1];
    let b2 = b[2];
    let b3 = b[3];
    let b4 = b[4];
    let b5 = b[5];
    let b6 = b[6];
    let b7 = b[7];
    let v = from_le64(b);
    assert(v as u8 == b0 && (v >> 8u64) as u8 == b1 && (v >> 16u64) as u8 == b2 && (v >> 24u64)
        as u8 == b3 && (v >> 32u64) as u8 == b4 && (v >> 40u64) as u8 == b5 && (v >> 48u64) as u8
        == b6 && (v >> 56u64) as u8 == b7) by (bit_vector)
        requires
            v == (b0 as u64) | ((b1 as u64) << 8u64) | ((b2 as u64) << 16u64) | ((b3 as u64)
                << 24u64) | ((b4 as u64) << 32u64) | ((b5 as u64) << 40u64) | ((b6 as u64)
                << 48u64) | ((b7 as u64) << 56u64),
    ;
    assert(le64(v) =~= b);
}

/// Two values with equal encodings are equal.
pub proof fn lemma_le32_injective(a: u32, b: u32)
    requires
        le32(a) == le32(b),
    ensures
        a == b,
{
    lemma_le32_roundtrip(a);
    lemma_le32_roundtrip(b);
}

/// Two values with equal encodings are equal.
pub proof fn lemma_le64_injective(a: u64, b: u64)
    requires
        le64(a) == le64(b),
    ensures
        a == b,
{
    lemma_le64_roundtrip(a);
    lemma_le64_roundtrip(b);
}

pub fn push_le16(out: &mut Vec<u8>, v: u16)
    ensures
        final(out)@ == old(out)@ + le16(v),
{
    out.push(v as u8);
    out.push((v >> 8u16) as u8);
    assert(out@ =~= old(out)@ + le16(v));
}

pub fn push_le32(out: &mut Vec<u8>, v: u32)
    ensures
        final(out)@ == old(out)@ + le32(v),
{
    out.push(v as u8);
    out.push((v >> 8u32) as u8);
    out.push((v >> 16u32) as u8);
    out.push((v >> 24u32) as u8);
    assert(out@ =~= old(out)@ + le32(v));
}

pub fn push_le64(out: &mut Vec<u8>, v: u64)
    ensures
        final(out)@ == old(out)@ + le64(v),
{
    out.push(v as u8);
    out.push((v >> 8u64) as u8);
    out.push((v >> 16u64) as u8);
    out.push((v >> 24u64) as u8);
    out.push((v >> 32u64) as u8);
    out.push((v >> 40u64) as u8);
    out.push((v >> 48u64) as u8);
    out.push((v >> 56u64) as u8);
    assert(out@ =~= old(out)@ + le64(v));
}

/// Append every byte of `bytes`.
pub fn push_bytes(out: &mut Vec<u8>, bytes: &[u8])
    ensures
        final(out)@ == old(out)@ + bytes@,
{
    let ghost start = out@;
    let n = bytes.len();
    let mut i: usize = 0;
    while i < n
        invariant
            n == bytes@.len(),
            i <= n,
            out@ == start + bytes@.subrange(0, i as int),
        decreases n - i,
    {
        out.push(bytes[i]);
        i = i + 1;
        assert(out@ =~= start + bytes@.subrange(0, i as int));
    }
    assert(bytes@.subrange(0, n as int) =~= bytes@);
}

/// Copy `bytes[from..to]` into a fresh vector.
pub fn copy_range(bytes: &[u8], from: usize, to: usize) -> (r: Vec<u8>)
    requires
        from <= to <= bytes@.len(),
    ensures
        r@ == bytes@.subrange(from as int, to as int),
{
    let mut out: Vec<u8> = Vec::new();
    let mut i = from;
    while i < to
        invariant
            from <= i <= to,
            to <= bytes@.len(),
            out@ == bytes@.subrange(from as int, i as int),
        decreases to - i,
    {
        out.push(bytes[i]);
        i = i + 1;
        assert(out@ =~= bytes@.subrange(from as int, i as int));
    }
    out
}

pub fn read_le16(b: &[u8], at: usize) -> (r: u16)
    requires
        at + 2 <= b@.len(),
    ensures
        r == from_le16(b@.subrange(at as int, at + 2)),
{
    (b[at] as u16) | ((b[at + 1] as u16) << 8u16)
}

pub fn read_le32(b: &[u8], at: usize) -> (r: u32)
    requires
        at + 4 <= b@.len(),
    ensures
        r == from_le32(b@.subrange(at as int, at + 4)),
{
    (b[at] as u32) | ((b[at + 1] as u32) << 8u32) | ((b[at + 2] as u32) << 16u32) | ((b[at
        + 3] as u32) << 24u32)
}

pub fn read_le64(b: &[u8], at: usize) -> (r: u64)
    requires
        at + 8 <= b@.len(),
    ensures
        r == from_le64(b@.subrange(at as int, at + 8)),
{
    (b[at] as u64) | ((b[at + 1] as u64) << 8u64) | ((b[at + 2] as u64) << 16u64) | ((b[at
        + 3] as u64) << 24u64) | ((b[at + 4] as u64) << 32u64) | ((b[at + 5] as u64) << 40u64)
        | ((b[at + 6] as u64) << 48u64) | ((b[at + 7] as u64) << 56u64)
}


/// Byte `k` of the little-endian encoding of `v`.
pub fn le64_byte(v: u64, k: usize) -> (r: u8)
    requires
        k < 8,
    ensures
        r == le64(v)[k as int],
{
    match k {
        0 => v as u8,
        1 => (v >> 8u64) as u8,
        2 => (v >> 16u64) as u8,
        3 => (v >> 24u64) as u8,
        4 => (v >> 32u64) as u8,
        5 => (v >> 40u64) as u8,
        6 => (v >> 48u64) as u8,
        _ => (v >> 56u64) as u8,
    }
}

/// A range inside the right operand of a concatenation.
pub proof fn lemma_sub_right(x: Seq<u8>, y: Seq<u8>, a: int, c: int)
    requires
        0 <= a <= c <= y.len(),
    ensures
        (x + y).subrange(x.len() + a, x.len() + c) == y.subrange(a, c),
{
    assert((x + y).subrange(x.len() + a, x.len() + c) =~= y.subrange(a, c));
}

/// A range inside the left operand of a concatenation.
pub proof fn lemma_sub_left(x: Seq<u8>, y: Seq<u8>, a: int, c: int)
    requires
        0 <= a <= c <= x.len(),
    ensures
        (x + y).subrange(a, c) == x.subrange(a, c),
{
    assert((x + y).subrange(a, c) =~= x.subrange(a, c));
}

/// A range of a range.
pub proof fn lemma_sub_sub(x: Seq<u8>, a: int, c: int, i: int, j: int)
    requires
        0 <= a <= c <= x.len(),
        0 <= i <= j <= c - a,
    ensures
        x.subrange(a, c).subrange(i, j) == x.subrange(a + i, a + j),
{
    assert(x.subrange(a, c).subrange(i, j) =~= x.subrange(a + i, a + j));
}

/// Adjacent ranges concatenate.
pub proof fn lemma_concat_ranges(b: Seq<u8>, i: int, j: int, k: int)
    requires
        0 <= i <= j <= k <= b.len(),
    ensures
        b.subrange(i, j) + b.subrange(j, k) == b.subrange(i, k),
{
    assert(b.subrange(i, j) + b.subrange(j, k) =~= b.subrange(i, k));
}

} // verus!
