//! Byte order of integers: network (big-endian) order for the USB/IP wire
//! format, little-endian order for USB descriptors and requests.
use vstd::prelude::*;

verus! {

/// The 4 bytes of `v` in network byte order: the most significant first.
pub open spec fn be32_bytes(v: u32) -> Seq<u8> {
    seq![
        (v / 0x100_0000) as u8,
        (v / 0x1_0000 % 0x100) as u8,
        (v / 0x100 % 0x100) as u8,
        (v % 0x100) as u8,
    ]
}

/// The integer that 4 bytes in network byte order stand for.
pub open spec fn be32_value(s: Seq<u8>) -> u32
    recommends
        s.len() == 4,
{
    (s[0] * 0x100_0000 + s[1] * 0x1_0000 + s[2] * 0x100 + s[3]) as u32
}

/// The 2 bytes of `v` in network byte order: the most significant first.
pub open spec fn be16_bytes(v: u16) -> Seq<u8> {
    seq![(v / 0x100) as u8, (v % 0x100) as u8]
}

/// The integer that 2 bytes in network byte order stand for.
pub open spec fn be16_value(s: Seq<u8>) -> u16
    recommends
        s.len() == 2,
{
    (s[0] * 0x100 + s[1]) as u16
}

/// The 4 bytes of a signed `v` in network byte order (two's complement).
pub open spec fn be_i32_bytes(v: i32) -> Seq<u8> {
    be32_bytes(v as u32)
}

/// The signed integer that 4 bytes in network byte order stand for (two's complement).
pub open spec fn be_i32_value(s: Seq<u8>) -> i32 {
    be32_value(s) as i32
}

/// The 2 bytes of `v` in little-endian (USB) byte order: the least significant first.
pub open spec fn le16_bytes(v: u16) -> Seq<u8> {
    seq![(v % 0x100) as u8, (v / 0x100) as u8]
}

/// The integer that 2 bytes in little-endian (USB) byte order stand for.
pub open spec fn le16_value(s: Seq<u8>) -> u16
    recommends
        s.len() == 2,
{
    (s[0] + s[1] * 0x100) as u16
}

/// Decoding the encoding of a 32-bit value gives the value back.
pub proof fn lemma_be32_roundtrip(v: u32)
    ensures
        be32_bytes(v).len() == 4,
        be32_value(be32_bytes(v)) == v,
{
}

/// Encoding the value of 4 bytes gives the bytes back.
pub proof fn lemma_be32_bytes_determined(s: Seq<u8>)
    requires
        s.len() == 4,
    ensures
        be32_bytes(be32_value(s)) == s,
{
    assert(be32_bytes(be32_value(s)) =~= s);
}

/// Decoding the encoding of a 16-bit value gives the value back.
pub proof fn lemma_be16_roundtrip(v: u16)
    ensures
        be16_bytes(v).len() == 2,
        be16_value(be16_bytes(v)) == v,
{
}

/// Encoding the value of 2 bytes gives the bytes back.
pub proof fn lemma_be16_bytes_determined(s: Seq<u8>)
    requires
        s.len() == 2,
    ensures
        be16_bytes(be16_value(s)) == s,
{
    assert(be16_bytes(be16_value(s)) =~= s);
}

/// Decoding the encoding of a signed 32-bit value gives the value back.
pub proof fn lemma_be_i32_roundtrip(v: i32)
    ensures
        be_i32_bytes(v).len() == 4,
        be_i32_value(be_i32_bytes(v)) == v,
{
    lemma_be32_roundtrip(v as u32);
    let u = v as u32;
    assert((u as i32) == v) by (bit_vector)
        requires
            u == v as u32,
    ;
}

/// Encoding the signed value of 4 bytes gives the bytes back.
pub proof fn lemma_be_i32_bytes_determined(s: Seq<u8>)
    requires
        s.len() == 4,
    ensures
        be_i32_bytes(be_i32_value(s)) == s,
{
    lemma_be32_bytes_determined(s);
    let u = be32_value(s);
    assert(((u as i32) as u32) == u) by (bit_vector);
}

/// Decoding the little-endian encoding of a 16-bit value gives the value back.
pub proof fn lemma_le16_roundtrip(v: u16)
    ensures
        le16_bytes(v).len() == 2,
        le16_value(le16_bytes(v)) == v,
{
}

/// The little-endian value of two bytes.
pub fn le16_from_bytes(lo: u8, hi: u8) -> (r: u16)
    ensures
        r == le16_value(seq![lo, hi]),
{
    lo as u16 + (hi as u16) * 0x100
}

/// The little-endian bytes of a 16-bit value.
pub fn le16_to_bytes(v: u16) -> (r: (u8, u8))
    ensures
        seq![r.0, r.1] == le16_bytes(v),
{
    let r = ((v % 0x100) as u8, (v / 0x100) as u8);
    assert(seq![r.0, r.1] =~= le16_bytes(v));
    r
}

/// Appends `v` to `out` in network byte order.
pub fn push_be32(out: &mut Vec<u8>, v: u32)
    ensures
        final(out)@ == old(out)@ + be32_bytes(v),
{
    out.push((v / 0x100_0000) as u8);
    out.push((v / 0x1_0000 % 0x100) as u8);
    out.push((v / 0x100 % 0x100) as u8);
    out.push((v % 0x100) as u8);
    assert(final(out)@ =~= old(out)@ + be32_bytes(v));
}

/// Appends `v` to `out` in network byte order.
pub fn push_be16(out: &mut Vec<u8>, v: u16)
    ensures
        final(out)@ == old(out)@ + be16_bytes(v),
{
    out.push((v / 0x100) as u8);
    out.push((v % 0x100) as u8);
    assert(final(out)@ =~= old(out)@ + be16_bytes(v));
}

/// Appends the signed `v` to `out` in network byte order.
pub fn push_be_i32(out: &mut Vec<u8>, v: i32)
    ensures
        final(out)@ == old(out)@ + be_i32_bytes(v),
{
    push_be32(out, v as u32);
}

/// Appends all of `bytes` to `out`.
pub fn push_bytes(out: &mut Vec<u8>, bytes: &[u8])
    ensures
        final(out)@ == old(out)@ + bytes@,
{
    let mut i: usize = 0;
    while i < bytes.len()
        invariant
            i <= bytes@.len(),
            out@ == old(out)@ + bytes@.subrange(0, i as int),
        decreases bytes@.len() - i,
    {
        out.push(bytes[i]);
        i = i + 1;
        assert(out@ =~= old(out)@ + bytes@.subrange(0, i as int));
    }
    assert(bytes@.subrange(0, i as int) =~= bytes@);
}

/// Reads the 32-bit network-order integer at `off`.
pub fn read_be32(s: &[u8], off: usize) -> (r: u32)
    requires
        off + 4 <= s@.len(),
    ensures
        r == be32_value(s@.subrange(off as int, off + 4)),
{
    (s[off] as u32) * 0x100_0000 + (s[off + 1] as u32) * 0x1_0000 + (s[off + 2] as u32) * 0x100 + (
    s[off + 3] as u32)
}

/// Reads the 16-bit network-order integer at `off`.
pub fn read_be16(s: &[u8], off: usize) -> (r: u16)
    requires
        off + 2 <= s@.len(),
    ensures
        r == be16_value(s@.subrange(off as int, off + 2)),
{
    (s[off] as u16) * 0x100 + (s[off + 1] as u16)
}

/// Reads the signed 32-bit network-order integer at `off`.
pub fn read_be_i32(s: &[u8], off: usize) -> (r: i32)
    requires
        off + 4 <= s@.len(),
    ensures
        r == be_i32_value(s@.subrange(off as int, off + 4)),
{
    read_be32(s, off) as i32
}

/// Copies the `N` bytes at `off` into an array.
pub fn read_array<const N: usize>(s: &[u8], off: usize) -> (r: [u8; N])
    requires
        off + N <= s@.len(),
    ensures
        r@ == s@.subrange(off as int, off + N),
{
    let len = s.len();
    let mut r = [0u8; N];
    let mut i: usize = 0;
    while i < N
        invariant
            len == s@.len(),
            off + N <= len,
            i <= N,
            r@.len() == N,
            forall|j: int| 0 <= j < i ==> r@[j] == s@[off + j],
        decreases N - i,
    {
        r[i] = s[off + i];
        i = i + 1;
    }
    assert(r@ =~= s@.subrange(off as int, off + N));
    r
}

} // verus!
