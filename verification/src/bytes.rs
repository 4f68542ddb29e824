//! Big-endian reading and writing of the N64's integer fields.
//!
//! The reads and writes go through `byteorder`'s `BigEndian`; the spec
//! functions here say what they compute.
use vstd::prelude::*;
use byteorder::{BigEndian, ByteOrder};

verus! {

/// The big-endian `u16` at `pos` of `b`.
pub open spec fn be_u16(b: Seq<u8>, pos: int) -> u16 {
    ((b[pos] as u16) << 8u16) | (b[pos + 1] as u16)
}

/// The big-endian `i16` at `pos` of `b` (two's complement of the `u16`).
pub open spec fn be_i16(b: Seq<u8>, pos: int) -> i16 {
    be_u16(b, pos) as i16
}

/// The big-endian `u32` at `pos` of `b`.
pub open spec fn be_u32(b: Seq<u8>, pos: int) -> u32 {
    ((b[pos] as u32) << 24u32) | ((b[pos + 1] as u32) << 16u32) | ((b[pos + 2] as u32) << 8u32)
        | (b[pos + 3] as u32)
}

/// The two big-endian bytes of `n`.
pub open spec fn u16_bytes(n: u16) -> Seq<u8> {
    seq![(n >> 8u16) as u8, n as u8]
}

/// The two big-endian bytes of `n`.
pub open spec fn i16_bytes(n: i16) -> Seq<u8> {
    u16_bytes(n as u16)
}

/// The four big-endian bytes of `n`.
pub open spec fn u32_bytes(n: u32) -> Seq<u8> {
    seq![(n >> 24u32) as u8, (n >> 16u32) as u8, (n >> 8u32) as u8, n as u8]
}

/// `byteorder`'s `BigEndian::read_u16`: the big-endian `u16` in the first two
/// bytes of the slice it is given (here the bytes from `pos` on).
#[verifier::external_body]
pub(crate) fn read_u16_at(buf: &[u8], pos: usize) -> (r: u16)
    requires
        pos + 2 <= buf@.len(),
    ensures
        r == be_u16(buf@, pos as int),
{
    BigEndian::read_u16(&buf[pos..])
}

/// `byteorder`'s `BigEndian::read_i16`: the `u16` read as above, cast to `i16`.
#[verifier::external_body]
pub(crate) fn read_i16_at(buf: &[u8], pos: usize) -> (r: i16)
    requires
        pos + 2 <= buf@.len(),
    ensures
        r == be_i16(buf@, pos as int),
{
    BigEndian::read_i16(&buf[pos..])
}

/// `byteorder`'s `BigEndian::read_u32`: the big-endian `u32` in the first four
/// bytes of the slice it is given (here the bytes from `pos` on).
#[verifier::external_body]
pub(crate) fn read_u32_at(buf: &[u8], pos: usize) -> (r: u32)
    requires
        pos + 4 <= buf@.len(),
    ensures
        r == be_u32(buf@, pos as int),
{
    BigEndian::read_u32(&buf[pos..])
}

/// `byteorder`'s `BigEndian::write_u16` into a fresh two-byte array: the
/// big-endian bytes of `n`.
#[verifier::external_body]
pub(crate) fn u16_to_bytes(n: u16) -> (r: [u8; 2])
    ensures
        r@ == u16_bytes(n),
{
    let mut out = [0u8; 2];
    BigEndian::write_u16(&mut out, n);
    out
}

/// `byteorder`'s `BigEndian::write_i16` into a fresh two-byte array: the
/// big-endian bytes of `n` as a `u16`.
#[verifier::external_body]
pub(crate) fn i16_to_bytes(n: i16) -> (r: [u8; 2])
    ensures
        r@ == i16_bytes(n),
{
    let mut out = [0u8; 2];
    BigEndian::write_i16(&mut out, n);
    out
}

/// `byteorder`'s `BigEndian::write_u32` into a fresh four-byte array: the
/// big-endian bytes of `n`.
#[verifier::external_body]
pub(crate) fn u32_to_bytes(n: u32) -> (r: [u8; 4])
    ensures
        r@ == u32_bytes(n),
{
    let mut out = [0u8; 4];
    BigEndian::write_u32(&mut out, n);
    out
}

/// Appends `bytes` to `out`.
pub(crate) fn append_bytes(out: &mut Vec<u8>, bytes: &[u8])
    ensures
        final(out)@ == old(out)@ + bytes@,
{
    let mut i: usize = 0;
    while i < bytes.len()
        invariant
            i <= bytes@.len(),
            out@ == old(out)@ + bytes@.subrange(0, i as int),
        decreases bytes@.len() - i,
    {
        out.push(bytes[i]);
        i = i + 1;
        assert(bytes@.subrange(0, i as int) == bytes@.subrange(0, i - 1).push(bytes@[i - 1]));
    }
    assert(bytes@.subrange(0, i as int) == bytes@);
}

/// Appends the big-endian bytes of `n` to `out`.
pub(crate) fn push_u16(out: &mut Vec<u8>, n: u16)
    ensures
        final(out)@ == old(out)@ + u16_bytes(n),
{
    let b = u16_to_bytes(n);
    append_bytes(out, &b);
}

/// Appends the big-endian bytes of `n` to `out`.
pub(crate) fn push_i16(out: &mut Vec<u8>, n: i16)
    ensures
        final(out)@ == old(out)@ + i16_bytes(n),
{
    let b = i16_to_bytes(n);
    append_bytes(out, &b);
}

/// Appends the big-endian bytes of `n` to `out`.
pub(crate) fn push_u32(out: &mut Vec<u8>, n: u32)
    ensures
        final(out)@ == old(out)@ + u32_bytes(n),
{
    let b = u32_to_bytes(n);
    append_bytes(out, &b);
}

/// Writing a `u16` read from two bytes gives back those bytes.
pub proof fn lemma_u16_roundtrip(b: Seq<u8>, pos: int)
    requires
        0 <= pos,
        pos + 2 <= b.len(),
    ensures
        u16_bytes(be_u16(b, pos)) == b.subrange(pos, pos + 2),
{
    let x = b[pos];
    let y = b[pos + 1];
    assert((((((x as u16) << 8u16) | (y as u16)) >> 8u16) as u8) == x) by (bit_vector);
    assert(((((x as u16) << 8u16) | (y as u16)) as u8) == y) by (bit_vector);
    assert(u16_bytes(be_u16(b, pos)) =~= b.subrange(pos, pos + 2));
}

/// Writing an `i16` read from two bytes gives back those bytes.
pub proof fn lemma_i16_roundtrip(b: Seq<u8>, pos: int)
    requires
        0 <= pos,
        pos + 2 <= b.len(),
    ensures
        i16_bytes(be_i16(b, pos)) == b.subrange(pos, pos + 2),
{
    let u = be_u16(b, pos);
    assert(((u as i16) as u16) == u) by (bit_vector);
    lemma_u16_roundtrip(b, pos);
}

/// Writing a `u32` read from four bytes gives back those bytes.
pub proof fn lemma_u32_roundtrip(b: Seq<u8>, pos: int)
    requires
        0 <= pos,
        pos + 4 <= b.len(),
    ensures
        u32_bytes(be_u32(b, pos)) == b.subrange(pos, pos + 4),
{
    let w = b[pos];
    let x = b[pos + 1];
    let y = b[pos + 2];
    let z = b[pos + 3];
    assert({
        let v = ((w as u32) << 24u32) | ((x as u32) << 16u32) | ((y as u32) << 8u32) | (z as u32);
        &&& (v >> 24u32) as u8 == w
        &&& (v >> 16u32) as u8 == x
        &&& (v >> 8u32) as u8 == y
        &&& v as u8 == z
    }) by (bit_vector);
    assert(u32_bytes(be_u32(b, pos)) =~= b.subrange(pos, pos + 4));
}

/// Reading a `u32` back from its bytes gives the `u32`.
pub proof fn lemma_u32_bytes_read(n: u32)
    ensures
        be_u32(u32_bytes(n), 0) == n,
{
    assert(((((n >> 24u32) as u8) as u32) << 24u32) | ((((n >> 16u32) as u8) as u32) << 16u32)
        | ((((n >> 8u32) as u8) as u32) << 8u32) | ((n as u8) as u32) == n) by (bit_vector);
}

/// Reading a `u16` back from its bytes gives the `u16`.
pub proof fn lemma_u16_bytes_read(n: u16)
    ensures
        be_u16(u16_bytes(n), 0) == n,
{
    assert(((((n >> 8u16) as u8) as u16) << 8u16) | ((n as u8) as u16) == n) by (bit_vector);
}

} // verus!
