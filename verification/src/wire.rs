//! Little-endian wire encoding, and the byte buffers of the `bytes` and
//! `byteorder` crates that the protocol code reads from and writes into.
use vstd::prelude::*;

use byteorder::ByteOrder;
use bytes::{Buf, BufMut, BytesMut};

verus! {

// ---------------------------------------------------------------------------
// Little-endian integers as byte sequences
// ---------------------------------------------------------------------------
/// The value of the two bytes `s[at]`, `s[at + 1]` read as a little-endian integer.
pub open spec fn le_u16_at(s: Seq<u8>, at: int) -> int {
    s[at] + 256 * s[at + 1]
}

/// The value of the four bytes `s[at] .. s[at + 3]` read as a little-endian integer.
pub open spec fn le_u32_at(s: Seq<u8>, at: int) -> int {
    s[at] + 256 * s[at + 1] + 65536 * s[at + 2] + 16777216 * s[at + 3]
}

/// The two little-endian bytes of `v`.
pub open spec fn le_u16_bytes(v: u16) -> Seq<u8> {
    seq![(v % 256) as u8, (v / 256) as u8]
}

/// The four little-endian bytes of `v`.
pub open spec fn le_u32_bytes(v: u32) -> Seq<u8> {
    seq![
        (v % 256) as u8,
        ((v / 256) % 256) as u8,
        ((v / 65536) % 256) as u8,
        (v / 16777216) as u8,
    ]
}

/// Reading back the bytes of a 16-bit value gives the value.
pub proof fn lemma_le_u16_roundtrip(v: u16)
    ensures
        le_u16_bytes(v).len() == 2,
        le_u16_at(le_u16_bytes(v), 0) == v,
{
    let s = le_u16_bytes(v);
    assert(s[0] == v % 256);
    assert(s[1] == v / 256);
}

/// Reading back the bytes of a 32-bit value gives the value.
pub proof fn lemma_le_u32_roundtrip(v: u32)
    ensures
        le_u32_bytes(v).len() == 4,
        le_u32_at(le_u32_bytes(v), 0) == v,
{
    let s = le_u32_bytes(v);
    assert(s[0] == v % 256);
    assert(s[1] == (v / 256) % 256);
    assert(s[2] == (v / 65536) % 256);
    assert(s[3] == v / 16777216);
    let x = v as int;
    assert(x == x % 256 + 256 * ((x / 256) % 256) + 65536 * ((x / 65536) % 256) + 16777216 * (x
        / 16777216)) by (nonlinear_arith)
        requires
            0 <= x < 0x1_0000_0000,
    ;
}

/// Writing back the value of four little-endian bytes gives the same bytes.
pub proof fn lemma_le_u32_bytes_roundtrip(s: Seq<u8>, at: int)
    requires
        0 <= at,
        at + 4 <= s.len(),
    ensures
        le_u32_bytes(le_u32_at(s, at) as u32) == s.subrange(at, at + 4),
{
    let b0 = s[at] as int;
    let b1 = s[at + 1] as int;
    let b2 = s[at + 2] as int;
    let b3 = s[at + 3] as int;
    let x = b0 + 256 * b1 + 65536 * b2 + 16777216 * b3;
    assert(x % 256 == b0 && (x / 256) % 256 == b1 && (x / 65536) % 256 == b2 && x / 16777216
        == b3) by (nonlinear_arith)
        requires
            0 <= b0 < 256,
            0 <= b1 < 256,
            0 <= b2 < 256,
            0 <= b3 < 256,
            x == b0 + 256 * b1 + 65536 * b2 + 16777216 * b3,
    ;
    assert(le_u32_bytes(le_u32_at(s, at) as u32) =~= s.subrange(at, at + 4));
}

// ---------------------------------------------------------------------------
// `bytes::BytesMut`
// ---------------------------------------------------------------------------
#[verifier::external_type_specification]
#[verifier::external_body]
pub struct ExBytesMut(bytes::BytesMut);

/// The bytes that a `BytesMut` holds, from its read position to its end.
pub uninterp spec fn bytes_mut_view(buf: BytesMut) -> Seq<u8>;

/// `BytesMut::from(&[u8])`: a buffer that holds a copy of `data`.
#[verifier::external_body]
pub(crate) fn bytes_mut_from_slice(data: &[u8]) -> (buf: BytesMut)
    ensures
        bytes_mut_view(buf) == data@,
{
    BytesMut::from(data)
}

/// `BytesMut::with_capacity`: an empty buffer; the capacity only reserves memory.
/// It panics when the capacity exceeds `isize::MAX` bytes.
#[verifier::external_body]
pub(crate) fn bytes_mut_with_capacity(capacity: usize) -> (buf: BytesMut)
    requires
        capacity <= isize::MAX,
    ensures
        bytes_mut_view(buf) == Seq::<u8>::empty(),
{
    BytesMut::with_capacity(capacity)
}

/// `BytesMut::len`: the number of bytes that the buffer holds.
#[verifier::external_body]
pub(crate) fn bytes_mut_len(buf: &BytesMut) -> (n: usize)
    ensures
        n == bytes_mut_view(*buf).len(),
{
    buf.len()
}

/// `Buf::get_u8` on a `BytesMut`: returns the first byte and advances past it.
/// It panics on an empty buffer.
#[verifier::external_body]
pub(crate) fn bytes_mut_get_u8(buf: &mut BytesMut) -> (b: u8)
    requires
        bytes_mut_view(*old(buf)).len() >= 1,
    ensures
        b == bytes_mut_view(*old(buf))[0],
        bytes_mut_view(*final(buf)) == bytes_mut_view(*old(buf)).skip(1),
{
    buf.get_u8()
}

/// `Buf::get_u32_le` on a `BytesMut`: reads the first four bytes as a
/// little-endian integer and advances past them. It panics when fewer than
/// four bytes remain.
#[verifier::external_body]
pub(crate) fn bytes_mut_get_u32_le(buf: &mut BytesMut) -> (v: u32)
    requires
        bytes_mut_view(*old(buf)).len() >= 4,
    ensures
        v == le_u32_at(bytes_mut_view(*old(buf)), 0),
        bytes_mut_view(*final(buf)) == bytes_mut_view(*old(buf)).skip(4),
{
    buf.get_u32_le()
}

/// `BytesMut::split`: moves every byte into the returned buffer and leaves
/// `buf` empty.
#[verifier::external_body]
pub(crate) fn bytes_mut_split(buf: &mut BytesMut) -> (rest: BytesMut)
    ensures
        bytes_mut_view(rest) == bytes_mut_view(*old(buf)),
        bytes_mut_view(*final(buf)) == Seq::<u8>::empty(),
{
    buf.split()
}

/// `<[u8]>::to_vec` through `BytesMut`'s `Deref`: a vector of the buffer's bytes.
#[verifier::external_body]
pub(crate) fn bytes_mut_to_vec(buf: &BytesMut) -> (v: Vec<u8>)
    ensures
        v@ == bytes_mut_view(*buf),
{
    buf.to_vec()
}

/// `BufMut::put_u8` on a `BytesMut`: appends one byte. It panics when the
/// buffer would grow past `isize::MAX` bytes.
#[verifier::external_body]
pub(crate) fn bytes_mut_put_u8(buf: &mut BytesMut, n: u8)
    requires
        bytes_mut_view(*old(buf)).len() + 1 <= isize::MAX,
    ensures
        bytes_mut_view(*final(buf)) == bytes_mut_view(*old(buf)).push(n),
{
    buf.put_u8(n)
}

/// `BufMut::put_u16_le` on a `BytesMut`: appends the two little-endian bytes of `n`.
#[verifier::external_body]
pub(crate) fn bytes_mut_put_u16_le(buf: &mut BytesMut, n: u16)
    requires
        bytes_mut_view(*old(buf)).len() + 2 <= isize::MAX,
    ensures
        bytes_mut_view(*final(buf)) == bytes_mut_view(*old(buf)) + le_u16_bytes(n),
{
    buf.put_u16_le(n)
}

/// `BufMut::put_u32_le` on a `BytesMut`: appends the four little-endian bytes of `n`.
#[verifier::external_body]
pub(crate) fn bytes_mut_put_u32_le(buf: &mut BytesMut, n: u32)
    requires
        bytes_mut_view(*old(buf)).len() + 4 <= isize::MAX,
    ensures
        bytes_mut_view(*final(buf)) == bytes_mut_view(*old(buf)) + le_u32_bytes(n),
{
    buf.put_u32_le(n)
}

/// `BytesMut::extend_from_slice`: appends a copy of `data`.
#[verifier::external_body]
pub(crate) fn bytes_mut_extend_from_slice(buf: &mut BytesMut, data: &[u8])
    requires
        bytes_mut_view(*old(buf)).len() + data@.len() <= isize::MAX,
    ensures
        bytes_mut_view(*final(buf)) == bytes_mut_view(*old(buf)) + data@,
{
    buf.extend_from_slice(data)
}

// ---------------------------------------------------------------------------
// `bytes::BufMut` on `Vec<u8>`
// ---------------------------------------------------------------------------
/// `BufMut::put_u8` on a `Vec<u8>`: appends one byte.
#[verifier::external_body]
pub(crate) fn vec_put_u8(v: &mut Vec<u8>, n: u8)
    requires
        old(v)@.len() + 1 <= isize::MAX,
    ensures
        final(v)@ == old(v)@.push(n),
{
    v.put_u8(n)
}

/// `BufMut::put_u16_le` on a `Vec<u8>`: appends the two little-endian bytes of `n`.
#[verifier::external_body]
pub(crate) fn vec_put_u16_le(v: &mut Vec<u8>, n: u16)
    requires
        old(v)@.len() + 2 <= isize::MAX,
    ensures
        final(v)@ == old(v)@ + le_u16_bytes(n),
{
    v.put_u16_le(n)
}

/// `BufMut::put_u32_le` on a `Vec<u8>`: appends the four little-endian bytes of `n`.
#[verifier::external_body]
pub(crate) fn vec_put_u32_le(v: &mut Vec<u8>, n: u32)
    requires
        old(v)@.len() + 4 <= isize::MAX,
    ensures
        final(v)@ == old(v)@ + le_u32_bytes(n),
{
    v.put_u32_le(n)
}

// ---------------------------------------------------------------------------
// `byteorder`
// ---------------------------------------------------------------------------
/// `LittleEndian::read_u16`: the first two bytes of `buf` as a little-endian
/// integer. It panics when `buf` holds fewer than two bytes.
#[verifier::external_body]
pub(crate) fn read_u16_le(buf: &[u8]) -> (v: u16)
    requires
        buf@.len() >= 2,
    ensures
        v == le_u16_at(buf@, 0),
{
    byteorder::LittleEndian::read_u16(buf)
}

} // verus!
