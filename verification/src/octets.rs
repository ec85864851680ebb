//! The byte buffers of the `bytes` crate, and what the library relies on of them.
//!
//! A [`Bytes`] is a read cursor over a byte sequence and a [`BytesMut`] is a
//! growing one. Both are opaque here: [`octets`] and [`mut_octets`] stand for
//! what they hold, and each operation says what it does to that.

use bytes::{Buf, BufMut, Bytes, BytesMut};
use vstd::prelude::*;

verus! {

/// `bytes::Bytes`, a buffer to read from. What it holds is [`octets`].
#[verifier::external_type_specification]
#[verifier::external_body]
pub struct ExBytes(bytes::Bytes);

/// `bytes::BytesMut`, a buffer to write to. What it holds is [`mut_octets`].
#[verifier::external_type_specification]
#[verifier::external_body]
pub struct ExBytesMut(bytes::BytesMut);

/// The bytes that a [`Bytes`] holds and has not yet given away.
pub uninterp spec fn octets(b: Bytes) -> Seq<u8>;

/// The bytes that a [`BytesMut`] holds.
pub uninterp spec fn mut_octets(b: BytesMut) -> Seq<u8>;

/// The contents of an optional [`Bytes`].
pub open spec fn opt_octets(b: Option<Bytes>) -> Option<Seq<u8>> {
    match b {
        Some(b) => Some(octets(b)),
        None => None,
    }
}

// Big-endian integers.

/// The 16-bit number in the two bytes of `s` from position `i` on.
pub open spec fn be16(s: Seq<u8>, i: int) -> int {
    s[i] * 0x100 + s[i + 1]
}

/// The 32-bit number in the four bytes of `s` from position `i` on.
pub open spec fn be32(s: Seq<u8>, i: int) -> int {
    be16(s, i) * 0x1_0000 + be16(s, i + 2)
}

/// The 64-bit number in the eight bytes of `s` from position `i` on.
pub open spec fn be64(s: Seq<u8>, i: int) -> int {
    be32(s, i) * 0x1_0000_0000 + be32(s, i + 4)
}

pub open spec fn u16_at(s: Seq<u8>, i: int) -> u16 {
    be16(s, i) as u16
}

pub open spec fn u32_at(s: Seq<u8>, i: int) -> u32 {
    be32(s, i) as u32
}

/// Two's complement on eight bits.
pub open spec fn i8_at(s: Seq<u8>, i: int) -> i8 {
    if s[i] < 0x80 {
        s[i] as i8
    } else {
        (s[i] - 0x100) as i8
    }
}

/// Two's complement on 16 bits.
pub open spec fn i16_at(s: Seq<u8>, i: int) -> i16 {
    if be16(s, i) < 0x8000 {
        be16(s, i) as i16
    } else {
        (be16(s, i) - 0x1_0000) as i16
    }
}

/// Two's complement on 32 bits.
pub open spec fn i32_at(s: Seq<u8>, i: int) -> i32 {
    if be32(s, i) < 0x8000_0000 {
        be32(s, i) as i32
    } else {
        (be32(s, i) - 0x1_0000_0000) as i32
    }
}

/// Two's complement on 64 bits.
pub open spec fn i64_at(s: Seq<u8>, i: int) -> i64 {
    if be64(s, i) < 0x8000_0000_0000_0000 {
        be64(s, i) as i64
    } else {
        (be64(s, i) - 0x1_0000_0000_0000_0000) as i64
    }
}

/// The four bytes of `n`, the most significant first.
pub open spec fn u32_octets(n: u32) -> Seq<u8> {
    seq![
        (n / 0x100_0000) as u8,
        (n / 0x1_0000 % 0x100) as u8,
        (n / 0x100 % 0x100) as u8,
        (n % 0x100) as u8,
    ]
}

/// The four bytes of the two's complement of `n`, the most significant first.
pub open spec fn i32_octets(n: i32) -> Seq<u8> {
    u32_octets(if n >= 0 { n as u32 } else { (n + 0x1_0000_0000) as u32 })
}

// Numbers keep their value when the bytes before them are dropped.

pub broadcast proof fn skip_skip(s: Seq<u8>, a: int, b: int)
    requires
        0 <= a,
        0 <= b,
        a + b <= s.len(),
    ensures
        #[trigger] s.skip(a).skip(b) == s.skip(a + b),
{
    assert(s.skip(a).skip(b) =~= s.skip(a + b));
}

pub broadcast proof fn i8_at_skip(s: Seq<u8>, n: int, i: int)
    requires
        0 <= n,
        0 <= i,
        n + i + 1 <= s.len(),
    ensures
        #[trigger] i8_at(s.skip(n), i) == i8_at(s, n + i),
{
}

pub broadcast proof fn i16_at_skip(s: Seq<u8>, n: int, i: int)
    requires
        0 <= n,
        0 <= i,
        n + i + 2 <= s.len(),
    ensures
        #[trigger] i16_at(s.skip(n), i) == i16_at(s, n + i),
{
}

pub broadcast proof fn u16_at_skip(s: Seq<u8>, n: int, i: int)
    requires
        0 <= n,
        0 <= i,
        n + i + 2 <= s.len(),
    ensures
        #[trigger] u16_at(s.skip(n), i) == u16_at(s, n + i),
{
}

pub broadcast proof fn i32_at_skip(s: Seq<u8>, n: int, i: int)
    requires
        0 <= n,
        0 <= i,
        n + i + 4 <= s.len(),
    ensures
        #[trigger] i32_at(s.skip(n), i) == i32_at(s, n + i),
{
}

pub broadcast proof fn u32_at_skip(s: Seq<u8>, n: int, i: int)
    requires
        0 <= n,
        0 <= i,
        n + i + 4 <= s.len(),
    ensures
        #[trigger] u32_at(s.skip(n), i) == u32_at(s, n + i),
{
}

pub broadcast proof fn i64_at_skip(s: Seq<u8>, n: int, i: int)
    requires
        0 <= n,
        0 <= i,
        n + i + 8 <= s.len(),
    ensures
        #[trigger] i64_at(s.skip(n), i) == i64_at(s, n + i),
{
}

pub broadcast group group_skip {
    skip_skip,
    i8_at_skip,
    i16_at_skip,
    u16_at_skip,
    i32_at_skip,
    u32_at_skip,
    i64_at_skip,
}

// Reading.

/// `Bytes::len`: how many bytes are left.
pub assume_specification[ Bytes::len ](b: &Bytes) -> (n: usize)
    ensures
        n == octets(*b).len(),
;

/// `Bytes::split_to`: the first `at` bytes leave the buffer and are returned. It
/// panics where the buffer holds fewer.
pub assume_specification[ Bytes::split_to ](b: &mut Bytes, at: usize) -> (head: Bytes)
    requires
        at <= octets(*old(b)).len(),
    ensures
        octets(head) == octets(*old(b)).take(at as int),
        octets(*final(b)) == octets(*old(b)).skip(at as int),
;

/// `Bytes::clone`: another handle on the same bytes.
pub assume_specification[ <Bytes as Clone>::clone ](b: &Bytes) -> (c: Bytes)
    ensures
        octets(c) == octets(*b),
;

/// `Bytes::copy_from_slice`: a buffer that holds a copy of `data`.
pub assume_specification[ Bytes::copy_from_slice ](data: &[u8]) -> (b: Bytes)
    ensures
        octets(b) == data@,
;

/// `Bytes::from_static`: a buffer over the bytes of `bytes`.
pub assume_specification[ Bytes::from_static ](bytes: &'static [u8]) -> (b: Bytes)
    ensures
        octets(b) == bytes@,
;

/// `Bytes::from(Vec<u8>)`: a buffer that takes over the elements of `v`.
#[verifier::external_body]
pub(crate) fn bytes_from_vec(v: Vec<u8>) -> (b: Bytes)
    ensures
        octets(b) == v@,
{
    Bytes::from(v)
}

/// `Bytes::as_ref`: the bytes that are left, as a slice.
#[verifier::external_body]
pub(crate) fn as_slice(b: &Bytes) -> (s: &[u8])
    ensures
        s@ == octets(*b),
{
    b.as_ref()
}

/// `Buf::advance` on a `Bytes`: the first `n` bytes are dropped. It panics where
/// the buffer holds fewer.
#[verifier::external_body]
pub(crate) fn advance(buf: &mut Bytes, n: usize)
    requires
        n <= octets(*old(buf)).len(),
    ensures
        octets(*final(buf)) == octets(*old(buf)).skip(n as int),
{
    buf.advance(n)
}

/// `Buf::get_u8` on a `Bytes`: takes one byte. It panics where none is left.
#[verifier::external_body]
pub(crate) fn get_u8(buf: &mut Bytes) -> (v: u8)
    requires
        octets(*old(buf)).len() >= 1,
    ensures
        v == octets(*old(buf))[0],
        octets(*final(buf)) == octets(*old(buf)).skip(1),
{
    buf.get_u8()
}

/// `Buf::get_i8` on a `Bytes`: takes one byte as a signed number. It panics
/// where none is left.
#[verifier::external_body]
pub(crate) fn get_i8(buf: &mut Bytes) -> (v: i8)
    requires
        octets(*old(buf)).len() >= 1,
    ensures
        v == i8_at(octets(*old(buf)), 0),
        octets(*final(buf)) == octets(*old(buf)).skip(1),
{
    buf.get_i8()
}

/// `Buf::get_u16` on a `Bytes`: takes a big-endian number of two bytes. It
/// panics where fewer are left.
#[verifier::external_body]
pub(crate) fn get_u16(buf: &mut Bytes) -> (v: u16)
    requires
        octets(*old(buf)).len() >= 2,
    ensures
        v == u16_at(octets(*old(buf)), 0),
        octets(*final(buf)) == octets(*old(buf)).skip(2),
{
    buf.get_u16()
}

/// `Buf::get_i16` on a `Bytes`: takes a big-endian signed number of two bytes.
/// It panics where fewer are left.
#[verifier::external_body]
pub(crate) fn get_i16(buf: &mut Bytes) -> (v: i16)
    requires
        octets(*old(buf)).len() >= 2,
    ensures
        v == i16_at(octets(*old(buf)), 0),
        octets(*final(buf)) == octets(*old(buf)).skip(2),
{
    buf.get_i16()
}

/// `Buf::get_u32` on a `Bytes`: takes a big-endian number of four bytes. It
/// panics where fewer are left.
#[verifier::external_body]
pub(crate) fn get_u32(buf: &mut Bytes) -> (v: u32)
    requires
        octets(*old(buf)).len() >= 4,
    ensures
        v == u32_at(octets(*old(buf)), 0),
        octets(*final(buf)) == octets(*old(buf)).skip(4),
{
    buf.get_u32()
}

/// `Buf::get_i32` on a `Bytes`: takes a big-endian signed number of four bytes.
/// It panics where fewer are left.
#[verifier::external_body]
pub(crate) fn get_i32(buf: &mut Bytes) -> (v: i32)
    requires
        octets(*old(buf)).len() >= 4,
    ensures
        v == i32_at(octets(*old(buf)), 0),
        octets(*final(buf)) == octets(*old(buf)).skip(4),
{
    buf.get_i32()
}

/// `Buf::get_i64` on a `Bytes`: takes a big-endian signed number of eight bytes.
/// It panics where fewer are left.
#[verifier::external_body]
pub(crate) fn get_i64(buf: &mut Bytes) -> (v: i64)
    requires
        octets(*old(buf)).len() >= 8,
    ensures
        v == i64_at(octets(*old(buf)), 0),
        octets(*final(buf)) == octets(*old(buf)).skip(8),
{
    buf.get_i64()
}

// Writing.

/// `BytesMut::new`: an empty buffer.
pub assume_specification[ BytesMut::new ]() -> (b: BytesMut)
    ensures
        mut_octets(b) == Seq::<u8>::empty(),
;

/// `BytesMut::len`: how many bytes the buffer holds.
pub assume_specification[ BytesMut::len ](b: &BytesMut) -> (n: usize)
    ensures
        n == mut_octets(*b).len(),
;

/// `BytesMut::split_to`: the first `at` bytes leave the buffer and are returned.
/// It panics where the buffer holds fewer.
pub assume_specification[ BytesMut::split_to ](b: &mut BytesMut, at: usize) -> (head: BytesMut)
    requires
        at <= mut_octets(*old(b)).len(),
    ensures
        mut_octets(head) == mut_octets(*old(b)).take(at as int),
        mut_octets(*final(b)) == mut_octets(*old(b)).skip(at as int),
;

/// `BytesMut::freeze`: the same bytes, for reading.
pub assume_specification[ BytesMut::freeze ](b: BytesMut) -> (r: Bytes)
    ensures
        octets(r) == mut_octets(b),
;

/// `BytesMut::as_ref`: the bytes of the buffer, as a slice.
#[verifier::external_body]
pub(crate) fn mut_as_slice(b: &BytesMut) -> (s: &[u8])
    ensures
        s@ == mut_octets(*b),
{
    b.as_ref()
}

/// `BytesMut::as_mut`: the bytes of the buffer, as a slice to write to.
#[verifier::external_body]
pub(crate) fn as_mut_slice(b: &mut BytesMut) -> (s: &mut [u8])
    ensures
        s@ == mut_octets(*old(b)),
        mut_octets(*final(b)) == final(s)@,
{
    b.as_mut()
}

/// `BufMut::put_slice` on a `BytesMut`: appends `src`. A buffer cannot grow
/// beyond `isize::MAX` bytes.
#[verifier::external_body]
pub(crate) fn put_slice(buf: &mut BytesMut, src: &[u8])
    requires
        mut_octets(*old(buf)).len() + src@.len() <= isize::MAX,
    ensures
        mut_octets(*final(buf)) == mut_octets(*old(buf)) + src@,
{
    buf.put_slice(src)
}

/// `BufMut::put_u8` on a `BytesMut`: appends one byte. A buffer cannot grow
/// beyond `isize::MAX` bytes.
#[verifier::external_body]
pub(crate) fn put_u8(buf: &mut BytesMut, n: u8)
    requires
        mut_octets(*old(buf)).len() + 1 <= isize::MAX,
    ensures
        mut_octets(*final(buf)) == mut_octets(*old(buf)).push(n),
{
    buf.put_u8(n)
}

/// `BufMut::put_u32` on a `BytesMut`: appends the four bytes of `n`, the most
/// significant first. A buffer cannot grow beyond `isize::MAX` bytes.
#[verifier::external_body]
pub(crate) fn put_u32(buf: &mut BytesMut, n: u32)
    requires
        mut_octets(*old(buf)).len() + 4 <= isize::MAX,
    ensures
        mut_octets(*final(buf)) == mut_octets(*old(buf)) + u32_octets(n),
{
    buf.put_u32(n)
}

/// `BufMut::put_i32` on a `BytesMut`: appends the four bytes of the two's
/// complement of `n`, the most significant first. A buffer cannot grow beyond
/// `isize::MAX` bytes.
#[verifier::external_body]
pub(crate) fn put_i32(buf: &mut BytesMut, n: i32)
    requires
        mut_octets(*old(buf)).len() + 4 <= isize::MAX,
    ensures
        mut_octets(*final(buf)) == mut_octets(*old(buf)) + i32_octets(n),
{
    buf.put_i32(n)
}

} // verus!
