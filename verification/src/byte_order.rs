//! Fixed-width integers in either byte order.

use vstd::prelude::*;
use byteorder::{BigEndian, ByteOrder, LittleEndian};

verus! {

/// The order in which the bytes of a multi-byte integer are laid out.
#[derive(Clone, Copy, Debug, PartialEq, Eq, Structural)]
pub enum Endianness {
    /// Most significant byte first.
    Big,
    /// Least significant byte first.
    Little,
}

/// The unsigned value of the first four bytes of `b`, most significant first.
pub open spec fn be_u32(b: Seq<u8>) -> int
    recommends
        b.len() >= 4,
{
    ((b[0] * 256 + b[1]) * 256 + b[2]) * 256 + b[3]
}

/// The unsigned value of the first four bytes of `b`, least significant first.
pub open spec fn le_u32(b: Seq<u8>) -> int
    recommends
        b.len() >= 4,
{
    ((b[3] * 256 + b[2]) * 256 + b[1]) * 256 + b[0]
}

/// The unsigned value of the first eight bytes of `b`, most significant first.
pub open spec fn be_u64(b: Seq<u8>) -> int
    recommends
        b.len() >= 8,
{
    be_u32(b) * 0x1_0000_0000 + be_u32(b.skip(4))
}

/// The unsigned value of the first eight bytes of `b`, least significant first.
pub open spec fn le_u64(b: Seq<u8>) -> int
    recommends
        b.len() >= 8,
{
    le_u32(b.skip(4)) * 0x1_0000_0000 + le_u32(b)
}

/// The two's-complement reading of a 32-bit pattern.
pub open spec fn signed32(u: int) -> int {
    if u < 0x8000_0000 {
        u
    } else {
        u - 0x1_0000_0000
    }
}

/// The two's-complement reading of a 64-bit pattern.
pub open spec fn signed64(u: int) -> int {
    if u < 0x8000_0000_0000_0000 {
        u
    } else {
        u - 0x1_0000_0000_0000_0000
    }
}

/// The unsigned 32-bit integer that the first four bytes of `b` hold in `order`.
pub open spec fn u32_of(order: Endianness, b: Seq<u8>) -> int {
    match order {
        Endianness::Big => be_u32(b),
        Endianness::Little => le_u32(b),
    }
}

/// The signed 32-bit integer that the first four bytes of `b` hold in `order`.
pub open spec fn i32_of(order: Endianness, b: Seq<u8>) -> int {
    signed32(u32_of(order, b))
}

/// The signed 64-bit integer that the first eight bytes of `b` hold in `order`.
pub open spec fn i64_of(order: Endianness, b: Seq<u8>) -> int {
    match order {
        Endianness::Big => signed64(be_u64(b)),
        Endianness::Little => signed64(le_u64(b)),
    }
}

/// The signed reading of one byte.
pub open spec fn signed8(u: int) -> int {
    if u < 0x80 {
        u
    } else {
        u - 0x100
    }
}

/// Every decoded integer lies in the range of its type.
pub proof fn lemma_integer_ranges(order: Endianness, b: Seq<u8>)
    ensures
        0 <= u32_of(order, b) <= u32::MAX,
        i32::MIN <= i32_of(order, b) <= i32::MAX,
        i64::MIN <= i64_of(order, b) <= i64::MAX,
{
}

/// The two byte orders mirror each other: four bytes read in one order give
/// the integer that the same bytes, reversed, give in the other.
pub proof fn lemma_orders_mirror_32(b: Seq<u8>)
    requires
        b.len() == 4,
    ensures
        u32_of(Endianness::Big, b) == u32_of(Endianness::Little, b.reverse()),
        i32_of(Endianness::Big, b) == i32_of(Endianness::Little, b.reverse()),
{
    let r = b.reverse();
    assert(r[0] == b[3] && r[1] == b[2] && r[2] == b[1] && r[3] == b[0]);
}

/// The two byte orders mirror each other: eight bytes read in one order give
/// the integer that the same bytes, reversed, give in the other.
pub proof fn lemma_orders_mirror_64(b: Seq<u8>)
    requires
        b.len() == 8,
    ensures
        i64_of(Endianness::Big, b) == i64_of(Endianness::Little, b.reverse()),
{
    let r = b.reverse();
    assert(r[0] == b[7] && r[1] == b[6] && r[2] == b[5] && r[3] == b[4]);
    assert(r[4] == b[3] && r[5] == b[2] && r[6] == b[1] && r[7] == b[0]);
    assert(be_u32(b) == le_u32(r.skip(4)));
    assert(be_u32(b.skip(4)) == le_u32(r));
}

/// `byteorder::BigEndian::read_u32`: the first four bytes of the slice, read
/// most significant first. The call panics on a shorter slice.
#[verifier::external_body]
fn be_read_u32(buf: &[u8]) -> (v: u32)
    requires
        buf@.len() >= 4,
    ensures
        v == be_u32(buf@),
{
    BigEndian::read_u32(buf)
}

/// `byteorder::LittleEndian::read_u32`: the first four bytes of the slice,
/// read least significant first. The call panics on a shorter slice.
#[verifier::external_body]
fn le_read_u32(buf: &[u8]) -> (v: u32)
    requires
        buf@.len() >= 4,
    ensures
        v == le_u32(buf@),
{
    LittleEndian::read_u32(buf)
}

/// `byteorder::BigEndian::read_i32`: the first four bytes of the slice, read
/// most significant first as a two's-complement number. The call panics on a
/// shorter slice.
#[verifier::external_body]
fn be_read_i32(buf: &[u8]) -> (v: i32)
    requires
        buf@.len() >= 4,
    ensures
        v == signed32(be_u32(buf@)),
{
    BigEndian::read_i32(buf)
}

/// `byteorder::LittleEndian::read_i32`: the first four bytes of the slice,
/// read least significant first as a two's-complement number. The call
/// panics on a shorter slice.
#[verifier::external_body]
fn le_read_i32(buf: &[u8]) -> (v: i32)
    requires
        buf@.len() >= 4,
    ensures
        v == signed32(le_u32(buf@)),
{
    LittleEndian::read_i32(buf)
}

/// `byteorder::BigEndian::read_i64`: the first eight bytes of the slice, read
/// most significant first as a two's-complement number. The call panics on a
/// shorter slice.
#[verifier::external_body]
fn be_read_i64(buf: &[u8]) -> (v: i64)
    requires
        buf@.len() >= 8,
    ensures
        v == signed64(be_u64(buf@)),
{
    BigEndian::read_i64(buf)
}

/// `byteorder::LittleEndian::read_i64`: the first eight bytes of the slice,
/// read least significant first as a two's-complement number. The call
/// panics on a shorter slice.
#[verifier::external_body]
fn le_read_i64(buf: &[u8]) -> (v: i64)
    requires
        buf@.len() >= 8,
    ensures
        v == signed64(le_u64(buf@)),
{
    LittleEndian::read_i64(buf)
}

/// Decodes the unsigned 32-bit integer at the start of `buf`.
pub fn decode_u32(order: Endianness, buf: &[u8]) -> (v: u32)
    requires
        buf@.len() >= 4,
    ensures
        v == u32_of(order, buf@),
{
    match order {
        Endianness::Big => be_read_u32(buf),
        Endianness::Little => le_read_u32(buf),
    }
}

/// Decodes the signed 32-bit integer at the start of `buf`.
pub fn decode_i32(order: Endianness, buf: &[u8]) -> (v: i32)
    requires
        buf@.len() >= 4,
    ensures
        v == i32_of(order, buf@),
{
    match order {
        Endianness::Big => be_read_i32(buf),
        Endianness::Little => le_read_i32(buf),
    }
}

/// Decodes the signed 64-bit integer at the start of `buf`.
pub fn decode_i64(order: Endianness, buf: &[u8]) -> (v: i64)
    requires
        buf@.len() >= 8,
    ensures
        v == i64_of(order, buf@),
{
    match order {
        Endianness::Big => be_read_i64(buf),
        Endianness::Little => le_read_i64(buf),
    }
}

} // verus!
