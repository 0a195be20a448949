//! Fixed-width integers as byte sequences in either byte order.
use crate::message::Endianness;
use byteordered::Endian;
use vstd::prelude::*;

verus! {

/// The bytes of `v`, least significant first.
pub open spec fn u16_le(v: u16) -> Seq<u8> {
    seq![(v & 0xff) as u8, ((v >> 8u16) & 0xff) as u8]
}

pub open spec fn u32_le(v: u32) -> Seq<u8> {
    seq![
        (v & 0xff) as u8,
        ((v >> 8u32) & 0xff) as u8,
        ((v >> 16u32) & 0xff) as u8,
        ((v >> 24u32) & 0xff) as u8,
    ]
}

pub open spec fn u64_le(v: u64) -> Seq<u8> {
    seq![
        (v & 0xff) as u8,
        ((v >> 8u64) & 0xff) as u8,
        ((v >> 16u64) & 0xff) as u8,
        ((v >> 24u64) & 0xff) as u8,
        ((v >> 32u64) & 0xff) as u8,
        ((v >> 40u64) & 0xff) as u8,
        ((v >> 48u64) & 0xff) as u8,
        ((v >> 56u64) & 0xff) as u8,
    ]
}

/// The value of two bytes, least significant first.
pub open spec fn u16_of_le(b: Seq<u8>) -> u16 {
    (b[0] as u16) | ((b[1] as u16) << 8u16)
}

pub open spec fn u32_of_le(b: Seq<u8>) -> u32 {
    (b[0] as u32) | ((b[1] as u32) << 8u32) | ((b[2] as u32) << 16u32) | ((b[3] as u32) << 24u32)
}

pub open spec fn u64_of_le(b: Seq<u8>) -> u64 {
    (b[0] as u64) | ((b[1] as u64) << 8u64) | ((b[2] as u64) << 16u64) | ((b[3] as u64) << 24u64)
        | ((b[4] as u64) << 32u64) | ((b[5] as u64) << 40u64) | ((b[6] as u64) << 48u64) | ((
    b[7] as u64) << 56u64)
}

/// Puts little-endian bytes into the given byte order.
pub open spec fn ordered(le: Seq<u8>, e: Endianness) -> Seq<u8> {
    match e {
        Endianness::Little => le,
        Endianness::Big => le.reverse(),
    }
}

pub open spec fn u16_bytes(v: u16, e: Endianness) -> Seq<u8> {
    ordered(u16_le(v), e)
}

pub open spec fn u32_bytes(v: u32, e: Endianness) -> Seq<u8> {
    ordered(u32_le(v), e)
}

pub open spec fn u64_bytes(v: u64, e: Endianness) -> Seq<u8> {
    ordered(u64_le(v), e)
}

pub open spec fn u16_of(b: Seq<u8>, e: Endianness) -> u16 {
    u16_of_le(ordered(b, e))
}

pub open spec fn u32_of(b: Seq<u8>, e: Endianness) -> u32 {
    u32_of_le(ordered(b, e))
}

pub open spec fn u64_of(b: Seq<u8>, e: Endianness) -> u64 {
    u64_of_le(ordered(b, e))
}

proof fn lemma_ordered_twice(b: Seq<u8>, e: Endianness)
    ensures
        ordered(ordered(b, e), e) == b,
        ordered(b, e).len() == b.len(),
{
    if e == Endianness::Big {
        assert(b.reverse().reverse() =~= b);
    }
}

/// Reading back the bytes of a 16-bit value gives the value.
pub proof fn lemma_u16_roundtrip(v: u16, e: Endianness)
    ensures
        u16_bytes(v, e).len() == 2,
        u16_of(u16_bytes(v, e), e) == v,
{
    lemma_ordered_twice(u16_le(v), e);
    let b0 = (v & 0xff) as u8;
    let b1 = ((v >> 8u16) & 0xff) as u8;
    assert((b0 as u16) | ((b1 as u16) << 8u16) == v) by (bit_vector)
        requires
            b0 == (v & 0xff) as u8,
            b1 == ((v >> 8u16) & 0xff) as u8,
    ;
}

/// Reading back the bytes of a 32-bit value gives the value.
pub proof fn lemma_u32_roundtrip(v: u32, e: Endianness)
    ensures
        u32_bytes(v, e).len() == 4,
        u32_of(u32_bytes(v, e), e) == v,
{
    lemma_ordered_twice(u32_le(v), e);
    let b0 = (v & 0xff) as u8;
    let b1 = ((v >> 8u32) & 0xff) as u8;
    let b2 = ((v >> 16u32) & 0xff) as u8;
    let b3 = ((v >> 24u32) & 0xff) as u8;
    assert((b0 as u32) | ((b1 as u32) << 8u32) | ((b2 as u32) << 16u32) | ((b3 as u32) << 24u32)
        == v) by (bit_vector)
        requires
            b0 == (v & 0xff) as u8,
            b1 == ((v >> 8u32) & 0xff) as u8,
            b2 == ((v >> 16u32) & 0xff) as u8,
            b3 == ((v >> 24u32) & 0xff) as u8,
    ;
}

/// Reading back the bytes of a 64-bit value gives the value.
pub proof fn lemma_u64_roundtrip(v: u64, e: Endianness)
    ensures
        u64_bytes(v, e).len() == 8,
        u64_of(u64_bytes(v, e), e) == v,
{
    lemma_ordered_twice(u64_le(v), e);
    let b0 = (v & 0xff) as u8;
    let b1 = ((v >> 8u64) & 0xff) as u8;
    let b2 = ((v >> 16u64) & 0xff) as u8;
    let b3 = ((v >> 24u64) & 0xff) as u8;
    let b4 = ((v >> 32u64) & 0xff) as u8;
    let b5 = ((v >> 40u64) & 0xff) as u8;
    let b6 = ((v >> 48u64) & 0xff) as u8;
    let b7 = ((v >> 56u64) & 0xff) as u8;
    assert((b0 as u64) | ((b1 as u64) << 8u64) | ((b2 as u64) << 16u64) | ((b3 as u64) << 24u64)
        | ((b4 as u64) << 32u64) | ((b5 as u64) << 40u64) | ((b6 as u64) << 48u64) | ((b7 as u64)
        << 56u64) == v) by (bit_vector)
        requires
            b0 == (v & 0xff) as u8,
            b1 == ((v >> 8u64) & 0xff) as u8,
            b2 == ((v >> 16u64) & 0xff) as u8,
            b3 == ((v >> 24u64) & 0xff) as u8,
            b4 == ((v >> 32u64) & 0xff) as u8,
            b5 == ((v >> 40u64) & 0xff) as u8,
            b6 == ((v >> 48u64) & 0xff) as u8,
            b7 == ((v >> 56u64) & 0xff) as u8,
    ;
}

/// The machine's own byte order, as `byteordered::Endianness::native` reports
/// it. Nothing is stated of which of the two it is: that depends on the
/// machine.
#[verifier::external_body]
pub(crate) fn native_endianness() -> (e: Endianness) {
    match byteordered::Endianness::native() {
        byteordered::Endianness::Big => Endianness::Big,
        byteordered::Endianness::Little => Endianness::Little,
    }
}

/// Writes `v` through `byteordered::Endian::write_u16` into a fresh `Vec`,
/// which never fails; the contract states that the bytes are those of `v` in
/// the byte order `e`.
#[verifier::external_body]
pub(crate) fn write_u16_bytes(v: u16, e: Endianness) -> (b: Vec<u8>)
    ensures
        b@ == u16_bytes(v, e),
{
    let order = match e {
        Endianness::Big => byteordered::Endianness::Big,
        Endianness::Little => byteordered::Endianness::Little,
    };
    let mut out: Vec<u8> = Vec::new();
    match order.write_u16(&mut out, v) {
        Ok(()) => {},
        Err(_) => {},
    }
    out
}

/// Reads a value through `byteordered::Endian::read_u16` from exactly as
/// many bytes as it needs; the contract states that the value is the one those
/// bytes stand for in the byte order `e`.
#[verifier::external_body]
pub(crate) fn read_u16_bytes(b: &[u8], e: Endianness) -> (v: u16)
    requires
        b@.len() == 2,
    ensures
        v == u16_of(b@, e),
{
    let order = match e {
        Endianness::Big => byteordered::Endianness::Big,
        Endianness::Little => byteordered::Endianness::Little,
    };
    match order.read_u16(b) {
        Ok(v) => v,
        Err(_) => 0,
    }
}

/// Writes `v` through `byteordered::Endian::write_i16` into a fresh `Vec`,
/// which never fails; the contract states that the bytes are those of `v` in
/// the byte order `e`.
#[verifier::external_body]
pub(crate) fn write_i16_bytes(v: i16, e: Endianness) -> (b: Vec<u8>)
    ensures
        b@ == u16_bytes(v as u16, e),
{
    let order = match e {
        Endianness::Big => byteordered::Endianness::Big,
        Endianness::Little => byteordered::Endianness::Little,
    };
    let mut out: Vec<u8> = Vec::new();
    match order.write_i16(&mut out, v) {
        Ok(()) => {},
        Err(_) => {},
    }
    out
}

/// Reads a value through `byteordered::Endian::read_i16` from exactly as
/// many bytes as it needs; the contract states that the value is the one those
/// bytes stand for in the byte order `e`.
#[verifier::external_body]
pub(crate) fn read_i16_bytes(b: &[u8], e: Endianness) -> (v: i16)
    requires
        b@.len() == 2,
    ensures
        v as u16 == u16_of(b@, e),
{
    let order = match e {
        Endianness::Big => byteordered::Endianness::Big,
        Endianness::Little => byteordered::Endianness::Little,
    };
    match order.read_i16(b) {
        Ok(v) => v,
        Err(_) => 0,
    }
}

/// Writes `v` through `byteordered::Endian::write_u32` into a fresh `Vec`,
/// which never fails; the contract states that the bytes are those of `v` in
/// the byte order `e`.
#[verifier::external_body]
pub(crate) fn write_u32_bytes(v: u32, e: Endianness) -> (b: Vec<u8>)
    ensures
        b@ == u32_bytes(v, e),
{
    let order = match e {
        Endianness::Big => byteordered::Endianness::Big,
        Endianness::Little => byteordered::Endianness::Little,
    };
    let mut out: Vec<u8> = Vec::new();
    match order.write_u32(&mut out, v) {
        Ok(()) => {},
        Err(_) => {},
    }
    out
}

/// Reads a value through `byteordered::Endian::read_u32` from exactly as
/// many bytes as it needs; the contract states that the value is the one those
/// bytes stand for in the byte order `e`.
#[verifier::external_body]
pub(crate) fn read_u32_bytes(b: &[u8], e: Endianness) -> (v: u32)
    requires
        b@.len() == 4,
    ensures
        v == u32_of(b@, e),
{
    let order = match e {
        Endianness::Big => byteordered::Endianness::Big,
        Endianness::Little => byteordered::Endianness::Little,
    };
    match order.read_u32(b) {
        Ok(v) => v,
        Err(_) => 0,
    }
}

/// Writes `v` through `byteordered::Endian::write_i32` into a fresh `Vec`,
/// which never fails; the contract states that the bytes are those of `v` in
/// the byte order `e`.
#[verifier::external_body]
pub(crate) fn write_i32_bytes(v: i32, e: Endianness) -> (b: Vec<u8>)
    ensures
        b@ == u32_bytes(v as u32, e),
{
    let order = match e {
        Endianness::Big => byteordered::Endianness::Big,
        Endianness::Little => byteordered::Endianness::Little,
    };
    let mut out: Vec<u8> = Vec::new();
    match order.write_i32(&mut out, v) {
        Ok(()) => {},
        Err(_) => {},
    }
    out
}

/// Reads a value through `byteordered::Endian::read_i32` from exactly as
/// many bytes as it needs; the contract states that the value is the one those
/// bytes stand for in the byte order `e`.
#[verifier::external_body]
pub(crate) fn read_i32_bytes(b: &[u8], e: Endianness) -> (v: i32)
    requires
        b@.len() == 4,
    ensures
        v as u32 == u32_of(b@, e),
{
    let order = match e {
        Endianness::Big => byteordered::Endianness::Big,
        Endianness::Little => byteordered::Endianness::Little,
    };
    match order.read_i32(b) {
        Ok(v) => v,
        Err(_) => 0,
    }
}

/// Writes `v` through `byteordered::Endian::write_u64` into a fresh `Vec`,
/// which never fails; the contract states that the bytes are those of `v` in
/// the byte order `e`.
#[verifier::external_body]
pub(crate) fn write_u64_bytes(v: u64, e: Endianness) -> (b: Vec<u8>)
    ensures
        b@ == u64_bytes(v, e),
{
    let order = match e {
        Endianness::Big => byteordered::Endianness::Big,
        Endianness::Little => byteordered::Endianness::Little,
    };
    let mut out: Vec<u8> = Vec::new();
    match order.write_u64(&mut out, v) {
        Ok(()) => {},
        Err(_) => {},
    }
    out
}

/// Reads a value through `byteordered::Endian::read_u64` from exactly as
/// many bytes as it needs; the contract states that the value is the one those
/// bytes stand for in the byte order `e`.
#[verifier::external_body]
pub(crate) fn read_u64_bytes(b: &[u8], e: Endianness) -> (v: u64)
    requires
        b@.len() == 8,
    ensures
        v == u64_of(b@, e),
{
    let order = match e {
        Endianness::Big => byteordered::Endianness::Big,
        Endianness::Little => byteordered::Endianness::Little,
    };
    match order.read_u64(b) {
        Ok(v) => v,
        Err(_) => 0,
    }
}

/// Writes `v` through `byteordered::Endian::write_i64` into a fresh `Vec`,
/// which never fails; the contract states that the bytes are those of `v` in
/// the byte order `e`.
#[verifier::external_body]
pub(crate) fn write_i64_bytes(v: i64, e: Endianness) -> (b: Vec<u8>)
    ensures
        b@ == u64_bytes(v as u64, e),
{
    let order = match e {
        Endianness::Big => byteordered::Endianness::Big,
        Endianness::Little => byteordered::Endianness::Little,
    };
    let mut out: Vec<u8> = Vec::new();
    match order.write_i64(&mut out, v) {
        Ok(()) => {},
        Err(_) => {},
    }
    out
}

/// Reads a value through `byteordered::Endian::read_i64` from exactly as
/// many bytes as it needs; the contract states that the value is the one those
/// bytes stand for in the byte order `e`.
#[verifier::external_body]
pub(crate) fn read_i64_bytes(b: &[u8], e: Endianness) -> (v: i64)
    requires
        b@.len() == 8,
    ensures
        v as u64 == u64_of(b@, e),
{
    let order = match e {
        Endianness::Big => byteordered::Endianness::Big,
        Endianness::Little => byteordered::Endianness::Little,
    };
    match order.read_i64(b) {
        Ok(v) => v,
        Err(_) => 0,
    }
}

} // verus!
