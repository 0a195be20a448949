use crate::error::Error;
use crate::marshal::endian::{
    lemma_u16_roundtrip, lemma_u32_roundtrip, lemma_u64_roundtrip, u16_bytes, u16_of, u32_bytes,
    u32_of, u64_bytes, u64_of,
};
use crate::marshal::Marshaller;
use crate::message::Endianness;
use crate::types::{DBusBasicType, DBusType, Failure};
use vstd::prelude::*;

verus! {

/// A Unix file descriptor, passed as its index among the descriptors sent
/// with a message.
#[derive(Debug, Clone, Copy, PartialEq, Eq, Structural)]
pub struct UnixFd(pub u32);

impl DeepView for UnixFd {
    type V = UnixFd;

    open spec fn deep_view(&self) -> UnixFd {
        *self
    }
}

/// A one-character signature as a `String`.
fn code_signature(code: &str) -> (s: String)
    ensures
        s@ == code@,
{
    code.to_owned()
}


impl DBusType for u16 {
    open spec fn spec_code() -> u8 {
        113u8
    }

    open spec fn spec_signature() -> Seq<char> {
        seq!['q']
    }

    open spec fn spec_alignment() -> u8 {
        2u8
    }

    open spec fn spec_well_formed(v: u16) -> bool {
        true
    }

    open spec fn spec_encode(v: u16, e: Endianness, pos: nat) -> Seq<u8> {
        u16_bytes(v, e)
    }

    open spec fn spec_endianness_after(v: u16, e: Endianness) -> Endianness {
        e
    }

    open spec fn spec_decode(input: Seq<u8>, e: Endianness, pos: nat) -> Result<(u16, nat), Failure> {
        if input.len() >= 2 {
            Ok((u16_of(input.take(2), e), 2))
        } else {
            Err(Failure::Eof)
        }
    }

    fn code() -> (c: u8) {
        113
    }

    fn signature() -> (s: String) {
        proof {
            reveal_strlit("q");
        }
        code_signature("q")
    }

    fn alignment() -> (a: u8) {
        2
    }

    fn encode(&self, marshaller: &mut Marshaller) -> (r: Result<(), Error>) {
        proof {
            let v = self.deep_view();
            let e = marshaller.spec_endianness();
            lemma_u16_roundtrip(v, e);
        }
        marshaller.write_u16(*self);
        Ok(())
    }

    fn decode(marshaller: &mut Marshaller) -> (r: Result<Self, Error>) {
        Ok(marshaller.read_u16()?)
    }

    proof fn lemma_decode_within(input: Seq<u8>, e: Endianness, pos: nat) {
    }

    proof fn lemma_roundtrip(v: u16, e: Endianness, pos: nat, rest: Seq<u8>) {
        lemma_u16_roundtrip(v, e);
        let b = Self::spec_encode(v, e, pos);
        assert((b + rest).take(2) =~= b);
    }
}

impl DBusBasicType for u16 {

}

impl DBusType for i16 {
    open spec fn spec_code() -> u8 {
        110u8
    }

    open spec fn spec_signature() -> Seq<char> {
        seq!['n']
    }

    open spec fn spec_alignment() -> u8 {
        2u8
    }

    open spec fn spec_well_formed(v: i16) -> bool {
        true
    }

    open spec fn spec_encode(v: i16, e: Endianness, pos: nat) -> Seq<u8> {
        u16_bytes(v as u16, e)
    }

    open spec fn spec_endianness_after(v: i16, e: Endianness) -> Endianness {
        e
    }

    open spec fn spec_decode(input: Seq<u8>, e: Endianness, pos: nat) -> Result<(i16, nat), Failure> {
        if input.len() >= 2 {
            Ok((u16_of(input.take(2), e) as i16, 2))
        } else {
            Err(Failure::Eof)
        }
    }

    fn code() -> (c: u8) {
        110
    }

    fn signature() -> (s: String) {
        proof {
            reveal_strlit("n");
        }
        code_signature("n")
    }

    fn alignment() -> (a: u8) {
        2
    }

    fn encode(&self, marshaller: &mut Marshaller) -> (r: Result<(), Error>) {
        proof {
            let v = self.deep_view();
            let e = marshaller.spec_endianness();
            lemma_u16_roundtrip(v as u16, e); assert((v as u16) as i16 == v) by (bit_vector);
        }
        marshaller.write_i16(*self);
        Ok(())
    }

    fn decode(marshaller: &mut Marshaller) -> (r: Result<Self, Error>) {
        let v = marshaller.read_i16()?;
        proof {
            assert((v as u16) as i16 == v) by (bit_vector);
        }
        Ok(v)
    }

    proof fn lemma_decode_within(input: Seq<u8>, e: Endianness, pos: nat) {
    }

    proof fn lemma_roundtrip(v: i16, e: Endianness, pos: nat, rest: Seq<u8>) {
        lemma_u16_roundtrip(v as u16, e); assert((v as u16) as i16 == v) by (bit_vector);
        let b = Self::spec_encode(v, e, pos);
        assert((b + rest).take(2) =~= b);
    }
}

impl DBusBasicType for i16 {

}

impl DBusType for u32 {
    open spec fn spec_code() -> u8 {
        117u8
    }

    open spec fn spec_signature() -> Seq<char> {
        seq!['u']
    }

    open spec fn spec_alignment() -> u8 {
        4u8
    }

    open spec fn spec_well_formed(v: u32) -> bool {
        true
    }

    open spec fn spec_encode(v: u32, e: Endianness, pos: nat) -> Seq<u8> {
        u32_bytes(v, e)
    }

    open spec fn spec_endianness_after(v: u32, e: Endianness) -> Endianness {
        e
    }

    open spec fn spec_decode(input: Seq<u8>, e: Endianness, pos: nat) -> Result<(u32, nat), Failure> {
        if input.len() >= 4 {
            Ok((u32_of(input.take(4), e), 4))
        } else {
            Err(Failure::Eof)
        }
    }

    fn code() -> (c: u8) {
        117
    }

    fn signature() -> (s: String) {
        proof {
            reveal_strlit("u");
        }
        code_signature("u")
    }

    fn alignment() -> (a: u8) {
        4
    }

    fn encode(&self, marshaller: &mut Marshaller) -> (r: Result<(), Error>) {
        proof {
            let v = self.deep_view();
            let e = marshaller.spec_endianness();
            lemma_u32_roundtrip(v, e);
        }
        marshaller.write_u32(*self);
        Ok(())
    }

    fn decode(marshaller: &mut Marshaller) -> (r: Result<Self, Error>) {
        Ok(marshaller.read_u32()?)
    }

    proof fn lemma_decode_within(input: Seq<u8>, e: Endianness, pos: nat) {
    }

    proof fn lemma_roundtrip(v: u32, e: Endianness, pos: nat, rest: Seq<u8>) {
        lemma_u32_roundtrip(v, e);
        let b = Self::spec_encode(v, e, pos);
        assert((b + rest).take(4) =~= b);
    }
}

impl DBusBasicType for u32 {

}

impl DBusType for i32 {
    open spec fn spec_code() -> u8 {
        105u8
    }

    open spec fn spec_signature() -> Seq<char> {
        seq!['i']
    }

    open spec fn spec_alignment() -> u8 {
        4u8
    }

    open spec fn spec_well_formed(v: i32) -> bool {
        true
    }

    open spec fn spec_encode(v: i32, e: Endianness, pos: nat) -> Seq<u8> {
        u32_bytes(v as u32, e)
    }

    open spec fn spec_endianness_after(v: i32, e: Endianness) -> Endianness {
        e
    }

    open spec fn spec_decode(input: Seq<u8>, e: Endianness, pos: nat) -> Result<(i32, nat), Failure> {
        if input.len() >= 4 {
            Ok((u32_of(input.take(4), e) as i32, 4))
        } else {
            Err(Failure::Eof)
        }
    }

    fn code() -> (c: u8) {
        105
    }

    fn signature() -> (s: String) {
        proof {
            reveal_strlit("i");
        }
        code_signature("i")
    }

    fn alignment() -> (a: u8) {
        4
    }

    fn encode(&self, marshaller: &mut Marshaller) -> (r: Result<(), Error>) {
        proof {
            let v = self.deep_view();
            let e = marshaller.spec_endianness();
            lemma_u32_roundtrip(v as u32, e); assert((v as u32) as i32 == v) by (bit_vector);
        }
        marshaller.write_i32(*self);
        Ok(())
    }

    fn decode(marshaller: &mut Marshaller) -> (r: Result<Self, Error>) {
        let v = marshaller.read_i32()?;
        proof {
            assert((v as u32) as i32 == v) by (bit_vector);
        }
        Ok(v)
    }

    proof fn lemma_decode_within(input: Seq<u8>, e: Endianness, pos: nat) {
    }

    proof fn lemma_roundtrip(v: i32, e: Endianness, pos: nat, rest: Seq<u8>) {
        lemma_u32_roundtrip(v as u32, e); assert((v as u32) as i32 == v) by (bit_vector);
        let b = Self::spec_encode(v, e, pos);
        assert((b + rest).take(4) =~= b);
    }
}

impl DBusBasicType for i32 {

}

impl DBusType for u64 {
    open spec fn spec_code() -> u8 {
        116u8
    }

    open spec fn spec_signature() -> Seq<char> {
        seq!['t']
    }

    open spec fn spec_alignment() -> u8 {
        8u8
    }

    open spec fn spec_well_formed(v: u64) -> bool {
        true
    }

    open spec fn spec_encode(v: u64, e: Endianness, pos: nat) -> Seq<u8> {
        u64_bytes(v, e)
    }

    open spec fn spec_endianness_after(v: u64, e: Endianness) -> Endianness {
        e
    }

    open spec fn spec_decode(input: Seq<u8>, e: Endianness, pos: nat) -> Result<(u64, nat), Failure> {
        if input.len() >= 8 {
            Ok((u64_of(input.take(8), e), 8))
        } else {
            Err(Failure::Eof)
        }
    }

    fn code() -> (c: u8) {
        116
    }

    fn signature() -> (s: String) {
        proof {
            reveal_strlit("t");
        }
        code_signature("t")
    }

    fn alignment() -> (a: u8) {
        8
    }

    fn encode(&self, marshaller: &mut Marshaller) -> (r: Result<(), Error>) {
        proof {
            let v = self.deep_view();
            let e = marshaller.spec_endianness();
            lemma_u64_roundtrip(v, e);
        }
        marshaller.write_u64(*self);
        Ok(())
    }

    fn decode(marshaller: &mut Marshaller) -> (r: Result<Self, Error>) {
        Ok(marshaller.read_u64()?)
    }

    proof fn lemma_decode_within(input: Seq<u8>, e: Endianness, pos: nat) {
    }

    proof fn lemma_roundtrip(v: u64, e: Endianness, pos: nat, rest: Seq<u8>) {
        lemma_u64_roundtrip(v, e);
        let b = Self::spec_encode(v, e, pos);
        assert((b + rest).take(8) =~= b);
    }
}

impl DBusBasicType for u64 {

}

impl DBusType for i64 {
    open spec fn spec_code() -> u8 {
        120u8
    }

    open spec fn spec_signature() -> Seq<char> {
        seq!['x']
    }

    open spec fn spec_alignment() -> u8 {
        8u8
    }

    open spec fn spec_well_formed(v: i64) -> bool {
        true
    }

    open spec fn spec_encode(v: i64, e: Endianness, pos: nat) -> Seq<u8> {
        u64_bytes(v as u64, e)
    }

    open spec fn spec_endianness_after(v: i64, e: Endianness) -> Endianness {
        e
    }

    open spec fn spec_decode(input: Seq<u8>, e: Endianness, pos: nat) -> Result<(i64, nat), Failure> {
        if input.len() >= 8 {
            Ok((u64_of(input.take(8), e) as i64, 8))
        } else {
            Err(Failure::Eof)
        }
    }

    fn code() -> (c: u8) {
        120
    }

    fn signature() -> (s: String) {
        proof {
            reveal_strlit("x");
        }
        code_signature("x")
    }

    fn alignment() -> (a: u8) {
        8
    }

    fn encode(&self, marshaller: &mut Marshaller) -> (r: Result<(), Error>) {
        proof {
            let v = self.deep_view();
            let e = marshaller.spec_endianness();
            lemma_u64_roundtrip(v as u64, e); assert((v as u64) as i64 == v) by (bit_vector);
        }
        marshaller.write_i64(*self);
        Ok(())
    }

    fn decode(marshaller: &mut Marshaller) -> (r: Result<Self, Error>) {
        let v = marshaller.read_i64()?;
        proof {
            assert((v as u64) as i64 == v) by (bit_vector);
        }
        Ok(v)
    }

    proof fn lemma_decode_within(input: Seq<u8>, e: Endianness, pos: nat) {
    }

    proof fn lemma_roundtrip(v: i64, e: Endianness, pos: nat, rest: Seq<u8>) {
        lemma_u64_roundtrip(v as u64, e); assert((v as u64) as i64 == v) by (bit_vector);
        let b = Self::spec_encode(v, e, pos);
        assert((b + rest).take(8) =~= b);
    }
}

impl DBusBasicType for i64 {

}

impl DBusType for u8 {
    open spec fn spec_code() -> u8 {
        121u8
    }

    open spec fn spec_signature() -> Seq<char> {
        seq!['y']
    }

    open spec fn spec_alignment() -> u8 {
        1u8
    }

    open spec fn spec_well_formed(v: u8) -> bool {
        true
    }

    open spec fn spec_encode(v: u8, e: Endianness, pos: nat) -> Seq<u8> {
        seq![v]
    }

    open spec fn spec_endianness_after(v: u8, e: Endianness) -> Endianness {
        e
    }

    open spec fn spec_decode(input: Seq<u8>, e: Endianness, pos: nat) -> Result<(u8, nat), Failure> {
        if input.len() >= 1 {
            Ok((input[0], 1))
        } else {
            Err(Failure::Eof)
        }
    }

    fn code() -> (c: u8) {
        121
    }

    fn signature() -> (s: String) {
        proof {
            reveal_strlit("y");
        }
        code_signature("y")
    }

    fn alignment() -> (a: u8) {
        1
    }

    fn encode(&self, marshaller: &mut Marshaller) -> (r: Result<(), Error>) {
        proof {
            let v = self.deep_view();
            let e = marshaller.spec_endianness();
            assert(true);
        }
        marshaller.write_u8(*self);
        Ok(())
    }

    fn decode(marshaller: &mut Marshaller) -> (r: Result<Self, Error>) {
        Ok(marshaller.read_u8()?)
    }

    proof fn lemma_decode_within(input: Seq<u8>, e: Endianness, pos: nat) {
    }

    proof fn lemma_roundtrip(v: u8, e: Endianness, pos: nat, rest: Seq<u8>) {
        assert(true);
        let b = Self::spec_encode(v, e, pos);
        assert((b + rest).take(1) =~= b);
    }
}

impl DBusBasicType for u8 {

}

impl DBusType for bool {
    open spec fn spec_code() -> u8 {
        98u8
    }

    open spec fn spec_signature() -> Seq<char> {
        seq!['b']
    }

    open spec fn spec_alignment() -> u8 {
        4u8
    }

    open spec fn spec_well_formed(v: bool) -> bool {
        true
    }

    open spec fn spec_encode(v: bool, e: Endianness, pos: nat) -> Seq<u8> {
        u32_bytes(if v { 1u32 } else { 0u32 }, e)
    }

    open spec fn spec_endianness_after(v: bool, e: Endianness) -> Endianness {
        e
    }

    open spec fn spec_decode(input: Seq<u8>, e: Endianness, pos: nat) -> Result<(bool, nat), Failure> {
        if input.len() >= 4 {
            Ok((u32_of(input.take(4), e) != 0, 4))
        } else {
            Err(Failure::Eof)
        }
    }

    fn code() -> (c: u8) {
        98
    }

    fn signature() -> (s: String) {
        proof {
            reveal_strlit("b");
        }
        code_signature("b")
    }

    fn alignment() -> (a: u8) {
        4
    }

    fn encode(&self, marshaller: &mut Marshaller) -> (r: Result<(), Error>) {
        proof {
            let v = self.deep_view();
            let e = marshaller.spec_endianness();
            lemma_u32_roundtrip(if v { 1u32 } else { 0u32 }, e);
        }
        marshaller.write_u32(if *self { 1u32 } else { 0u32 });
        Ok(())
    }

    fn decode(marshaller: &mut Marshaller) -> (r: Result<Self, Error>) {
        let value = marshaller.read_u32()?;
        Ok(value != 0)
    }

    proof fn lemma_decode_within(input: Seq<u8>, e: Endianness, pos: nat) {
    }

    proof fn lemma_roundtrip(v: bool, e: Endianness, pos: nat, rest: Seq<u8>) {
        lemma_u32_roundtrip(if v { 1u32 } else { 0u32 }, e);
        let b = Self::spec_encode(v, e, pos);
        assert((b + rest).take(4) =~= b);
    }
}

impl DBusBasicType for bool {

}

impl DBusType for UnixFd {
    open spec fn spec_code() -> u8 {
        104u8
    }

    open spec fn spec_signature() -> Seq<char> {
        seq!['h']
    }

    open spec fn spec_alignment() -> u8 {
        4u8
    }

    open spec fn spec_well_formed(v: UnixFd) -> bool {
        true
    }

    open spec fn spec_encode(v: UnixFd, e: Endianness, pos: nat) -> Seq<u8> {
        u32_bytes(v.0, e)
    }

    open spec fn spec_endianness_after(v: UnixFd, e: Endianness) -> Endianness {
        e
    }

    open spec fn spec_decode(input: Seq<u8>, e: Endianness, pos: nat) -> Result<(UnixFd, nat), Failure> {
        if input.len() >= 4 {
            Ok((UnixFd(u32_of(input.take(4), e)), 4))
        } else {
            Err(Failure::Eof)
        }
    }

    fn code() -> (c: u8) {
        104
    }

    fn signature() -> (s: String) {
        proof {
            reveal_strlit("h");
        }
        code_signature("h")
    }

    fn alignment() -> (a: u8) {
        4
    }

    fn encode(&self, marshaller: &mut Marshaller) -> (r: Result<(), Error>) {
        proof {
            let v = self.deep_view();
            let e = marshaller.spec_endianness();
            lemma_u32_roundtrip(v.0, e);
        }
        marshaller.write_u32(self.0);
        Ok(())
    }

    fn decode(marshaller: &mut Marshaller) -> (r: Result<Self, Error>) {
        let value = marshaller.read_u32()?;
        Ok(UnixFd(value))
    }

    proof fn lemma_decode_within(input: Seq<u8>, e: Endianness, pos: nat) {
    }

    proof fn lemma_roundtrip(v: UnixFd, e: Endianness, pos: nat, rest: Seq<u8>) {
        lemma_u32_roundtrip(v.0, e);
        let b = Self::spec_encode(v, e, pos);
        assert((b + rest).take(4) =~= b);
    }
}

impl DBusBasicType for UnixFd {

}

} // verus!
