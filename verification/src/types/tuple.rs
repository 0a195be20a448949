use crate::error::Error;
use crate::marshal::Marshaller;
use crate::message::Endianness;
use crate::types::string::push_str;
use crate::types::{DBusType, Failure};
use vstd::prelude::*;

verus! {

/// Tuples written as their elements one after another, with no padding
/// between them.
pub trait DBusPackedTypes {
    spec fn spec_packed_signature() -> Seq<char>;

    fn signature() -> (s: String)
        ensures
            s@ == Self::spec_packed_signature(),
    ;
}

impl DBusType for () {
    open spec fn spec_code() -> u8 {
        0u8
    }

    open spec fn spec_signature() -> Seq<char> {
        Seq::<char>::empty()
    }

    open spec fn spec_alignment() -> u8 {
        1u8
    }

    open spec fn spec_well_formed(v: ()) -> bool {
        true
    }

    open spec fn spec_encode(v: (), e: Endianness, pos: nat) -> Seq<u8> {
        let e0 = e;
        let p0 = pos;
        Seq::<u8>::empty()
    }

    open spec fn spec_endianness_after(v: (), e: Endianness) -> Endianness {
        e
    }

    open spec fn spec_decode(input: Seq<u8>, e: Endianness, pos: nat) -> Result<((), nat), Failure> {
        Ok(((), (0) as nat))
    }

    fn code() -> (c: u8) {
        0
    }

    fn signature() -> (s: String) {
        let mut s = String::new();
        assert(s@ =~= Seq::<char>::empty());
        s
    }

    fn alignment() -> (a: u8) {
        1
    }

    fn encode(&self, marshaller: &mut Marshaller) -> (r: Result<(), Error>) {
        let ghost m0 = *marshaller;
        let ghost v = self.deep_view();
        let ghost e = m0.spec_endianness();
        let ghost pos = m0.spec_write_pos();
        assert(marshaller.spec_bytes() =~= m0.spec_bytes() + Self::spec_encode(v, e, pos));
        Ok(())
    }

    fn decode(marshaller: &mut Marshaller) -> (r: Result<Self, Error>) {
        let ghost m0 = *marshaller;
        let ghost input = m0.spec_bytes();
        let ghost e = m0.spec_endianness();
        let ghost pos = m0.spec_read_pos();
        let ghost mk = *marshaller;
        proof {
            assert(mk.spec_bytes() =~= input.skip((mk.spec_read_pos() - pos) as int));
        }
        Ok(())
    }

    proof fn lemma_decode_within(input: Seq<u8>, e: Endianness, pos: nat) {
    }

    proof fn lemma_roundtrip(v: (), e: Endianness, pos: nat, rest: Seq<u8>) {
        let e0 = e;
        let p0 = pos;
        let all = Self::spec_encode(v, e, pos) + rest;
    }
}

impl<A0: DBusType> DBusType for (A0,) {
    open spec fn spec_code() -> u8 {
        0u8
    }

    open spec fn spec_signature() -> Seq<char> {
        A0::spec_signature()
    }

    open spec fn spec_alignment() -> u8 {
        1u8
    }

    open spec fn spec_well_formed(v: (A0::V,)) -> bool {
        A0::spec_well_formed(v.0)
    }

    open spec fn spec_encode(v: (A0::V,), e: Endianness, pos: nat) -> Seq<u8> {
        let e0 = e;
        let p0 = pos;
        let b0 = A0::spec_encode(v.0, e0, p0);
        let e1 = A0::spec_endianness_after(v.0, e0);
        let p1 = p0 + b0.len();
        b0
    }

    open spec fn spec_endianness_after(v: (A0::V,), e: Endianness) -> Endianness {
        A0::spec_endianness_after(v.0, e)
    }

    open spec fn spec_decode(input: Seq<u8>, e: Endianness, pos: nat) -> Result<((A0::V,), nat), Failure> {
        let e0 = e;
        let c0 = (0) as nat;
        match A0::spec_decode(input.skip(c0 as int), e0, pos + c0) {
            Err(f) => Err(f),
            Ok((x0, n0)) => {
                Ok(((x0, ), (n0) as nat))
            },
        }
    }

    fn code() -> (c: u8) {
        0
    }

    fn signature() -> (s: String) {
        let mut s = String::new();
        let part = A0::signature();
        push_str(&mut s, part.as_str());
        assert(s@ =~= A0::spec_signature());
        s
    }

    fn alignment() -> (a: u8) {
        1
    }

    fn encode(&self, marshaller: &mut Marshaller) -> (r: Result<(), Error>) {
        let ghost m0 = *marshaller;
        let ghost v = self.deep_view();
        let ghost e = m0.spec_endianness();
        let ghost pos = m0.spec_write_pos();
        assert(self.0.deep_view() == v.0);
        self.0.encode(marshaller);
        assert(marshaller.spec_bytes() =~= m0.spec_bytes() + Self::spec_encode(v, e, pos));
        Ok(())
    }

    fn decode(marshaller: &mut Marshaller) -> (r: Result<Self, Error>) {
        let ghost m0 = *marshaller;
        let ghost input = m0.spec_bytes();
        let ghost e = m0.spec_endianness();
        let ghost pos = m0.spec_read_pos();
        let ghost s0 = *marshaller;
        proof {
            assert(s0.spec_bytes() =~= input.skip((s0.spec_read_pos() - pos) as int));
        }
        let x0 = A0::decode(marshaller)?;
        let ghost mk = *marshaller;
        proof {
            assert(mk.spec_bytes() =~= input.skip((mk.spec_read_pos() - pos) as int));
        }
        Ok((x0,))
    }

    proof fn lemma_decode_within(input: Seq<u8>, e: Endianness, pos: nat) {
        let e0 = e;
        let c0 = (0) as nat;
        A0::lemma_decode_within(input.skip(c0 as int), e0, pos + c0);
        if let Ok((x0, n0)) = A0::spec_decode(input.skip(c0 as int), e0, pos + c0) {
            if c0 + n0 <= input.len() {
            }
        }
    }

    proof fn lemma_roundtrip(v: (A0::V,), e: Endianness, pos: nat, rest: Seq<u8>) {
        let e0 = e;
        let p0 = pos;
        let b0 = A0::spec_encode(v.0, e0, p0);
        let e1 = A0::spec_endianness_after(v.0, e0);
        let p1 = p0 + b0.len();
        let t0 = rest;
        let all = Self::spec_encode(v, e, pos) + rest;
        assert(all.skip(0) =~= b0 + t0);
        A0::lemma_roundtrip(v.0, e0, p0, t0);
    }
}

/// The signature of a tuple of 1 is its elements' signatures joined in
/// order, with no parentheses, whether it is read as a value or as packed
/// types.
pub proof fn lemma_tuple_signature<A0: DBusType>()
    ensures
        <(A0,) as DBusType>::spec_signature() =~= A0::spec_signature(),
        <(A0,) as DBusPackedTypes>::spec_packed_signature() =~= A0::spec_signature(),
{
}

impl<A0: DBusType> DBusPackedTypes for (A0,) {
    open spec fn spec_packed_signature() -> Seq<char> {
        A0::spec_signature()
    }

    fn signature() -> (s: String) {
        let mut s = String::new();
        let part = A0::signature();
        push_str(&mut s, part.as_str());
        assert(s@ =~= A0::spec_signature());
        s
    }
}

impl<A0: DBusType, A1: DBusType> DBusType for (A0, A1,) {
    open spec fn spec_code() -> u8 {
        0u8
    }

    open spec fn spec_signature() -> Seq<char> {
        A0::spec_signature() + A1::spec_signature()
    }

    open spec fn spec_alignment() -> u8 {
        1u8
    }

    open spec fn spec_well_formed(v: (A0::V, A1::V)) -> bool {
        A0::spec_well_formed(v.0) && A1::spec_well_formed(v.1)
    }

    open spec fn spec_encode(v: (A0::V, A1::V), e: Endianness, pos: nat) -> Seq<u8> {
        let e0 = e;
        let p0 = pos;
        let b0 = A0::spec_encode(v.0, e0, p0);
        let e1 = A0::spec_endianness_after(v.0, e0);
        let p1 = p0 + b0.len();
        let b1 = A1::spec_encode(v.1, e1, p1);
        let e2 = A1::spec_endianness_after(v.1, e1);
        let p2 = p1 + b1.len();
        b0 + b1
    }

    open spec fn spec_endianness_after(v: (A0::V, A1::V), e: Endianness) -> Endianness {
        A1::spec_endianness_after(v.1, A0::spec_endianness_after(v.0, e))
    }

    open spec fn spec_decode(input: Seq<u8>, e: Endianness, pos: nat) -> Result<((A0::V, A1::V), nat), Failure> {
        let e0 = e;
        let c0 = (0) as nat;
        match A0::spec_decode(input.skip(c0 as int), e0, pos + c0) {
            Err(f) => Err(f),
            Ok((x0, n0)) => {
                let e1 = A0::spec_endianness_after(x0, e0);
                let c1 = (n0) as nat;
                match A1::spec_decode(input.skip(c1 as int), e1, pos + c1) {
                    Err(f) => Err(f),
                    Ok((x1, n1)) => {
                        Ok(((x0, x1, ), (n0 + n1) as nat))
                    },
                }
            },
        }
    }

    fn code() -> (c: u8) {
        0
    }

    fn signature() -> (s: String) {
        let mut s = String::new();
        let part = A0::signature();
        push_str(&mut s, part.as_str());
        let part = A1::signature();
        push_str(&mut s, part.as_str());
        assert(s@ =~= A0::spec_signature() + A1::spec_signature());
        s
    }

    fn alignment() -> (a: u8) {
        1
    }

    fn encode(&self, marshaller: &mut Marshaller) -> (r: Result<(), Error>) {
        let ghost m0 = *marshaller;
        let ghost v = self.deep_view();
        let ghost e = m0.spec_endianness();
        let ghost pos = m0.spec_write_pos();
        assert(self.0.deep_view() == v.0);
        self.0.encode(marshaller);
        assert(self.1.deep_view() == v.1);
        self.1.encode(marshaller);
        assert(marshaller.spec_bytes() =~= m0.spec_bytes() + Self::spec_encode(v, e, pos));
        Ok(())
    }

    fn decode(marshaller: &mut Marshaller) -> (r: Result<Self, Error>) {
        let ghost m0 = *marshaller;
        let ghost input = m0.spec_bytes();
        let ghost e = m0.spec_endianness();
        let ghost pos = m0.spec_read_pos();
        let ghost s0 = *marshaller;
        proof {
            assert(s0.spec_bytes() =~= input.skip((s0.spec_read_pos() - pos) as int));
        }
        let x0 = A0::decode(marshaller)?;
        let ghost s1 = *marshaller;
        proof {
            assert(s1.spec_bytes() =~= input.skip((s1.spec_read_pos() - pos) as int));
        }
        let x1 = A1::decode(marshaller)?;
        let ghost mk = *marshaller;
        proof {
            assert(mk.spec_bytes() =~= input.skip((mk.spec_read_pos() - pos) as int));
        }
        Ok((x0, x1))
    }

    proof fn lemma_decode_within(input: Seq<u8>, e: Endianness, pos: nat) {
        let e0 = e;
        let c0 = (0) as nat;
        A0::lemma_decode_within(input.skip(c0 as int), e0, pos + c0);
        if let Ok((x0, n0)) = A0::spec_decode(input.skip(c0 as int), e0, pos + c0) {
            if c0 + n0 <= input.len() {
                let e1 = A0::spec_endianness_after(x0, e0);
                let c1 = (n0) as nat;
                A1::lemma_decode_within(input.skip(c1 as int), e1, pos + c1);
                if let Ok((x1, n1)) = A1::spec_decode(input.skip(c1 as int), e1, pos + c1) {
                    if c1 + n1 <= input.len() {
                    }
                }
            }
        }
    }

    proof fn lemma_roundtrip(v: (A0::V, A1::V), e: Endianness, pos: nat, rest: Seq<u8>) {
        let e0 = e;
        let p0 = pos;
        let b0 = A0::spec_encode(v.0, e0, p0);
        let e1 = A0::spec_endianness_after(v.0, e0);
        let p1 = p0 + b0.len();
        let b1 = A1::spec_encode(v.1, e1, p1);
        let e2 = A1::spec_endianness_after(v.1, e1);
        let p2 = p1 + b1.len();
        let t1 = rest;
        let t0 = b1 + t1;
        let all = Self::spec_encode(v, e, pos) + rest;
        vstd::seq_lib::lemma_concat_associative(b0, b1, t1);
        assert(all.skip(0) =~= b0 + t0);
        A0::lemma_roundtrip(v.0, e0, p0, t0);
        crate::types::field::lemma_skip_past(all, (0) as int, b0, t0);
        A1::lemma_roundtrip(v.1, e1, p1, t1);
    }
}

/// The signature of a tuple of 2 is its elements' signatures joined in
/// order, with no parentheses, whether it is read as a value or as packed
/// types.
pub proof fn lemma_tuple2_signature<A0: DBusType, A1: DBusType>()
    ensures
        <(A0, A1,) as DBusType>::spec_signature() =~= A0::spec_signature() + A1::spec_signature(),
        <(A0, A1,) as DBusPackedTypes>::spec_packed_signature() =~= A0::spec_signature() + A1::spec_signature(),
{
}

impl<A0: DBusType, A1: DBusType> DBusPackedTypes for (A0, A1,) {
    open spec fn spec_packed_signature() -> Seq<char> {
        A0::spec_signature() + A1::spec_signature()
    }

    fn signature() -> (s: String) {
        let mut s = String::new();
        let part = A0::signature();
        push_str(&mut s, part.as_str());
        let part = A1::signature();
        push_str(&mut s, part.as_str());
        assert(s@ =~= A0::spec_signature() + A1::spec_signature());
        s
    }
}

impl<A0: DBusType, A1: DBusType, A2: DBusType> DBusType for (A0, A1, A2,) {
    open spec fn spec_code() -> u8 {
        0u8
    }

    open spec fn spec_signature() -> Seq<char> {
        A0::spec_signature() + A1::spec_signature() + A2::spec_signature()
    }

    open spec fn spec_alignment() -> u8 {
        1u8
    }

    open spec fn spec_well_formed(v: (A0::V, A1::V, A2::V)) -> bool {
        A0::spec_well_formed(v.0) && A1::spec_well_formed(v.1) && A2::spec_well_formed(v.2)
    }

    open spec fn spec_encode(v: (A0::V, A1::V, A2::V), e: Endianness, pos: nat) -> Seq<u8> {
        let e0 = e;
        let p0 = pos;
        let b0 = A0::spec_encode(v.0, e0, p0);
        let e1 = A0::spec_endianness_after(v.0, e0);
        let p1 = p0 + b0.len();
        let b1 = A1::spec_encode(v.1, e1, p1);
        let e2 = A1::spec_endianness_after(v.1, e1);
        let p2 = p1 + b1.len();
        let b2 = A2::spec_encode(v.2, e2, p2);
        let e3 = A2::spec_endianness_after(v.2, e2);
        let p3 = p2 + b2.len();
        b0 + b1 + b2
    }

    open spec fn spec_endianness_after(v: (A0::V, A1::V, A2::V), e: Endianness) -> Endianness {
        A2::spec_endianness_after(v.2, A1::spec_endianness_after(v.1, A0::spec_endianness_after(v.0, e)))
    }

    open spec fn spec_decode(input: Seq<u8>, e: Endianness, pos: nat) -> Result<((A0::V, A1::V, A2::V), nat), Failure> {
        let e0 = e;
        let c0 = (0) as nat;
        match A0::spec_decode(input.skip(c0 as int), e0, pos + c0) {
            Err(f) => Err(f),
            Ok((x0, n0)) => {
                let e1 = A0::spec_endianness_after(x0, e0);
                let c1 = (n0) as nat;
                match A1::spec_decode(input.skip(c1 as int), e1, pos + c1) {
                    Err(f) => Err(f),
                    Ok((x1, n1)) => {
                        let e2 = A1::spec_endianness_after(x1, e1);
                        let c2 = (n0 + n1) as nat;
                        match A2::spec_decode(input.skip(c2 as int), e2, pos + c2) {
                            Err(f) => Err(f),
                            Ok((x2, n2)) => {
                                Ok(((x0, x1, x2, ), (n0 + n1 + n2) as nat))
                            },
                        }
                    },
                }
            },
        }
    }

    fn code() -> (c: u8) {
        0
    }

    fn signature() -> (s: String) {
        let mut s = String::new();
        let part = A0::signature();
        push_str(&mut s, part.as_str());
        let part = A1::signature();
        push_str(&mut s, part.as_str());
        let part = A2::signature();
        push_str(&mut s, part.as_str());
        assert(s@ =~= A0::spec_signature() + A1::spec_signature() + A2::spec_signature());
        s
    }

    fn alignment() -> (a: u8) {
        1
    }

    fn encode(&self, marshaller: &mut Marshaller) -> (r: Result<(), Error>) {
        let ghost m0 = *marshaller;
        let ghost v = self.deep_view();
        let ghost e = m0.spec_endianness();
        let ghost pos = m0.spec_write_pos();
        assert(self.0.deep_view() == v.0);
        self.0.encode(marshaller);
        assert(self.1.deep_view() == v.1);
        self.1.encode(marshaller);
        assert(self.2.deep_view() == v.2);
        self.2.encode(marshaller);
        assert(marshaller.spec_bytes() =~= m0.spec_bytes() + Self::spec_encode(v, e, pos));
        Ok(())
    }

    fn decode(marshaller: &mut Marshaller) -> (r: Result<Self, Error>) {
        let ghost m0 = *marshaller;
        let ghost input = m0.spec_bytes();
        let ghost e = m0.spec_endianness();
        let ghost pos = m0.spec_read_pos();
        let ghost s0 = *marshaller;
        proof {
            assert(s0.spec_bytes() =~= input.skip((s0.spec_read_pos() - pos) as int));
        }
        let x0 = A0::decode(marshaller)?;
        let ghost s1 = *marshaller;
        proof {
            assert(s1.spec_bytes() =~= input.skip((s1.spec_read_pos() - pos) as int));
        }
        let x1 = A1::decode(marshaller)?;
        let ghost s2 = *marshaller;
        proof {
            assert(s2.spec_bytes() =~= input.skip((s2.spec_read_pos() - pos) as int));
        }
        let x2 = A2::decode(marshaller)?;
        let ghost mk = *marshaller;
        proof {
            assert(mk.spec_bytes() =~= input.skip((mk.spec_read_pos() - pos) as int));
        }
        Ok((x0, x1, x2))
    }

    proof fn lemma_decode_within(input: Seq<u8>, e: Endianness, pos: nat) {
        let e0 = e;
        let c0 = (0) as nat;
        A0::lemma_decode_within(input.skip(c0 as int), e0, pos + c0);
        if let Ok((x0, n0)) = A0::spec_decode(input.skip(c0 as int), e0, pos + c0) {
            if c0 + n0 <= input.len() {
                let e1 = A0::spec_endianness_after(x0, e0);
                let c1 = (n0) as nat;
                A1::lemma_decode_within(input.skip(c1 as int), e1, pos + c1);
                if let Ok((x1, n1)) = A1::spec_decode(input.skip(c1 as int), e1, pos + c1) {
                    if c1 + n1 <= input.len() {
                        let e2 = A1::spec_endianness_after(x1, e1);
                        let c2 = (n0 + n1) as nat;
                        A2::lemma_decode_within(input.skip(c2 as int), e2, pos + c2);
                        if let Ok((x2, n2)) = A2::spec_decode(input.skip(c2 as int), e2, pos + c2) {
                            if c2 + n2 <= input.len() {
                            }
                        }
                    }
                }
            }
        }
    }

    proof fn lemma_roundtrip(v: (A0::V, A1::V, A2::V), e: Endianness, pos: nat, rest: Seq<u8>) {
        let e0 = e;
        let p0 = pos;
        let b0 = A0::spec_encode(v.0, e0, p0);
        let e1 = A0::spec_endianness_after(v.0, e0);
        let p1 = p0 + b0.len();
        let b1 = A1::spec_encode(v.1, e1, p1);
        let e2 = A1::spec_endianness_after(v.1, e1);
        let p2 = p1 + b1.len();
        let b2 = A2::spec_encode(v.2, e2, p2);
        let e3 = A2::spec_endianness_after(v.2, e2);
        let p3 = p2 + b2.len();
        let t2 = rest;
        let t1 = b2 + t2;
        let t0 = b1 + t1;
        let all = Self::spec_encode(v, e, pos) + rest;
        vstd::seq_lib::lemma_concat_associative(b0 + b1, b2, t2);
        vstd::seq_lib::lemma_concat_associative(b0, b1, t1);
        assert(all.skip(0) =~= b0 + t0);
        A0::lemma_roundtrip(v.0, e0, p0, t0);
        crate::types::field::lemma_skip_past(all, (0) as int, b0, t0);
        A1::lemma_roundtrip(v.1, e1, p1, t1);
        crate::types::field::lemma_skip_past(all, (b0.len()) as int, b1, t1);
        A2::lemma_roundtrip(v.2, e2, p2, t2);
    }
}

/// The signature of a tuple of 3 is its elements' signatures joined in
/// order, with no parentheses, whether it is read as a value or as packed
/// types.
pub proof fn lemma_tuple3_signature<A0: DBusType, A1: DBusType, A2: DBusType>()
    ensures
        <(A0, A1, A2,) as DBusType>::spec_signature() =~= A0::spec_signature() + A1::spec_signature() + A2::spec_signature(),
        <(A0, A1, A2,) as DBusPackedTypes>::spec_packed_signature() =~= A0::spec_signature() + A1::spec_signature() + A2::spec_signature(),
{
}

impl<A0: DBusType, A1: DBusType, A2: DBusType> DBusPackedTypes for (A0, A1, A2,) {
    open spec fn spec_packed_signature() -> Seq<char> {
        A0::spec_signature() + A1::spec_signature() + A2::spec_signature()
    }

    fn signature() -> (s: String) {
        let mut s = String::new();
        let part = A0::signature();
        push_str(&mut s, part.as_str());
        let part = A1::signature();
        push_str(&mut s, part.as_str());
        let part = A2::signature();
        push_str(&mut s, part.as_str());
        assert(s@ =~= A0::spec_signature() + A1::spec_signature() + A2::spec_signature());
        s
    }
}

impl<A0: DBusType, A1: DBusType, A2: DBusType, A3: DBusType> DBusType for (A0, A1, A2, A3,) {
    open spec fn spec_code() -> u8 {
        0u8
    }

    open spec fn spec_signature() -> Seq<char> {
        A0::spec_signature() + A1::spec_signature() + A2::spec_signature() + A3::spec_signature()
    }

    open spec fn spec_alignment() -> u8 {
        1u8
    }

    open spec fn spec_well_formed(v: (A0::V, A1::V, A2::V, A3::V)) -> bool {
        A0::spec_well_formed(v.0) && A1::spec_well_formed(v.1) && A2::spec_well_formed(v.2) && A3::spec_well_formed(v.3)
    }

    open spec fn spec_encode(v: (A0::V, A1::V, A2::V, A3::V), e: Endianness, pos: nat) -> Seq<u8> {
        let e0 = e;
        let p0 = pos;
        let b0 = A0::spec_encode(v.0, e0, p0);
        let e1 = A0::spec_endianness_after(v.0, e0);
        let p1 = p0 + b0.len();
        let b1 = A1::spec_encode(v.1, e1, p1);
        let e2 = A1::spec_endianness_after(v.1, e1);
        let p2 = p1 + b1.len();
        let b2 = A2::spec_encode(v.2, e2, p2);
        let e3 = A2::spec_endianness_after(v.2, e2);
        let p3 = p2 + b2.len();
        let b3 = A3::spec_encode(v.3, e3, p3);
        let e4 = A3::spec_endianness_after(v.3, e3);
        let p4 = p3 + b3.len();
        b0 + b1 + b2 + b3
    }

    open spec fn spec_endianness_after(v: (A0::V, A1::V, A2::V, A3::V), e: Endianness) -> Endianness {
        A3::spec_endianness_after(v.3, A2::spec_endianness_after(v.2, A1::spec_endianness_after(v.1, A0::spec_endianness_after(v.0, e))))
    }

    open spec fn spec_decode(input: Seq<u8>, e: Endianness, pos: nat) -> Result<((A0::V, A1::V, A2::V, A3::V), nat), Failure> {
        let e0 = e;
        let c0 = (0) as nat;
        match A0::spec_decode(input.skip(c0 as int), e0, pos + c0) {
            Err(f) => Err(f),
            Ok((x0, n0)) => {
                let e1 = A0::spec_endianness_after(x0, e0);
                let c1 = (n0) as nat;
                match A1::spec_decode(input.skip(c1 as int), e1, pos + c1) {
                    Err(f) => Err(f),
                    Ok((x1, n1)) => {
                        let e2 = A1::spec_endianness_after(x1, e1);
                        let c2 = (n0 + n1) as nat;
                        match A2::spec_decode(input.skip(c2 as int), e2, pos + c2) {
                            Err(f) => Err(f),
                            Ok((x2, n2)) => {
                                let e3 = A2::spec_endianness_after(x2, e2);
                                let c3 = (n0 + n1 + n2) as nat;
                                match A3::spec_decode(input.skip(c3 as int), e3, pos + c3) {
                                    Err(f) => Err(f),
                                    Ok((x3, n3)) => {
                                        Ok(((x0, x1, x2, x3, ), (n0 + n1 + n2 + n3) as nat))
                                    },
                                }
                            },
                        }
                    },
                }
            },
        }
    }

    fn code() -> (c: u8) {
        0
    }

    fn signature() -> (s: String) {
        let mut s = String::new();
        let part = A0::signature();
        push_str(&mut s, part.as_str());
        let part = A1::signature();
        push_str(&mut s, part.as_str());
        let part = A2::signature();
        push_str(&mut s, part.as_str());
        let part = A3::signature();
        push_str(&mut s, part.as_str());
        assert(s@ =~= A0::spec_signature() + A1::spec_signature() + A2::spec_signature() + A3::spec_signature());
        s
    }

    fn alignment() -> (a: u8) {
        1
    }

    fn encode(&self, marshaller: &mut Marshaller) -> (r: Result<(), Error>) {
        let ghost m0 = *marshaller;
        let ghost v = self.deep_view();
        let ghost e = m0.spec_endianness();
        let ghost pos = m0.spec_write_pos();
        assert(self.0.deep_view() == v.0);
        self.0.encode(marshaller);
        assert(self.1.deep_view() == v.1);
        self.1.encode(marshaller);
        assert(self.2.deep_view() == v.2);
        self.2.encode(marshaller);
        assert(self.3.deep_view() == v.3);
        self.3.encode(marshaller);
        assert(marshaller.spec_bytes() =~= m0.spec_bytes() + Self::spec_encode(v, e, pos));
        Ok(())
    }

    fn decode(marshaller: &mut Marshaller) -> (r: Result<Self, Error>) {
        let ghost m0 = *marshaller;
        let ghost input = m0.spec_bytes();
        let ghost e = m0.spec_endianness();
        let ghost pos = m0.spec_read_pos();
        let ghost s0 = *marshaller;
        proof {
            assert(s0.spec_bytes() =~= input.skip((s0.spec_read_pos() - pos) as int));
        }
        let x0 = A0::decode(marshaller)?;
        let ghost s1 = *marshaller;
        proof {
            assert(s1.spec_bytes() =~= input.skip((s1.spec_read_pos() - pos) as int));
        }
        let x1 = A1::decode(marshaller)?;
        let ghost s2 = *marshaller;
        proof {
            assert(s2.spec_bytes() =~= input.skip((s2.spec_read_pos() - pos) as int));
        }
        let x2 = A2::decode(marshaller)?;
        let ghost s3 = *marshaller;
        proof {
            assert(s3.spec_bytes() =~= input.skip((s3.spec_read_pos() - pos) as int));
        }
        let x3 = A3::decode(marshaller)?;
        let ghost mk = *marshaller;
        proof {
            assert(mk.spec_bytes() =~= input.skip((mk.spec_read_pos() - pos) as int));
        }
        Ok((x0, x1, x2, x3))
    }

    proof fn lemma_decode_within(input: Seq<u8>, e: Endianness, pos: nat) {
        let e0 = e;
        let c0 = (0) as nat;
        A0::lemma_decode_within(input.skip(c0 as int), e0, pos + c0);
        if let Ok((x0, n0)) = A0::spec_decode(input.skip(c0 as int), e0, pos + c0) {
            if c0 + n0 <= input.len() {
                let e1 = A0::spec_endianness_after(x0, e0);
                let c1 = (n0) as nat;
                A1::lemma_decode_within(input.skip(c1 as int), e1, pos + c1);
                if let Ok((x1, n1)) = A1::spec_decode(input.skip(c1 as int), e1, pos + c1) {
                    if c1 + n1 <= input.len() {
                        let e2 = A1::spec_endianness_after(x1, e1);
                        let c2 = (n0 + n1) as nat;
                        A2::lemma_decode_within(input.skip(c2 as int), e2, pos + c2);
                        if let Ok((x2, n2)) = A2::spec_decode(input.skip(c2 as int), e2, pos + c2) {
                            if c2 + n2 <= input.len() {
                                let e3 = A2::spec_endianness_after(x2, e2);
                                let c3 = (n0 + n1 + n2) as nat;
                                A3::lemma_decode_within(input.skip(c3 as int), e3, pos + c3);
                                if let Ok((x3, n3)) = A3::spec_decode(input.skip(c3 as int), e3, pos + c3) {
                                    if c3 + n3 <= input.len() {
                                    }
                                }
                            }
                        }
                    }
                }
            }
        }
    }

    proof fn lemma_roundtrip(v: (A0::V, A1::V, A2::V, A3::V), e: Endianness, pos: nat, rest: Seq<u8>) {
        let e0 = e;
        let p0 = pos;
        let b0 = A0::spec_encode(v.0, e0, p0);
        let e1 = A0::spec_endianness_after(v.0, e0);
        let p1 = p0 + b0.len();
        let b1 = A1::spec_encode(v.1, e1, p1);
        let e2 = A1::spec_endianness_after(v.1, e1);
        let p2 = p1 + b1.len();
        let b2 = A2::spec_encode(v.2, e2, p2);
        let e3 = A2::spec_endianness_after(v.2, e2);
        let p3 = p2 + b2.len();
        let b3 = A3::spec_encode(v.3, e3, p3);
        let e4 = A3::spec_endianness_after(v.3, e3);
        let p4 = p3 + b3.len();
        let t3 = rest;
        let t2 = b3 + t3;
        let t1 = b2 + t2;
        let t0 = b1 + t1;
        let all = Self::spec_encode(v, e, pos) + rest;
        vstd::seq_lib::lemma_concat_associative(b0 + b1 + b2, b3, t3);
        vstd::seq_lib::lemma_concat_associative(b0 + b1, b2, t2);
        vstd::seq_lib::lemma_concat_associative(b0, b1, t1);
        assert(all.skip(0) =~= b0 + t0);
        A0::lemma_roundtrip(v.0, e0, p0, t0);
        crate::types::field::lemma_skip_past(all, (0) as int, b0, t0);
        A1::lemma_roundtrip(v.1, e1, p1, t1);
        crate::types::field::lemma_skip_past(all, (b0.len()) as int, b1, t1);
        A2::lemma_roundtrip(v.2, e2, p2, t2);
        crate::types::field::lemma_skip_past(all, (b0.len() + b1.len()) as int, b2, t2);
        A3::lemma_roundtrip(v.3, e3, p3, t3);
    }
}

/// The signature of a tuple of 4 is its elements' signatures joined in
/// order, with no parentheses, whether it is read as a value or as packed
/// types.
pub proof fn lemma_tuple4_signature<A0: DBusType, A1: DBusType, A2: DBusType, A3: DBusType>()
    ensures
        <(A0, A1, A2, A3,) as DBusType>::spec_signature() =~= A0::spec_signature() + A1::spec_signature() + A2::spec_signature() + A3::spec_signature(),
        <(A0, A1, A2, A3,) as DBusPackedTypes>::spec_packed_signature() =~= A0::spec_signature() + A1::spec_signature() + A2::spec_signature() + A3::spec_signature(),
{
}

impl<A0: DBusType, A1: DBusType, A2: DBusType, A3: DBusType> DBusPackedTypes for (A0, A1, A2, A3,) {
    open spec fn spec_packed_signature() -> Seq<char> {
        A0::spec_signature() + A1::spec_signature() + A2::spec_signature() + A3::spec_signature()
    }

    fn signature() -> (s: String) {
        let mut s = String::new();
        let part = A0::signature();
        push_str(&mut s, part.as_str());
        let part = A1::signature();
        push_str(&mut s, part.as_str());
        let part = A2::signature();
        push_str(&mut s, part.as_str());
        let part = A3::signature();
        push_str(&mut s, part.as_str());
        assert(s@ =~= A0::spec_signature() + A1::spec_signature() + A2::spec_signature() + A3::spec_signature());
        s
    }
}

impl<A0: DBusType, A1: DBusType, A2: DBusType, A3: DBusType, A4: DBusType> DBusType for (A0, A1, A2, A3, A4,) {
    open spec fn spec_code() -> u8 {
        0u8
    }

    open spec fn spec_signature() -> Seq<char> {
        A0::spec_signature() + A1::spec_signature() + A2::spec_signature() + A3::spec_signature() + A4::spec_signature()
    }

    open spec fn spec_alignment() -> u8 {
        1u8
    }

    open spec fn spec_well_formed(v: (A0::V, A1::V, A2::V, A3::V, A4::V)) -> bool {
        A0::spec_well_formed(v.0) && A1::spec_well_formed(v.1) && A2::spec_well_formed(v.2) && A3::spec_well_formed(v.3) && A4::spec_well_formed(v.4)
    }

    open spec fn spec_encode(v: (A0::V, A1::V, A2::V, A3::V, A4::V), e: Endianness, pos: nat) -> Seq<u8> {
        let e0 = e;
        let p0 = pos;
        let b0 = A0::spec_encode(v.0, e0, p0);
        let e1 = A0::spec_endianness_after(v.0, e0);
        let p1 = p0 + b0.len();
        let b1 = A1::spec_encode(v.1, e1, p1);
        let e2 = A1::spec_endianness_after(v.1, e1);
        let p2 = p1 + b1.len();
        let b2 = A2::spec_encode(v.2, e2, p2);
        let e3 = A2::spec_endianness_after(v.2, e2);
        let p3 = p2 + b2.len();
        let b3 = A3::spec_encode(v.3, e3, p3);
        let e4 = A3::spec_endianness_after(v.3, e3);
        let p4 = p3 + b3.len();
        let b4 = A4::spec_encode(v.4, e4, p4);
        let e5 = A4::spec_endianness_after(v.4, e4);
        let p5 = p4 + b4.len();
        b0 + b1 + b2 + b3 + b4
    }

    open spec fn spec_endianness_after(v: (A0::V, A1::V, A2::V, A3::V, A4::V), e: Endianness) -> Endianness {
        A4::spec_endianness_after(v.4, A3::spec_endianness_after(v.3, A2::spec_endianness_after(v.2, A1::spec_endianness_after(v.1, A0::spec_endianness_after(v.0, e)))))
    }

    open spec fn spec_decode(input: Seq<u8>, e: Endianness, pos: nat) -> Result<((A0::V, A1::V, A2::V, A3::V, A4::V), nat), Failure> {
        let e0 = e;
        let c0 = (0) as nat;
        match A0::spec_decode(input.skip(c0 as int), e0, pos + c0) {
            Err(f) => Err(f),
            Ok((x0, n0)) => {
                let e1 = A0::spec_endianness_after(x0, e0);
                let c1 = (n0) as nat;
                match A1::spec_decode(input.skip(c1 as int), e1, pos + c1) {
                    Err(f) => Err(f),
                    Ok((x1, n1)) => {
                        let e2 = A1::spec_endianness_after(x1, e1);
                        let c2 = (n0 + n1) as nat;
                        match A2::spec_decode(input.skip(c2 as int), e2, pos + c2) {
                            Err(f) => Err(f),
                            Ok((x2, n2)) => {
                                let e3 = A2::spec_endianness_after(x2, e2);
                                let c3 = (n0 + n1 + n2) as nat;
                                match A3::spec_decode(input.skip(c3 as int), e3, pos + c3) {
                                    Err(f) => Err(f),
                                    Ok((x3, n3)) => {
                                        let e4 = A3::spec_endianness_after(x3, e3);
                                        let c4 = (n0 + n1 + n2 + n3) as nat;
                                        match A4::spec_decode(input.skip(c4 as int), e4, pos + c4) {
                                            Err(f) => Err(f),
                                            Ok((x4, n4)) => {
                                                Ok(((x0, x1, x2, x3, x4, ), (n0 + n1 + n2 + n3 + n4) as nat))
                                            },
                                        }
                                    },
                                }
                            },
                        }
                    },
                }
            },
        }
    }

    fn code() -> (c: u8) {
        0
    }

    fn signature() -> (s: String) {
        let mut s = String::new();
        let part = A0::signature();
        push_str(&mut s, part.as_str());
        let part = A1::signature();
        push_str(&mut s, part.as_str());
        let part = A2::signature();
        push_str(&mut s, part.as_str());
        let part = A3::signature();
        push_str(&mut s, part.as_str());
        let part = A4::signature();
        push_str(&mut s, part.as_str());
        assert(s@ =~= A0::spec_signature() + A1::spec_signature() + A2::spec_signature() + A3::spec_signature() + A4::spec_signature());
        s
    }

    fn alignment() -> (a: u8) {
        1
    }

    fn encode(&self, marshaller: &mut Marshaller) -> (r: Result<(), Error>) {
        let ghost m0 = *marshaller;
        let ghost v = self.deep_view();
        let ghost e = m0.spec_endianness();
        let ghost pos = m0.spec_write_pos();
        assert(self.0.deep_view() == v.0);
        self.0.encode(marshaller);
        assert(self.1.deep_view() == v.1);
        self.1.encode(marshaller);
        assert(self.2.deep_view() == v.2);
        self.2.encode(marshaller);
        assert(self.3.deep_view() == v.3);
        self.3.encode(marshaller);
        assert(self.4.deep_view() == v.4);
        self.4.encode(marshaller);
        assert(marshaller.spec_bytes() =~= m0.spec_bytes() + Self::spec_encode(v, e, pos));
        Ok(())
    }

    fn decode(marshaller: &mut Marshaller) -> (r: Result<Self, Error>) {
        let ghost m0 = *marshaller;
        let ghost input = m0.spec_bytes();
        let ghost e = m0.spec_endianness();
        let ghost pos = m0.spec_read_pos();
        let ghost s0 = *marshaller;
        proof {
            assert(s0.spec_bytes() =~= input.skip((s0.spec_read_pos() - pos) as int));
        }
        let x0 = A0::decode(marshaller)?;
        let ghost s1 = *marshaller;
        proof {
            assert(s1.spec_bytes() =~= input.skip((s1.spec_read_pos() - pos) as int));
        }
        let x1 = A1::decode(marshaller)?;
        let ghost s2 = *marshaller;
        proof {
            assert(s2.spec_bytes() =~= input.skip((s2.spec_read_pos() - pos) as int));
        }
        let x2 = A2::decode(marshaller)?;
        let ghost s3 = *marshaller;
        proof {
            assert(s3.spec_bytes() =~= input.skip((s3.spec_read_pos() - pos) as int));
        }
        let x3 = A3::decode(marshaller)?;
        let ghost s4 = *marshaller;
        proof {
            assert(s4.spec_bytes() =~= input.skip((s4.spec_read_pos() - pos) as int));
        }
        let x4 = A4::decode(marshaller)?;
        let ghost mk = *marshaller;
        proof {
            assert(mk.spec_bytes() =~= input.skip((mk.spec_read_pos() - pos) as int));
        }
        Ok((x0, x1, x2, x3, x4))
    }

    proof fn lemma_decode_within(input: Seq<u8>, e: Endianness, pos: nat) {
        let e0 = e;
        let c0 = (0) as nat;
        A0::lemma_decode_within(input.skip(c0 as int), e0, pos + c0);
        if let Ok((x0, n0)) = A0::spec_decode(input.skip(c0 as int), e0, pos + c0) {
            if c0 + n0 <= input.len() {
                let e1 = A0::spec_endianness_after(x0, e0);
                let c1 = (n0) as nat;
                A1::lemma_decode_within(input.skip(c1 as int), e1, pos + c1);
                if let Ok((x1, n1)) = A1::spec_decode(input.skip(c1 as int), e1, pos + c1) {
                    if c1 + n1 <= input.len() {
                        let e2 = A1::spec_endianness_after(x1, e1);
                        let c2 = (n0 + n1) as nat;
                        A2::lemma_decode_within(input.skip(c2 as int), e2, pos + c2);
                        if let Ok((x2, n2)) = A2::spec_decode(input.skip(c2 as int), e2, pos + c2) {
                            if c2 + n2 <= input.len() {
                                let e3 = A2::spec_endianness_after(x2, e2);
                                let c3 = (n0 + n1 + n2) as nat;
                                A3::lemma_decode_within(input.skip(c3 as int), e3, pos + c3);
                                if let Ok((x3, n3)) = A3::spec_decode(input.skip(c3 as int), e3, pos + c3) {
                                    if c3 + n3 <= input.len() {
                                        let e4 = A3::spec_endianness_after(x3, e3);
                                        let c4 = (n0 + n1 + n2 + n3) as nat;
                                        A4::lemma_decode_within(input.skip(c4 as int), e4, pos + c4);
                                        if let Ok((x4, n4)) = A4::spec_decode(input.skip(c4 as int), e4, pos + c4) {
                                            if c4 + n4 <= input.len() {
                                            }
                                        }
                                    }
                                }
                            }
                        }
                    }
                }
            }
        }
    }

    proof fn lemma_roundtrip(v: (A0::V, A1::V, A2::V, A3::V, A4::V), e: Endianness, pos: nat, rest: Seq<u8>) {
        let e0 = e;
        let p0 = pos;
        let b0 = A0::spec_encode(v.0, e0, p0);
        let e1 = A0::spec_endianness_after(v.0, e0);
        let p1 = p0 + b0.len();
        let b1 = A1::spec_encode(v.1, e1, p1);
        let e2 = A1::spec_endianness_after(v.1, e1);
        let p2 = p1 + b1.len();
        let b2 = A2::spec_encode(v.2, e2, p2);
        let e3 = A2::spec_endianness_after(v.2, e2);
        let p3 = p2 + b2.len();
        let b3 = A3::spec_encode(v.3, e3, p3);
        let e4 = A3::spec_endianness_after(v.3, e3);
        let p4 = p3 + b3.len();
        let b4 = A4::spec_encode(v.4, e4, p4);
        let e5 = A4::spec_endianness_after(v.4, e4);
        let p5 = p4 + b4.len();
        let t4 = rest;
        let t3 = b4 + t4;
        let t2 = b3 + t3;
        let t1 = b2 + t2;
        let t0 = b1 + t1;
        let all = Self::spec_encode(v, e, pos) + rest;
        vstd::seq_lib::lemma_concat_associative(b0 + b1 + b2 + b3, b4, t4);
        vstd::seq_lib::lemma_concat_associative(b0 + b1 + b2, b3, t3);
        vstd::seq_lib::lemma_concat_associative(b0 + b1, b2, t2);
        vstd::seq_lib::lemma_concat_associative(b0, b1, t1);
        assert(all.skip(0) =~= b0 + t0);
        A0::lemma_roundtrip(v.0, e0, p0, t0);
        crate::types::field::lemma_skip_past(all, (0) as int, b0, t0);
        A1::lemma_roundtrip(v.1, e1, p1, t1);
        crate::types::field::lemma_skip_past(all, (b0.len()) as int, b1, t1);
        A2::lemma_roundtrip(v.2, e2, p2, t2);
        crate::types::field::lemma_skip_past(all, (b0.len() + b1.len()) as int, b2, t2);
        A3::lemma_roundtrip(v.3, e3, p3, t3);
        crate::types::field::lemma_skip_past(all, (b0.len() + b1.len() + b2.len()) as int, b3, t3);
        A4::lemma_roundtrip(v.4, e4, p4, t4);
    }
}

/// The signature of a tuple of 5 is its elements' signatures joined in
/// order, with no parentheses, whether it is read as a value or as packed
/// types.
pub proof fn lemma_tuple5_signature<A0: DBusType, A1: DBusType, A2: DBusType, A3: DBusType, A4: DBusType>()
    ensures
        <(A0, A1, A2, A3, A4,) as DBusType>::spec_signature() =~= A0::spec_signature() + A1::spec_signature() + A2::spec_signature() + A3::spec_signature() + A4::spec_signature(),
        <(A0, A1, A2, A3, A4,) as DBusPackedTypes>::spec_packed_signature() =~= A0::spec_signature() + A1::spec_signature() + A2::spec_signature() + A3::spec_signature() + A4::spec_signature(),
{
}

impl<A0: DBusType, A1: DBusType, A2: DBusType, A3: DBusType, A4: DBusType> DBusPackedTypes for (A0, A1, A2, A3, A4,) {
    open spec fn spec_packed_signature() -> Seq<char> {
        A0::spec_signature() + A1::spec_signature() + A2::spec_signature() + A3::spec_signature() + A4::spec_signature()
    }

    fn signature() -> (s: String) {
        let mut s = String::new();
        let part = A0::signature();
        push_str(&mut s, part.as_str());
        let part = A1::signature();
        push_str(&mut s, part.as_str());
        let part = A2::signature();
        push_str(&mut s, part.as_str());
        let part = A3::signature();
        push_str(&mut s, part.as_str());
        let part = A4::signature();
        push_str(&mut s, part.as_str());
        assert(s@ =~= A0::spec_signature() + A1::spec_signature() + A2::spec_signature() + A3::spec_signature() + A4::spec_signature());
        s
    }
}

impl<A0: DBusType, A1: DBusType, A2: DBusType, A3: DBusType, A4: DBusType, A5: DBusType> DBusType for (A0, A1, A2, A3, A4, A5,) {
    open spec fn spec_code() -> u8 {
        0u8
    }

    open spec fn spec_signature() -> Seq<char> {
        A0::spec_signature() + A1::spec_signature() + A2::spec_signature() + A3::spec_signature() + A4::spec_signature() + A5::spec_signature()
    }

    open spec fn spec_alignment() -> u8 {
        1u8
    }

    open spec fn spec_well_formed(v: (A0::V, A1::V, A2::V, A3::V, A4::V, A5::V)) -> bool {
        A0::spec_well_formed(v.0) && A1::spec_well_formed(v.1) && A2::spec_well_formed(v.2) && A3::spec_well_formed(v.3) && A4::spec_well_formed(v.4) && A5::spec_well_formed(v.5)
    }

    open spec fn spec_encode(v: (A0::V, A1::V, A2::V, A3::V, A4::V, A5::V), e: Endianness, pos: nat) -> Seq<u8> {
        let e0 = e;
        let p0 = pos;
        let b0 = A0::spec_encode(v.0, e0, p0);
        let e1 = A0::spec_endianness_after(v.0, e0);
        let p1 = p0 + b0.len();
        let b1 = A1::spec_encode(v.1, e1, p1);
        let e2 = A1::spec_endianness_after(v.1, e1);
        let p2 = p1 + b1.len();
        let b2 = A2::spec_encode(v.2, e2, p2);
        let e3 = A2::spec_endianness_after(v.2, e2);
        let p3 = p2 + b2.len();
        let b3 = A3::spec_encode(v.3, e3, p3);
        let e4 = A3::spec_endianness_after(v.3, e3);
        let p4 = p3 + b3.len();
        let b4 = A4::spec_encode(v.4, e4, p4);
        let e5 = A4::spec_endianness_after(v.4, e4);
        let p5 = p4 + b4.len();
        let b5 = A5::spec_encode(v.5, e5, p5);
        let e6 = A5::spec_endianness_after(v.5, e5);
        let p6 = p5 + b5.len();
        b0 + b1 + b2 + b3 + b4 + b5
    }

    open spec fn spec_endianness_after(v: (A0::V, A1::V, A2::V, A3::V, A4::V, A5::V), e: Endianness) -> Endianness {
        A5::spec_endianness_after(v.5, A4::spec_endianness_after(v.4, A3::spec_endianness_after(v.3, A2::spec_endianness_after(v.2, A1::spec_endianness_after(v.1, A0::spec_endianness_after(v.0, e))))))
    }

    open spec fn spec_decode(input: Seq<u8>, e: Endianness, pos: nat) -> Result<((A0::V, A1::V, A2::V, A3::V, A4::V, A5::V), nat), Failure> {
        let e0 = e;
        let c0 = (0) as nat;
        match A0::spec_decode(input.skip(c0 as int), e0, pos + c0) {
            Err(f) => Err(f),
            Ok((x0, n0)) => {
                let e1 = A0::spec_endianness_after(x0, e0);
                let c1 = (n0) as nat;
                match A1::spec_decode(input.skip(c1 as int), e1, pos + c1) {
                    Err(f) => Err(f),
                    Ok((x1, n1)) => {
                        let e2 = A1::spec_endianness_after(x1, e1);
                        let c2 = (n0 + n1) as nat;
                        match A2::spec_decode(input.skip(c2 as int), e2, pos + c2) {
                            Err(f) => Err(f),
                            Ok((x2, n2)) => {
                                let e3 = A2::spec_endianness_after(x2, e2);
                                let c3 = (n0 + n1 + n2) as nat;
                                match A3::spec_decode(input.skip(c3 as int), e3, pos + c3) {
                                    Err(f) => Err(f),
                                    Ok((x3, n3)) => {
                                        let e4 = A3::spec_endianness_after(x3, e3);
                                        let c4 = (n0 + n1 + n2 + n3) as nat;
                                        match A4::spec_decode(input.skip(c4 as int), e4, pos + c4) {
                                            Err(f) => Err(f),
                                            Ok((x4, n4)) => {
                                                let e5 = A4::spec_endianness_after(x4, e4);
                                                let c5 = (n0 + n1 + n2 + n3 + n4) as nat;
                                                match A5::spec_decode(input.skip(c5 as int), e5, pos + c5) {
                                                    Err(f) => Err(f),
                                                    Ok((x5, n5)) => {
                                                        Ok(((x0, x1, x2, x3, x4, x5, ), (n0 + n1 + n2 + n3 + n4 + n5) as nat))
                                                    },
                                                }
                                            },
                                        }
                                    },
                                }
                            },
                        }
                    },
                }
            },
        }
    }

    fn code() -> (c: u8) {
        0
    }

    fn signature() -> (s: String) {
        let mut s = String::new();
        let part = A0::signature();
        push_str(&mut s, part.as_str());
        let part = A1::signature();
        push_str(&mut s, part.as_str());
        let part = A2::signature();
        push_str(&mut s, part.as_str());
        let part = A3::signature();
        push_str(&mut s, part.as_str());
        let part = A4::signature();
        push_str(&mut s, part.as_str());
        let part = A5::signature();
        push_str(&mut s, part.as_str());
        assert(s@ =~= A0::spec_signature() + A1::spec_signature() + A2::spec_signature() + A3::spec_signature() + A4::spec_signature() + A5::spec_signature());
        s
    }

    fn alignment() -> (a: u8) {
        1
    }

    fn encode(&self, marshaller: &mut Marshaller) -> (r: Result<(), Error>) {
        let ghost m0 = *marshaller;
        let ghost v = self.deep_view();
        let ghost e = m0.spec_endianness();
        let ghost pos = m0.spec_write_pos();
        assert(self.0.deep_view() == v.0);
        self.0.encode(marshaller);
        assert(self.1.deep_view() == v.1);
        self.1.encode(marshaller);
        assert(self.2.deep_view() == v.2);
        self.2.encode(marshaller);
        assert(self.3.deep_view() == v.3);
        self.3.encode(marshaller);
        assert(self.4.deep_view() == v.4);
        self.4.encode(marshaller);
        assert(self.5.deep_view() == v.5);
        self.5.encode(marshaller);
        assert(marshaller.spec_bytes() =~= m0.spec_bytes() + Self::spec_encode(v, e, pos));
        Ok(())
    }

    fn decode(marshaller: &mut Marshaller) -> (r: Result<Self, Error>) {
        let ghost m0 = *marshaller;
        let ghost input = m0.spec_bytes();
        let ghost e = m0.spec_endianness();
        let ghost pos = m0.spec_read_pos();
        let ghost s0 = *marshaller;
        proof {
            assert(s0.spec_bytes() =~= input.skip((s0.spec_read_pos() - pos) as int));
        }
        let x0 = A0::decode(marshaller)?;
        let ghost s1 = *marshaller;
        proof {
            assert(s1.spec_bytes() =~= input.skip((s1.spec_read_pos() - pos) as int));
        }
        let x1 = A1::decode(marshaller)?;
        let ghost s2 = *marshaller;
        proof {
            assert(s2.spec_bytes() =~= input.skip((s2.spec_read_pos() - pos) as int));
        }
        let x2 = A2::decode(marshaller)?;
        let ghost s3 = *marshaller;
        proof {
            assert(s3.spec_bytes() =~= input.skip((s3.spec_read_pos() - pos) as int));
        }
        let x3 = A3::decode(marshaller)?;
        let ghost s4 = *marshaller;
        proof {
            assert(s4.spec_bytes() =~= input.skip((s4.spec_read_pos() - pos) as int));
        }
        let x4 = A4::decode(marshaller)?;
        let ghost s5 = *marshaller;
        proof {
            assert(s5.spec_bytes() =~= input.skip((s5.spec_read_pos() - pos) as int));
        }
        let x5 = A5::decode(marshaller)?;
        let ghost mk = *marshaller;
        proof {
            assert(mk.spec_bytes() =~= input.skip((mk.spec_read_pos() - pos) as int));
        }
        Ok((x0, x1, x2, x3, x4, x5))
    }

    proof fn lemma_decode_within(input: Seq<u8>, e: Endianness, pos: nat) {
        let e0 = e;
        let c0 = (0) as nat;
        A0::lemma_decode_within(input.skip(c0 as int), e0, pos + c0);
        if let Ok((x0, n0)) = A0::spec_decode(input.skip(c0 as int), e0, pos + c0) {
            if c0 + n0 <= input.len() {
                let e1 = A0::spec_endianness_after(x0, e0);
                let c1 = (n0) as nat;
                A1::lemma_decode_within(input.skip(c1 as int), e1, pos + c1);
                if let Ok((x1, n1)) = A1::spec_decode(input.skip(c1 as int), e1, pos + c1) {
                    if c1 + n1 <= input.len() {
                        let e2 = A1::spec_endianness_after(x1, e1);
                        let c2 = (n0 + n1) as nat;
                        A2::lemma_decode_within(input.skip(c2 as int), e2, pos + c2);
                        if let Ok((x2, n2)) = A2::spec_decode(input.skip(c2 as int), e2, pos + c2) {
                            if c2 + n2 <= input.len() {
                                let e3 = A2::spec_endianness_after(x2, e2);
                                let c3 = (n0 + n1 + n2) as nat;
                                A3::lemma_decode_within(input.skip(c3 as int), e3, pos + c3);
                                if let Ok((x3, n3)) = A3::spec_decode(input.skip(c3 as int), e3, pos + c3) {
                                    if c3 + n3 <= input.len() {
                                        let e4 = A3::spec_endianness_after(x3, e3);
                                        let c4 = (n0 + n1 + n2 + n3) as nat;
                                        A4::lemma_decode_within(input.skip(c4 as int), e4, pos + c4);
                                        if let Ok((x4, n4)) = A4::spec_decode(input.skip(c4 as int), e4, pos + c4) {
                                            if c4 + n4 <= input.len() {
                                                let e5 = A4::spec_endianness_after(x4, e4);
                                                let c5 = (n0 + n1 + n2 + n3 + n4) as nat;
                                                A5::lemma_decode_within(input.skip(c5 as int), e5, pos + c5);
                                                if let Ok((x5, n5)) = A5::spec_decode(input.skip(c5 as int), e5, pos + c5) {
                                                    if c5 + n5 <= input.len() {
                                                    }
                                                }
                                            }
                                        }
                                    }
                                }
                            }
                        }
                    }
                }
            }
        }
    }

    proof fn lemma_roundtrip(v: (A0::V, A1::V, A2::V, A3::V, A4::V, A5::V), e: Endianness, pos: nat, rest: Seq<u8>) {
        let e0 = e;
        let p0 = pos;
        let b0 = A0::spec_encode(v.0, e0, p0);
        let e1 = A0::spec_endianness_after(v.0, e0);
        let p1 = p0 + b0.len();
        let b1 = A1::spec_encode(v.1, e1, p1);
        let e2 = A1::spec_endianness_after(v.1, e1);
        let p2 = p1 + b1.len();
        let b2 = A2::spec_encode(v.2, e2, p2);
        let e3 = A2::spec_endianness_after(v.2, e2);
        let p3 = p2 + b2.len();
        let b3 = A3::spec_encode(v.3, e3, p3);
        let e4 = A3::spec_endianness_after(v.3, e3);
        let p4 = p3 + b3.len();
        let b4 = A4::spec_encode(v.4, e4, p4);
        let e5 = A4::spec_endianness_after(v.4, e4);
        let p5 = p4 + b4.len();
        let b5 = A5::spec_encode(v.5, e5, p5);
        let e6 = A5::spec_endianness_after(v.5, e5);
        let p6 = p5 + b5.len();
        let t5 = rest;
        let t4 = b5 + t5;
        let t3 = b4 + t4;
        let t2 = b3 + t3;
        let t1 = b2 + t2;
        let t0 = b1 + t1;
        let all = Self::spec_encode(v, e, pos) + rest;
        vstd::seq_lib::lemma_concat_associative(b0 + b1 + b2 + b3 + b4, b5, t5);
        vstd::seq_lib::lemma_concat_associative(b0 + b1 + b2 + b3, b4, t4);
        vstd::seq_lib::lemma_concat_associative(b0 + b1 + b2, b3, t3);
        vstd::seq_lib::lemma_concat_associative(b0 + b1, b2, t2);
        vstd::seq_lib::lemma_concat_associative(b0, b1, t1);
        assert(all.skip(0) =~= b0 + t0);
        A0::lemma_roundtrip(v.0, e0, p0, t0);
        crate::types::field::lemma_skip_past(all, (0) as int, b0, t0);
        A1::lemma_roundtrip(v.1, e1, p1, t1);
        crate::types::field::lemma_skip_past(all, (b0.len()) as int, b1, t1);
        A2::lemma_roundtrip(v.2, e2, p2, t2);
        crate::types::field::lemma_skip_past(all, (b0.len() + b1.len()) as int, b2, t2);
        A3::lemma_roundtrip(v.3, e3, p3, t3);
        crate::types::field::lemma_skip_past(all, (b0.len() + b1.len() + b2.len()) as int, b3, t3);
        A4::lemma_roundtrip(v.4, e4, p4, t4);
        crate::types::field::lemma_skip_past(all, (b0.len() + b1.len() + b2.len() + b3.len()) as int, b4, t4);
        A5::lemma_roundtrip(v.5, e5, p5, t5);
    }
}

/// The signature of a tuple of 6 is its elements' signatures joined in
/// order, with no parentheses, whether it is read as a value or as packed
/// types.
pub proof fn lemma_tuple6_signature<A0: DBusType, A1: DBusType, A2: DBusType, A3: DBusType, A4: DBusType, A5: DBusType>()
    ensures
        <(A0, A1, A2, A3, A4, A5,) as DBusType>::spec_signature() =~= A0::spec_signature() + A1::spec_signature() + A2::spec_signature() + A3::spec_signature() + A4::spec_signature() + A5::spec_signature(),
        <(A0, A1, A2, A3, A4, A5,) as DBusPackedTypes>::spec_packed_signature() =~= A0::spec_signature() + A1::spec_signature() + A2::spec_signature() + A3::spec_signature() + A4::spec_signature() + A5::spec_signature(),
{
}

impl<A0: DBusType, A1: DBusType, A2: DBusType, A3: DBusType, A4: DBusType, A5: DBusType> DBusPackedTypes for (A0, A1, A2, A3, A4, A5,) {
    open spec fn spec_packed_signature() -> Seq<char> {
        A0::spec_signature() + A1::spec_signature() + A2::spec_signature() + A3::spec_signature() + A4::spec_signature() + A5::spec_signature()
    }

    fn signature() -> (s: String) {
        let mut s = String::new();
        let part = A0::signature();
        push_str(&mut s, part.as_str());
        let part = A1::signature();
        push_str(&mut s, part.as_str());
        let part = A2::signature();
        push_str(&mut s, part.as_str());
        let part = A3::signature();
        push_str(&mut s, part.as_str());
        let part = A4::signature();
        push_str(&mut s, part.as_str());
        let part = A5::signature();
        push_str(&mut s, part.as_str());
        assert(s@ =~= A0::spec_signature() + A1::spec_signature() + A2::spec_signature() + A3::spec_signature() + A4::spec_signature() + A5::spec_signature());
        s
    }
}

impl<A0: DBusType, A1: DBusType, A2: DBusType, A3: DBusType, A4: DBusType, A5: DBusType, A6: DBusType> DBusType for (A0, A1, A2, A3, A4, A5, A6,) {
    open spec fn spec_code() -> u8 {
        0u8
    }

    open spec fn spec_signature() -> Seq<char> {
        A0::spec_signature() + A1::spec_signature() + A2::spec_signature() + A3::spec_signature() + A4::spec_signature() + A5::spec_signature() + A6::spec_signature()
    }

    open spec fn spec_alignment() -> u8 {
        1u8
    }

    open spec fn spec_well_formed(v: (A0::V, A1::V, A2::V, A3::V, A4::V, A5::V, A6::V)) -> bool {
        A0::spec_well_formed(v.0) && A1::spec_well_formed(v.1) && A2::spec_well_formed(v.2) && A3::spec_well_formed(v.3) && A4::spec_well_formed(v.4) && A5::spec_well_formed(v.5) && A6::spec_well_formed(v.6)
    }

    open spec fn spec_encode(v: (A0::V, A1::V, A2::V, A3::V, A4::V, A5::V, A6::V), e: Endianness, pos: nat) -> Seq<u8> {
        let e0 = e;
        let p0 = pos;
        let b0 = A0::spec_encode(v.0, e0, p0);
        let e1 = A0::spec_endianness_after(v.0, e0);
        let p1 = p0 + b0.len();
        let b1 = A1::spec_encode(v.1, e1, p1);
        let e2 = A1::spec_endianness_after(v.1, e1);
        let p2 = p1 + b1.len();
        let b2 = A2::spec_encode(v.2, e2, p2);
        let e3 = A2::spec_endianness_after(v.2, e2);
        let p3 = p2 + b2.len();
        let b3 = A3::spec_encode(v.3, e3, p3);
        let e4 = A3::spec_endianness_after(v.3, e3);
        let p4 = p3 + b3.len();
        let b4 = A4::spec_encode(v.4, e4, p4);
        let e5 = A4::spec_endianness_after(v.4, e4);
        let p5 = p4 + b4.len();
        let b5 = A5::spec_encode(v.5, e5, p5);
        let e6 = A5::spec_endianness_after(v.5, e5);
        let p6 = p5 + b5.len();
        let b6 = A6::spec_encode(v.6, e6, p6);
        let e7 = A6::spec_endianness_after(v.6, e6);
        let p7 = p6 + b6.len();
        b0 + b1 + b2 + b3 + b4 + b5 + b6
    }

    open spec fn spec_endianness_after(v: (A0::V, A1::V, A2::V, A3::V, A4::V, A5::V, A6::V), e: Endianness) -> Endianness {
        A6::spec_endianness_after(v.6, A5::spec_endianness_after(v.5, A4::spec_endianness_after(v.4, A3::spec_endianness_after(v.3, A2::spec_endianness_after(v.2, A1::spec_endianness_after(v.1, A0::spec_endianness_after(v.0, e)))))))
    }

    open spec fn spec_decode(input: Seq<u8>, e: Endianness, pos: nat) -> Result<((A0::V, A1::V, A2::V, A3::V, A4::V, A5::V, A6::V), nat), Failure> {
        let e0 = e;
        let c0 = (0) as nat;
        match A0::spec_decode(input.skip(c0 as int), e0, pos + c0) {
            Err(f) => Err(f),
            Ok((x0, n0)) => {
                let e1 = A0::spec_endianness_after(x0, e0);
                let c1 = (n0) as nat;
                match A1::spec_decode(input.skip(c1 as int), e1, pos + c1) {
                    Err(f) => Err(f),
                    Ok((x1, n1)) => {
                        let e2 = A1::spec_endianness_after(x1, e1);
                        let c2 = (n0 + n1) as nat;
                        match A2::spec_decode(input.skip(c2 as int), e2, pos + c2) {
                            Err(f) => Err(f),
                            Ok((x2, n2)) => {
                                let e3 = A2::spec_endianness_after(x2, e2);
                                let c3 = (n0 + n1 + n2) as nat;
                                match A3::spec_decode(input.skip(c3 as int), e3, pos + c3) {
                                    Err(f) => Err(f),
                                    Ok((x3, n3)) => {
                                        let e4 = A3::spec_endianness_after(x3, e3);
                                        let c4 = (n0 + n1 + n2 + n3) as nat;
                                        match A4::spec_decode(input.skip(c4 as int), e4, pos + c4) {
                                            Err(f) => Err(f),
                                            Ok((x4, n4)) => {
                                                let e5 = A4::spec_endianness_after(x4, e4);
                                                let c5 = (n0 + n1 + n2 + n3 + n4) as nat;
                                                match A5::spec_decode(input.skip(c5 as int), e5, pos + c5) {
                                                    Err(f) => Err(f),
                                                    Ok((x5, n5)) => {
                                                        let e6 = A5::spec_endianness_after(x5, e5);
                                                        let c6 = (n0 + n1 + n2 + n3 + n4 + n5) as nat;
                                                        match A6::spec_decode(input.skip(c6 as int), e6, pos + c6) {
                                                            Err(f) => Err(f),
                                                            Ok((x6, n6)) => {
                                                                Ok(((x0, x1, x2, x3, x4, x5, x6, ), (n0 + n1 + n2 + n3 + n4 + n5 + n6) as nat))
                                                            },
                                                        }
                                                    },
                                                }
                                            },
                                        }
                                    },
                                }
                            },
                        }
                    },
                }
            },
        }
    }

    fn code() -> (c: u8) {
        0
    }

    fn signature() -> (s: String) {
        let mut s = String::new();
        let part = A0::signature();
        push_str(&mut s, part.as_str());
        let part = A1::signature();
        push_str(&mut s, part.as_str());
        let part = A2::signature();
        push_str(&mut s, part.as_str());
        let part = A3::signature();
        push_str(&mut s, part.as_str());
        let part = A4::signature();
        push_str(&mut s, part.as_str());
        let part = A5::signature();
        push_str(&mut s, part.as_str());
        let part = A6::signature();
        push_str(&mut s, part.as_str());
        assert(s@ =~= A0::spec_signature() + A1::spec_signature() + A2::spec_signature() + A3::spec_signature() + A4::spec_signature() + A5::spec_signature() + A6::spec_signature());
        s
    }

    fn alignment() -> (a: u8) {
        1
    }

    fn encode(&self, marshaller: &mut Marshaller) -> (r: Result<(), Error>) {
        let ghost m0 = *marshaller;
        let ghost v = self.deep_view();
        let ghost e = m0.spec_endianness();
        let ghost pos = m0.spec_write_pos();
        assert(self.0.deep_view() == v.0);
        self.0.encode(marshaller);
        assert(self.1.deep_view() == v.1);
        self.1.encode(marshaller);
        assert(self.2.deep_view() == v.2);
        self.2.encode(marshaller);
        assert(self.3.deep_view() == v.3);
        self.3.encode(marshaller);
        assert(self.4.deep_view() == v.4);
        self.4.encode(marshaller);
        assert(self.5.deep_view() == v.5);
        self.5.encode(marshaller);
        assert(self.6.deep_view() == v.6);
        self.6.encode(marshaller);
        assert(marshaller.spec_bytes() =~= m0.spec_bytes() + Self::spec_encode(v, e, pos));
        Ok(())
    }

    fn decode(marshaller: &mut Marshaller) -> (r: Result<Self, Error>) {
        let ghost m0 = *marshaller;
        let ghost input = m0.spec_bytes();
        let ghost e = m0.spec_endianness();
        let ghost pos = m0.spec_read_pos();
        let ghost s0 = *marshaller;
        proof {
            assert(s0.spec_bytes() =~= input.skip((s0.spec_read_pos() - pos) as int));
        }
        let x0 = A0::decode(marshaller)?;
        let ghost s1 = *marshaller;
        proof {
            assert(s1.spec_bytes() =~= input.skip((s1.spec_read_pos() - pos) as int));
        }
        let x1 = A1::decode(marshaller)?;
        let ghost s2 = *marshaller;
        proof {
            assert(s2.spec_bytes() =~= input.skip((s2.spec_read_pos() - pos) as int));
        }
        let x2 = A2::decode(marshaller)?;
        let ghost s3 = *marshaller;
        proof {
            assert(s3.spec_bytes() =~= input.skip((s3.spec_read_pos() - pos) as int));
        }
        let x3 = A3::decode(marshaller)?;
        let ghost s4 = *marshaller;
        proof {
            assert(s4.spec_bytes() =~= input.skip((s4.spec_read_pos() - pos) as int));
        }
        let x4 = A4::decode(marshaller)?;
        let ghost s5 = *marshaller;
        proof {
            assert(s5.spec_bytes() =~= input.skip((s5.spec_read_pos() - pos) as int));
        }
        let x5 = A5::decode(marshaller)?;
        let ghost s6 = *marshaller;
        proof {
            assert(s6.spec_bytes() =~= input.skip((s6.spec_read_pos() - pos) as int));
        }
        let x6 = A6::decode(marshaller)?;
        let ghost mk = *marshaller;
        proof {
            assert(mk.spec_bytes() =~= input.skip((mk.spec_read_pos() - pos) as int));
        }
        Ok((x0, x1, x2, x3, x4, x5, x6))
    }

    proof fn lemma_decode_within(input: Seq<u8>, e: Endianness, pos: nat) {
        let e0 = e;
        let c0 = (0) as nat;
        A0::lemma_decode_within(input.skip(c0 as int), e0, pos + c0);
        if let Ok((x0, n0)) = A0::spec_decode(input.skip(c0 as int), e0, pos + c0) {
            if c0 + n0 <= input.len() {
                let e1 = A0::spec_endianness_after(x0, e0);
                let c1 = (n0) as nat;
                A1::lemma_decode_within(input.skip(c1 as int), e1, pos + c1);
                if let Ok((x1, n1)) = A1::spec_decode(input.skip(c1 as int), e1, pos + c1) {
                    if c1 + n1 <= input.len() {
                        let e2 = A1::spec_endianness_after(x1, e1);
                        let c2 = (n0 + n1) as nat;
                        A2::lemma_decode_within(input.skip(c2 as int), e2, pos + c2);
                        if let Ok((x2, n2)) = A2::spec_decode(input.skip(c2 as int), e2, pos + c2) {
                            if c2 + n2 <= input.len() {
                                let e3 = A2::spec_endianness_after(x2, e2);
                                let c3 = (n0 + n1 + n2) as nat;
                                A3::lemma_decode_within(input.skip(c3 as int), e3, pos + c3);
                                if let Ok((x3, n3)) = A3::spec_decode(input.skip(c3 as int), e3, pos + c3) {
                                    if c3 + n3 <= input.len() {
                                        let e4 = A3::spec_endianness_after(x3, e3);
                                        let c4 = (n0 + n1 + n2 + n3) as nat;
                                        A4::lemma_decode_within(input.skip(c4 as int), e4, pos + c4);
                                        if let Ok((x4, n4)) = A4::spec_decode(input.skip(c4 as int), e4, pos + c4) {
                                            if c4 + n4 <= input.len() {
                                                let e5 = A4::spec_endianness_after(x4, e4);
                                                let c5 = (n0 + n1 + n2 + n3 + n4) as nat;
                                                A5::lemma_decode_within(input.skip(c5 as int), e5, pos + c5);
                                                if let Ok((x5, n5)) = A5::spec_decode(input.skip(c5 as int), e5, pos + c5) {
                                                    if c5 + n5 <= input.len() {
                                                        let e6 = A5::spec_endianness_after(x5, e5);
                                                        let c6 = (n0 + n1 + n2 + n3 + n4 + n5) as nat;
                                                        A6::lemma_decode_within(input.skip(c6 as int), e6, pos + c6);
                                                        if let Ok((x6, n6)) = A6::spec_decode(input.skip(c6 as int), e6, pos + c6) {
                                                            if c6 + n6 <= input.len() {
                                                            }
                                                        }
                                                    }
                                                }
                                            }
                                        }
                                    }
                                }
                            }
                        }
                    }
                }
            }
        }
    }

    proof fn lemma_roundtrip(v: (A0::V, A1::V, A2::V, A3::V, A4::V, A5::V, A6::V), e: Endianness, pos: nat, rest: Seq<u8>) {
        let e0 = e;
        let p0 = pos;
        let b0 = A0::spec_encode(v.0, e0, p0);
        let e1 = A0::spec_endianness_after(v.0, e0);
        let p1 = p0 + b0.len();
        let b1 = A1::spec_encode(v.1, e1, p1);
        let e2 = A1::spec_endianness_after(v.1, e1);
        let p2 = p1 + b1.len();
        let b2 = A2::spec_encode(v.2, e2, p2);
        let e3 = A2::spec_endianness_after(v.2, e2);
        let p3 = p2 + b2.len();
        let b3 = A3::spec_encode(v.3, e3, p3);
        let e4 = A3::spec_endianness_after(v.3, e3);
        let p4 = p3 + b3.len();
        let b4 = A4::spec_encode(v.4, e4, p4);
        let e5 = A4::spec_endianness_after(v.4, e4);
        let p5 = p4 + b4.len();
        let b5 = A5::spec_encode(v.5, e5, p5);
        let e6 = A5::spec_endianness_after(v.5, e5);
        let p6 = p5 + b5.len();
        let b6 = A6::spec_encode(v.6, e6, p6);
        let e7 = A6::spec_endianness_after(v.6, e6);
        let p7 = p6 + b6.len();
        let t6 = rest;
        let t5 = b6 + t6;
        let t4 = b5 + t5;
        let t3 = b4 + t4;
        let t2 = b3 + t3;
        let t1 = b2 + t2;
        let t0 = b1 + t1;
        let all = Self::spec_encode(v, e, pos) + rest;
        vstd::seq_lib::lemma_concat_associative(b0 + b1 + b2 + b3 + b4 + b5, b6, t6);
        vstd::seq_lib::lemma_concat_associative(b0 + b1 + b2 + b3 + b4, b5, t5);
        vstd::seq_lib::lemma_concat_associative(b0 + b1 + b2 + b3, b4, t4);
        vstd::seq_lib::lemma_concat_associative(b0 + b1 + b2, b3, t3);
        vstd::seq_lib::lemma_concat_associative(b0 + b1, b2, t2);
        vstd::seq_lib::lemma_concat_associative(b0, b1, t1);
        assert(all.skip(0) =~= b0 + t0);
        A0::lemma_roundtrip(v.0, e0, p0, t0);
        crate::types::field::lemma_skip_past(all, (0) as int, b0, t0);
        A1::lemma_roundtrip(v.1, e1, p1, t1);
        crate::types::field::lemma_skip_past(all, (b0.len()) as int, b1, t1);
        A2::lemma_roundtrip(v.2, e2, p2, t2);
        crate::types::field::lemma_skip_past(all, (b0.len() + b1.len()) as int, b2, t2);
        A3::lemma_roundtrip(v.3, e3, p3, t3);
        crate::types::field::lemma_skip_past(all, (b0.len() + b1.len() + b2.len()) as int, b3, t3);
        A4::lemma_roundtrip(v.4, e4, p4, t4);
        crate::types::field::lemma_skip_past(all, (b0.len() + b1.len() + b2.len() + b3.len()) as int, b4, t4);
        A5::lemma_roundtrip(v.5, e5, p5, t5);
        crate::types::field::lemma_skip_past(all, (b0.len() + b1.len() + b2.len() + b3.len() + b4.len()) as int, b5, t5);
        A6::lemma_roundtrip(v.6, e6, p6, t6);
    }
}

/// The signature of a tuple of 7 is its elements' signatures joined in
/// order, with no parentheses, whether it is read as a value or as packed
/// types.
pub proof fn lemma_tuple7_signature<A0: DBusType, A1: DBusType, A2: DBusType, A3: DBusType, A4: DBusType, A5: DBusType, A6: DBusType>()
    ensures
        <(A0, A1, A2, A3, A4, A5, A6,) as DBusType>::spec_signature() =~= A0::spec_signature() + A1::spec_signature() + A2::spec_signature() + A3::spec_signature() + A4::spec_signature() + A5::spec_signature() + A6::spec_signature(),
        <(A0, A1, A2, A3, A4, A5, A6,) as DBusPackedTypes>::spec_packed_signature() =~= A0::spec_signature() + A1::spec_signature() + A2::spec_signature() + A3::spec_signature() + A4::spec_signature() + A5::spec_signature() + A6::spec_signature(),
{
}

impl<A0: DBusType, A1: DBusType, A2: DBusType, A3: DBusType, A4: DBusType, A5: DBusType, A6: DBusType> DBusPackedTypes for (A0, A1, A2, A3, A4, A5, A6,) {
    open spec fn spec_packed_signature() -> Seq<char> {
        A0::spec_signature() + A1::spec_signature() + A2::spec_signature() + A3::spec_signature() + A4::spec_signature() + A5::spec_signature() + A6::spec_signature()
    }

    fn signature() -> (s: String) {
        let mut s = String::new();
        let part = A0::signature();
        push_str(&mut s, part.as_str());
        let part = A1::signature();
        push_str(&mut s, part.as_str());
        let part = A2::signature();
        push_str(&mut s, part.as_str());
        let part = A3::signature();
        push_str(&mut s, part.as_str());
        let part = A4::signature();
        push_str(&mut s, part.as_str());
        let part = A5::signature();
        push_str(&mut s, part.as_str());
        let part = A6::signature();
        push_str(&mut s, part.as_str());
        assert(s@ =~= A0::spec_signature() + A1::spec_signature() + A2::spec_signature() + A3::spec_signature() + A4::spec_signature() + A5::spec_signature() + A6::spec_signature());
        s
    }
}

impl<A0: DBusType, A1: DBusType, A2: DBusType, A3: DBusType, A4: DBusType, A5: DBusType, A6: DBusType, A7: DBusType> DBusType for (A0, A1, A2, A3, A4, A5, A6, A7,) {
    open spec fn spec_code() -> u8 {
        0u8
    }

    open spec fn spec_signature() -> Seq<char> {
        A0::spec_signature() + A1::spec_signature() + A2::spec_signature() + A3::spec_signature() + A4::spec_signature() + A5::spec_signature() + A6::spec_signature() + A7::spec_signature()
    }

    open spec fn spec_alignment() -> u8 {
        1u8
    }

    open spec fn spec_well_formed(v: (A0::V, A1::V, A2::V, A3::V, A4::V, A5::V, A6::V, A7::V)) -> bool {
        A0::spec_well_formed(v.0) && A1::spec_well_formed(v.1) && A2::spec_well_formed(v.2) && A3::spec_well_formed(v.3) && A4::spec_well_formed(v.4) && A5::spec_well_formed(v.5) && A6::spec_well_formed(v.6) && A7::spec_well_formed(v.7)
    }

    open spec fn spec_encode(v: (A0::V, A1::V, A2::V, A3::V, A4::V, A5::V, A6::V, A7::V), e: Endianness, pos: nat) -> Seq<u8> {
        let e0 = e;
        let p0 = pos;
        let b0 = A0::spec_encode(v.0, e0, p0);
        let e1 = A0::spec_endianness_after(v.0, e0);
        let p1 = p0 + b0.len();
        let b1 = A1::spec_encode(v.1, e1, p1);
        let e2 = A1::spec_endianness_after(v.1, e1);
        let p2 = p1 + b1.len();
        let b2 = A2::spec_encode(v.2, e2, p2);
        let e3 = A2::spec_endianness_after(v.2, e2);
        let p3 = p2 + b2.len();
        let b3 = A3::spec_encode(v.3, e3, p3);
        let e4 = A3::spec_endianness_after(v.3, e3);
        let p4 = p3 + b3.len();
        let b4 = A4::spec_encode(v.4, e4, p4);
        let e5 = A4::spec_endianness_after(v.4, e4);
        let p5 = p4 + b4.len();
        let b5 = A5::spec_encode(v.5, e5, p5);
        let e6 = A5::spec_endianness_after(v.5, e5);
        let p6 = p5 + b5.len();
        let b6 = A6::spec_encode(v.6, e6, p6);
        let e7 = A6::spec_endianness_after(v.6, e6);
        let p7 = p6 + b6.len();
        let b7 = A7::spec_encode(v.7, e7, p7);
        let e8 = A7::spec_endianness_after(v.7, e7);
        let p8 = p7 + b7.len();
        b0 + b1 + b2 + b3 + b4 + b5 + b6 + b7
    }

    open spec fn spec_endianness_after(v: (A0::V, A1::V, A2::V, A3::V, A4::V, A5::V, A6::V, A7::V), e: Endianness) -> Endianness {
        A7::spec_endianness_after(v.7, A6::spec_endianness_after(v.6, A5::spec_endianness_after(v.5, A4::spec_endianness_after(v.4, A3::spec_endianness_after(v.3, A2::spec_endianness_after(v.2, A1::spec_endianness_after(v.1, A0::spec_endianness_after(v.0, e))))))))
    }

    open spec fn spec_decode(input: Seq<u8>, e: Endianness, pos: nat) -> Result<((A0::V, A1::V, A2::V, A3::V, A4::V, A5::V, A6::V, A7::V), nat), Failure> {
        let e0 = e;
        let c0 = (0) as nat;
        match A0::spec_decode(input.skip(c0 as int), e0, pos + c0) {
            Err(f) => Err(f),
            Ok((x0, n0)) => {
                let e1 = A0::spec_endianness_after(x0, e0);
                let c1 = (n0) as nat;
                match A1::spec_decode(input.skip(c1 as int), e1, pos + c1) {
                    Err(f) => Err(f),
                    Ok((x1, n1)) => {
                        let e2 = A1::spec_endianness_after(x1, e1);
                        let c2 = (n0 + n1) as nat;
                        match A2::spec_decode(input.skip(c2 as int), e2, pos + c2) {
                            Err(f) => Err(f),
                            Ok((x2, n2)) => {
                                let e3 = A2::spec_endianness_after(x2, e2);
                                let c3 = (n0 + n1 + n2) as nat;
                                match A3::spec_decode(input.skip(c3 as int), e3, pos + c3) {
                                    Err(f) => Err(f),
                                    Ok((x3, n3)) => {
                                        let e4 = A3::spec_endianness_after(x3, e3);
                                        let c4 = (n0 + n1 + n2 + n3) as nat;
                                        match A4::spec_decode(input.skip(c4 as int), e4, pos + c4) {
                                            Err(f) => Err(f),
                                            Ok((x4, n4)) => {
                                                let e5 = A4::spec_endianness_after(x4, e4);
                                                let c5 = (n0 + n1 + n2 + n3 + n4) as nat;
                                                match A5::spec_decode(input.skip(c5 as int), e5, pos + c5) {
                                                    Err(f) => Err(f),
                                                    Ok((x5, n5)) => {
                                                        let e6 = A5::spec_endianness_after(x5, e5);
                                                        let c6 = (n0 + n1 + n2 + n3 + n4 + n5) as nat;
                                                        match A6::spec_decode(input.skip(c6 as int), e6, pos + c6) {
                                                            Err(f) => Err(f),
                                                            Ok((x6, n6)) => {
                                                                let e7 = A6::spec_endianness_after(x6, e6);
                                                                let c7 = (n0 + n1 + n2 + n3 + n4 + n5 + n6) as nat;
                                                                match A7::spec_decode(input.skip(c7 as int), e7, pos + c7) {
                                                                    Err(f) => Err(f),
                                                                    Ok((x7, n7)) => {
                                                                        Ok(((x0, x1, x2, x3, x4, x5, x6, x7, ), (n0 + n1 + n2 + n3 + n4 + n5 + n6 + n7) as nat))
                                                                    },
                                                                }
                                                            },
                                                        }
                                                    },
                                                }
                                            },
                                        }
                                    },
                                }
                            },
                        }
                    },
                }
            },
        }
    }

    fn code() -> (c: u8) {
        0
    }

    fn signature() -> (s: String) {
        let mut s = String::new();
        let part = A0::signature();
        push_str(&mut s, part.as_str());
        let part = A1::signature();
        push_str(&mut s, part.as_str());
        let part = A2::signature();
        push_str(&mut s, part.as_str());
        let part = A3::signature();
        push_str(&mut s, part.as_str());
        let part = A4::signature();
        push_str(&mut s, part.as_str());
        let part = A5::signature();
        push_str(&mut s, part.as_str());
        let part = A6::signature();
        push_str(&mut s, part.as_str());
        let part = A7::signature();
        push_str(&mut s, part.as_str());
        assert(s@ =~= A0::spec_signature() + A1::spec_signature() + A2::spec_signature() + A3::spec_signature() + A4::spec_signature() + A5::spec_signature() + A6::spec_signature() + A7::spec_signature());
        s
    }

    fn alignment() -> (a: u8) {
        1
    }

    fn encode(&self, marshaller: &mut Marshaller) -> (r: Result<(), Error>) {
        let ghost m0 = *marshaller;
        let ghost v = self.deep_view();
        let ghost e = m0.spec_endianness();
        let ghost pos = m0.spec_write_pos();
        assert(self.0.deep_view() == v.0);
        self.0.encode(marshaller);
        assert(self.1.deep_view() == v.1);
        self.1.encode(marshaller);
        assert(self.2.deep_view() == v.2);
        self.2.encode(marshaller);
        assert(self.3.deep_view() == v.3);
        self.3.encode(marshaller);
        assert(self.4.deep_view() == v.4);
        self.4.encode(marshaller);
        assert(self.5.deep_view() == v.5);
        self.5.encode(marshaller);
        assert(self.6.deep_view() == v.6);
        self.6.encode(marshaller);
        assert(self.7.deep_view() == v.7);
        self.7.encode(marshaller);
        assert(marshaller.spec_bytes() =~= m0.spec_bytes() + Self::spec_encode(v, e, pos));
        Ok(())
    }

    fn decode(marshaller: &mut Marshaller) -> (r: Result<Self, Error>) {
        let ghost m0 = *marshaller;
        let ghost input = m0.spec_bytes();
        let ghost e = m0.spec_endianness();
        let ghost pos = m0.spec_read_pos();
        let ghost s0 = *marshaller;
        proof {
            assert(s0.spec_bytes() =~= input.skip((s0.spec_read_pos() - pos) as int));
        }
        let x0 = A0::decode(marshaller)?;
        let ghost s1 = *marshaller;
        proof {
            assert(s1.spec_bytes() =~= input.skip((s1.spec_read_pos() - pos) as int));
        }
        let x1 = A1::decode(marshaller)?;
        let ghost s2 = *marshaller;
        proof {
            assert(s2.spec_bytes() =~= input.skip((s2.spec_read_pos() - pos) as int));
        }
        let x2 = A2::decode(marshaller)?;
        let ghost s3 = *marshaller;
        proof {
            assert(s3.spec_bytes() =~= input.skip((s3.spec_read_pos() - pos) as int));
        }
        let x3 = A3::decode(marshaller)?;
        let ghost s4 = *marshaller;
        proof {
            assert(s4.spec_bytes() =~= input.skip((s4.spec_read_pos() - pos) as int));
        }
        let x4 = A4::decode(marshaller)?;
        let ghost s5 = *marshaller;
        proof {
            assert(s5.spec_bytes() =~= input.skip((s5.spec_read_pos() - pos) as int));
        }
        let x5 = A5::decode(marshaller)?;
        let ghost s6 = *marshaller;
        proof {
            assert(s6.spec_bytes() =~= input.skip((s6.spec_read_pos() - pos) as int));
        }
        let x6 = A6::decode(marshaller)?;
        let ghost s7 = *marshaller;
        proof {
            assert(s7.spec_bytes() =~= input.skip((s7.spec_read_pos() - pos) as int));
        }
        let x7 = A7::decode(marshaller)?;
        let ghost mk = *marshaller;
        proof {
            assert(mk.spec_bytes() =~= input.skip((mk.spec_read_pos() - pos) as int));
        }
        Ok((x0, x1, x2, x3, x4, x5, x6, x7))
    }

    proof fn lemma_decode_within(input: Seq<u8>, e: Endianness, pos: nat) {
        let e0 = e;
        let c0 = (0) as nat;
        A0::lemma_decode_within(input.skip(c0 as int), e0, pos + c0);
        if let Ok((x0, n0)) = A0::spec_decode(input.skip(c0 as int), e0, pos + c0) {
            if c0 + n0 <= input.len() {
                let e1 = A0::spec_endianness_after(x0, e0);
                let c1 = (n0) as nat;
                A1::lemma_decode_within(input.skip(c1 as int), e1, pos + c1);
                if let Ok((x1, n1)) = A1::spec_decode(input.skip(c1 as int), e1, pos + c1) {
                    if c1 + n1 <= input.len() {
                        let e2 = A1::spec_endianness_after(x1, e1);
                        let c2 = (n0 + n1) as nat;
                        A2::lemma_decode_within(input.skip(c2 as int), e2, pos + c2);
                        if let Ok((x2, n2)) = A2::spec_decode(input.skip(c2 as int), e2, pos + c2) {
                            if c2 + n2 <= input.len() {
                                let e3 = A2::spec_endianness_after(x2, e2);
                                let c3 = (n0 + n1 + n2) as nat;
                                A3::lemma_decode_within(input.skip(c3 as int), e3, pos + c3);
                                if let Ok((x3, n3)) = A3::spec_decode(input.skip(c3 as int), e3, pos + c3) {
                                    if c3 + n3 <= input.len() {
                                        let e4 = A3::spec_endianness_after(x3, e3);
                                        let c4 = (n0 + n1 + n2 + n3) as nat;
                                        A4::lemma_decode_within(input.skip(c4 as int), e4, pos + c4);
                                        if let Ok((x4, n4)) = A4::spec_decode(input.skip(c4 as int), e4, pos + c4) {
                                            if c4 + n4 <= input.len() {
                                                let e5 = A4::spec_endianness_after(x4, e4);
                                                let c5 = (n0 + n1 + n2 + n3 + n4) as nat;
                                                A5::lemma_decode_within(input.skip(c5 as int), e5, pos + c5);
                                                if let Ok((x5, n5)) = A5::spec_decode(input.skip(c5 as int), e5, pos + c5) {
                                                    if c5 + n5 <= input.len() {
                                                        let e6 = A5::spec_endianness_after(x5, e5);
                                                        let c6 = (n0 + n1 + n2 + n3 + n4 + n5) as nat;
                                                        A6::lemma_decode_within(input.skip(c6 as int), e6, pos + c6);
                                                        if let Ok((x6, n6)) = A6::spec_decode(input.skip(c6 as int), e6, pos + c6) {
                                                            if c6 + n6 <= input.len() {
                                                                let e7 = A6::spec_endianness_after(x6, e6);
                                                                let c7 = (n0 + n1 + n2 + n3 + n4 + n5 + n6) as nat;
                                                                A7::lemma_decode_within(input.skip(c7 as int), e7, pos + c7);
                                                                if let Ok((x7, n7)) = A7::spec_decode(input.skip(c7 as int), e7, pos + c7) {
                                                                    if c7 + n7 <= input.len() {
                                                                    }
                                                                }
                                                            }
                                                        }
                                                    }
                                                }
                                            }
                                        }
                                    }
                                }
                            }
                        }
                    }
                }
            }
        }
    }

    proof fn lemma_roundtrip(v: (A0::V, A1::V, A2::V, A3::V, A4::V, A5::V, A6::V, A7::V), e: Endianness, pos: nat, rest: Seq<u8>) {
        let e0 = e;
        let p0 = pos;
        let b0 = A0::spec_encode(v.0, e0, p0);
        let e1 = A0::spec_endianness_after(v.0, e0);
        let p1 = p0 + b0.len();
        let b1 = A1::spec_encode(v.1, e1, p1);
        let e2 = A1::spec_endianness_after(v.1, e1);
        let p2 = p1 + b1.len();
        let b2 = A2::spec_encode(v.2, e2, p2);
        let e3 = A2::spec_endianness_after(v.2, e2);
        let p3 = p2 + b2.len();
        let b3 = A3::spec_encode(v.3, e3, p3);
        let e4 = A3::spec_endianness_after(v.3, e3);
        let p4 = p3 + b3.len();
        let b4 = A4::spec_encode(v.4, e4, p4);
        let e5 = A4::spec_endianness_after(v.4, e4);
        let p5 = p4 + b4.len();
        let b5 = A5::spec_encode(v.5, e5, p5);
        let e6 = A5::spec_endianness_after(v.5, e5);
        let p6 = p5 + b5.len();
        let b6 = A6::spec_encode(v.6, e6, p6);
        let e7 = A6::spec_endianness_after(v.6, e6);
        let p7 = p6 + b6.len();
        let b7 = A7::spec_encode(v.7, e7, p7);
        let e8 = A7::spec_endianness_after(v.7, e7);
        let p8 = p7 + b7.len();
        let t7 = rest;
        let t6 = b7 + t7;
        let t5 = b6 + t6;
        let t4 = b5 + t5;
        let t3 = b4 + t4;
        let t2 = b3 + t3;
        let t1 = b2 + t2;
        let t0 = b1 + t1;
        let all = Self::spec_encode(v, e, pos) + rest;
        vstd::seq_lib::lemma_concat_associative(b0 + b1 + b2 + b3 + b4 + b5 + b6, b7, t7);
        vstd::seq_lib::lemma_concat_associative(b0 + b1 + b2 + b3 + b4 + b5, b6, t6);
        vstd::seq_lib::lemma_concat_associative(b0 + b1 + b2 + b3 + b4, b5, t5);
        vstd::seq_lib::lemma_concat_associative(b0 + b1 + b2 + b3, b4, t4);
        vstd::seq_lib::lemma_concat_associative(b0 + b1 + b2, b3, t3);
        vstd::seq_lib::lemma_concat_associative(b0 + b1, b2, t2);
        vstd::seq_lib::lemma_concat_associative(b0, b1, t1);
        assert(all.skip(0) =~= b0 + t0);
        A0::lemma_roundtrip(v.0, e0, p0, t0);
        crate::types::field::lemma_skip_past(all, (0) as int, b0, t0);
        A1::lemma_roundtrip(v.1, e1, p1, t1);
        crate::types::field::lemma_skip_past(all, (b0.len()) as int, b1, t1);
        A2::lemma_roundtrip(v.2, e2, p2, t2);
        crate::types::field::lemma_skip_past(all, (b0.len() + b1.len()) as int, b2, t2);
        A3::lemma_roundtrip(v.3, e3, p3, t3);
        crate::types::field::lemma_skip_past(all, (b0.len() + b1.len() + b2.len()) as int, b3, t3);
        A4::lemma_roundtrip(v.4, e4, p4, t4);
        crate::types::field::lemma_skip_past(all, (b0.len() + b1.len() + b2.len() + b3.len()) as int, b4, t4);
        A5::lemma_roundtrip(v.5, e5, p5, t5);
        crate::types::field::lemma_skip_past(all, (b0.len() + b1.len() + b2.len() + b3.len() + b4.len()) as int, b5, t5);
        A6::lemma_roundtrip(v.6, e6, p6, t6);
        crate::types::field::lemma_skip_past(all, (b0.len() + b1.len() + b2.len() + b3.len() + b4.len() + b5.len()) as int, b6, t6);
        A7::lemma_roundtrip(v.7, e7, p7, t7);
    }
}

/// The signature of a tuple of 8 is its elements' signatures joined in
/// order, with no parentheses, whether it is read as a value or as packed
/// types.
pub proof fn lemma_tuple8_signature<A0: DBusType, A1: DBusType, A2: DBusType, A3: DBusType, A4: DBusType, A5: DBusType, A6: DBusType, A7: DBusType>()
    ensures
        <(A0, A1, A2, A3, A4, A5, A6, A7,) as DBusType>::spec_signature() =~= A0::spec_signature() + A1::spec_signature() + A2::spec_signature() + A3::spec_signature() + A4::spec_signature() + A5::spec_signature() + A6::spec_signature() + A7::spec_signature(),
        <(A0, A1, A2, A3, A4, A5, A6, A7,) as DBusPackedTypes>::spec_packed_signature() =~= A0::spec_signature() + A1::spec_signature() + A2::spec_signature() + A3::spec_signature() + A4::spec_signature() + A5::spec_signature() + A6::spec_signature() + A7::spec_signature(),
{
}

impl<A0: DBusType, A1: DBusType, A2: DBusType, A3: DBusType, A4: DBusType, A5: DBusType, A6: DBusType, A7: DBusType> DBusPackedTypes for (A0, A1, A2, A3, A4, A5, A6, A7,) {
    open spec fn spec_packed_signature() -> Seq<char> {
        A0::spec_signature() + A1::spec_signature() + A2::spec_signature() + A3::spec_signature() + A4::spec_signature() + A5::spec_signature() + A6::spec_signature() + A7::spec_signature()
    }

    fn signature() -> (s: String) {
        let mut s = String::new();
        let part = A0::signature();
        push_str(&mut s, part.as_str());
        let part = A1::signature();
        push_str(&mut s, part.as_str());
        let part = A2::signature();
        push_str(&mut s, part.as_str());
        let part = A3::signature();
        push_str(&mut s, part.as_str());
        let part = A4::signature();
        push_str(&mut s, part.as_str());
        let part = A5::signature();
        push_str(&mut s, part.as_str());
        let part = A6::signature();
        push_str(&mut s, part.as_str());
        let part = A7::signature();
        push_str(&mut s, part.as_str());
        assert(s@ =~= A0::spec_signature() + A1::spec_signature() + A2::spec_signature() + A3::spec_signature() + A4::spec_signature() + A5::spec_signature() + A6::spec_signature() + A7::spec_signature());
        s
    }
}

} // verus!
