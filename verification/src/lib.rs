//! D-Bus wire format: type signatures, alignment, and the marshalling of
//! values to and from byte buffers.

pub mod derive;
pub mod error;
pub mod marshal;
pub mod message;
pub mod types;

pub use error::Error;

use crate::marshal::Marshaller;
use crate::message::Endianness;
use crate::types::field::{
    lemma_padded_roundtrip, lemma_padded_within, padded_decode, padded_encode, read_padded,
    write_padded,
};
use crate::types::string::push_str;
use crate::types::{DBusType, Failure};
use vstd::prelude::*;

verus! {

/// A structure of a byte, an array of 16-bit values and a string.
#[derive(Debug, Clone)]
pub struct Test(u8, Vec<u16>, String);

/// A structure of two `Test` values and an array of strings.
#[derive(Debug, Clone)]
pub struct Inner(Test, Test, Vec<String>);

/// A structure of a byte and a string.
#[derive(Debug, Clone)]
pub struct Arg(u8, String);

impl DeepView for Test {
    type V = (u8, Seq<u16>, Seq<char>);

    closed spec fn deep_view(&self) -> Self::V {
        (self.0, self.1.deep_view(), self.2@)
    }
}

impl Test {
    pub fn new(a: u8, b: Vec<u16>, c: String) -> (t: Test)
        ensures
            t.deep_view() == (a, b.deep_view(), c@),
    {
        Test(a, b, c)
    }
}

impl DeepView for Inner {
    type V = ((u8, Seq<u16>, Seq<char>), (u8, Seq<u16>, Seq<char>), Seq<Seq<char>>);

    closed spec fn deep_view(&self) -> Self::V {
        (self.0.deep_view(), self.1.deep_view(), self.2.deep_view())
    }
}

impl Inner {
    pub fn new(a: Test, b: Test, c: Vec<String>) -> (t: Inner)
        ensures
            t.deep_view() == (a.deep_view(), b.deep_view(), c.deep_view()),
    {
        Inner(a, b, c)
    }
}

impl DeepView for Arg {
    type V = (u8, Seq<char>);

    closed spec fn deep_view(&self) -> Self::V {
        (self.0, self.1@)
    }
}

impl Arg {
    pub fn new(a: u8, b: String) -> (t: Arg)
        ensures
            t.deep_view() == (a, b@),
    {
        Arg(a, b)
    }
}
impl DBusType for Test {
    open spec fn spec_code() -> u8 {
        114u8
    }

    open spec fn spec_signature() -> Seq<char> {
        seq!['('] + u8::spec_signature() + <Vec<u16>>::spec_signature() + String::spec_signature() + seq![')']
    }

    open spec fn spec_alignment() -> u8 {
        8u8
    }

    open spec fn spec_well_formed(v: (u8, Seq<u16>, Seq<char>)) -> bool {
        u8::spec_well_formed(v.0) && <Vec<u16>>::spec_well_formed(v.1) && String::spec_well_formed(v.2)
    }

    open spec fn spec_encode(v: (u8, Seq<u16>, Seq<char>), e: Endianness, pos: nat) -> Seq<u8> {
        let e0 = e;
        let p0 = pos;
        let b0 = padded_encode::<u8>(u8::spec_alignment(), v.0, e0, p0);
        let e1 = u8::spec_endianness_after(v.0, e0);
        let p1 = p0 + b0.len();
        let b1 = padded_encode::<Vec<u16>>(<Vec<u16>>::spec_alignment(), v.1, e1, p1);
        let e2 = <Vec<u16>>::spec_endianness_after(v.1, e1);
        let p2 = p1 + b1.len();
        let b2 = padded_encode::<String>(String::spec_alignment(), v.2, e2, p2);
        let e3 = String::spec_endianness_after(v.2, e2);
        let p3 = p2 + b2.len();
        b0 + b1 + b2
    }

    open spec fn spec_endianness_after(v: (u8, Seq<u16>, Seq<char>), e: Endianness) -> Endianness {
        String::spec_endianness_after(v.2, <Vec<u16>>::spec_endianness_after(v.1, u8::spec_endianness_after(v.0, e)))
    }

    open spec fn spec_decode(input: Seq<u8>, e: Endianness, pos: nat) -> Result<((u8, Seq<u16>, Seq<char>), nat), Failure> {
        let e0 = e;
        let c0 = (0) as nat;
        match padded_decode::<u8>(u8::spec_alignment(), input.skip(c0 as int), e0, pos + c0) {
            Err(f) => Err(f),
            Ok((x0, n0)) => {
                let e1 = u8::spec_endianness_after(x0, e0);
                let c1 = (n0) as nat;
                match padded_decode::<Vec<u16>>(<Vec<u16>>::spec_alignment(), input.skip(c1 as int), e1, pos + c1) {
                    Err(f) => Err(f),
                    Ok((x1, n1)) => {
                        let e2 = <Vec<u16>>::spec_endianness_after(x1, e1);
                        let c2 = (n0 + n1) as nat;
                        match padded_decode::<String>(String::spec_alignment(), input.skip(c2 as int), e2, pos + c2) {
                            Err(f) => Err(f),
                            Ok((x2, n2)) => {
                                Ok(((x0, x1, x2, ), (n0 + n1 + n2) as nat))
                            },
                        }
                    },
                }
            },
        }
    }

    fn code() -> (c: u8) {
        114
    }

    fn signature() -> (s: String) {
        proof {
            reveal_strlit("(");
            reveal_strlit(")");
        }
        let mut s = "(".to_owned();
        let part0 = u8::signature();
        push_str(&mut s, part0.as_str());
        let part1 = <Vec<u16>>::signature();
        push_str(&mut s, part1.as_str());
        let part2 = String::signature();
        push_str(&mut s, part2.as_str());
        push_str(&mut s, ")");
        s
    }

    fn alignment() -> (a: u8) {
        8
    }

    fn encode(&self, marshaller: &mut Marshaller) -> (r: Result<(), Error>) {
        let ghost m0 = *marshaller;
        let ghost v = self.deep_view();
        let ghost e = m0.spec_endianness();
        let ghost pos = m0.spec_write_pos();
        assert(self.0.deep_view() == v.0);
        let align0: u8 = u8::alignment();
        write_padded(marshaller, align0, &self.0);
        assert(self.1.deep_view() == v.1);
        let align1: u8 = <Vec<u16>>::alignment();
        write_padded(marshaller, align1, &self.1);
        assert(self.2.deep_view() == v.2);
        let align2: u8 = String::alignment();
        write_padded(marshaller, align2, &self.2);
        assert(marshaller.spec_bytes() =~= m0.spec_bytes() + Self::spec_encode(v, e, pos));
        Ok(())
    }

    fn decode(marshaller: &mut Marshaller) -> (r: Result<Self, Error>) {
        let ghost m0 = *marshaller;
        let ghost input = m0.spec_bytes();
        let ghost e = m0.spec_endianness();
        let ghost pos = m0.spec_read_pos();
        let ghost s0 = *marshaller;
        proof {
            assert(s0.spec_bytes() =~= input.skip((s0.spec_read_pos() - pos) as int));
        }
        let align0: u8 = u8::alignment();
        let x0 = read_padded::<u8>(marshaller, align0)?;
        let ghost s1 = *marshaller;
        proof {
            assert(s1.spec_bytes() =~= input.skip((s1.spec_read_pos() - pos) as int));
        }
        let align1: u8 = <Vec<u16>>::alignment();
        let x1 = read_padded::<Vec<u16>>(marshaller, align1)?;
        let ghost s2 = *marshaller;
        proof {
            assert(s2.spec_bytes() =~= input.skip((s2.spec_read_pos() - pos) as int));
        }
        let align2: u8 = String::alignment();
        let x2 = read_padded::<String>(marshaller, align2)?;
        let ghost mk = *marshaller;
        proof {
            assert(mk.spec_bytes() =~= input.skip((mk.spec_read_pos() - pos) as int));
        }
        Ok(Test(x0, x1, x2))
    }

    proof fn lemma_decode_within(input: Seq<u8>, e: Endianness, pos: nat) {
        let e0 = e;
        let c0 = (0) as nat;
        lemma_padded_within::<u8>(u8::spec_alignment(), input.skip(c0 as int), e0, pos + c0);
        if let Ok((x0, n0)) = padded_decode::<u8>(u8::spec_alignment(), input.skip(c0 as int), e0, pos + c0) {
            if c0 + n0 <= input.len() {
                let e1 = u8::spec_endianness_after(x0, e0);
                let c1 = (n0) as nat;
                lemma_padded_within::<Vec<u16>>(<Vec<u16>>::spec_alignment(), input.skip(c1 as int), e1, pos + c1);
                if let Ok((x1, n1)) = padded_decode::<Vec<u16>>(<Vec<u16>>::spec_alignment(), input.skip(c1 as int), e1, pos + c1) {
                    if c1 + n1 <= input.len() {
                        let e2 = <Vec<u16>>::spec_endianness_after(x1, e1);
                        let c2 = (n0 + n1) as nat;
                        lemma_padded_within::<String>(String::spec_alignment(), input.skip(c2 as int), e2, pos + c2);
                        if let Ok((x2, n2)) = padded_decode::<String>(String::spec_alignment(), input.skip(c2 as int), e2, pos + c2) {
                            if c2 + n2 <= input.len() {
                            }
                        }
                    }
                }
            }
        }
    }

    proof fn lemma_roundtrip(v: (u8, Seq<u16>, Seq<char>), e: Endianness, pos: nat, rest: Seq<u8>) {
        let e0 = e;
        let p0 = pos;
        let b0 = padded_encode::<u8>(u8::spec_alignment(), v.0, e0, p0);
        let e1 = u8::spec_endianness_after(v.0, e0);
        let p1 = p0 + b0.len();
        let b1 = padded_encode::<Vec<u16>>(<Vec<u16>>::spec_alignment(), v.1, e1, p1);
        let e2 = <Vec<u16>>::spec_endianness_after(v.1, e1);
        let p2 = p1 + b1.len();
        let b2 = padded_encode::<String>(String::spec_alignment(), v.2, e2, p2);
        let e3 = String::spec_endianness_after(v.2, e2);
        let p3 = p2 + b2.len();
        let t2 = rest;
        let t1 = b2 + t2;
        let t0 = b1 + t1;
        let all = Self::spec_encode(v, e, pos) + rest;
        vstd::seq_lib::lemma_concat_associative(b0 + b1, b2, t2);
        vstd::seq_lib::lemma_concat_associative(b0, b1, t1);
        assert(all.skip(0) =~= b0 + t0);
        lemma_padded_roundtrip::<u8>(u8::spec_alignment(), v.0, e0, p0, t0);
        crate::types::field::lemma_skip_past(all, (0) as int, b0, t0);
        lemma_padded_roundtrip::<Vec<u16>>(<Vec<u16>>::spec_alignment(), v.1, e1, p1, t1);
        crate::types::field::lemma_skip_past(all, (b0.len()) as int, b1, t1);
        lemma_padded_roundtrip::<String>(String::spec_alignment(), v.2, e2, p2, t2);
    }
}

impl DBusType for Inner {
    open spec fn spec_code() -> u8 {
        114u8
    }

    open spec fn spec_signature() -> Seq<char> {
        seq!['('] + Test::spec_signature() + Test::spec_signature() + <Vec<String>>::spec_signature() + seq![')']
    }

    open spec fn spec_alignment() -> u8 {
        8u8
    }

    open spec fn spec_well_formed(v: ((u8, Seq<u16>, Seq<char>), (u8, Seq<u16>, Seq<char>), Seq<Seq<char>>)) -> bool {
        Test::spec_well_formed(v.0) && Test::spec_well_formed(v.1) && <Vec<String>>::spec_well_formed(v.2)
    }

    open spec fn spec_encode(v: ((u8, Seq<u16>, Seq<char>), (u8, Seq<u16>, Seq<char>), Seq<Seq<char>>), e: Endianness, pos: nat) -> Seq<u8> {
        let e0 = e;
        let p0 = pos;
        let b0 = padded_encode::<Test>(Test::spec_alignment(), v.0, e0, p0);
        let e1 = Test::spec_endianness_after(v.0, e0);
        let p1 = p0 + b0.len();
        let b1 = padded_encode::<Test>(Test::spec_alignment(), v.1, e1, p1);
        let e2 = Test::spec_endianness_after(v.1, e1);
        let p2 = p1 + b1.len();
        let b2 = padded_encode::<Vec<String>>(<Vec<String>>::spec_alignment(), v.2, e2, p2);
        let e3 = <Vec<String>>::spec_endianness_after(v.2, e2);
        let p3 = p2 + b2.len();
        b0 + b1 + b2
    }

    open spec fn spec_endianness_after(v: ((u8, Seq<u16>, Seq<char>), (u8, Seq<u16>, Seq<char>), Seq<Seq<char>>), e: Endianness) -> Endianness {
        <Vec<String>>::spec_endianness_after(v.2, Test::spec_endianness_after(v.1, Test::spec_endianness_after(v.0, e)))
    }

    open spec fn spec_decode(input: Seq<u8>, e: Endianness, pos: nat) -> Result<(((u8, Seq<u16>, Seq<char>), (u8, Seq<u16>, Seq<char>), Seq<Seq<char>>), nat), Failure> {
        let e0 = e;
        let c0 = (0) as nat;
        match padded_decode::<Test>(Test::spec_alignment(), input.skip(c0 as int), e0, pos + c0) {
            Err(f) => Err(f),
            Ok((x0, n0)) => {
                let e1 = Test::spec_endianness_after(x0, e0);
                let c1 = (n0) as nat;
                match padded_decode::<Test>(Test::spec_alignment(), input.skip(c1 as int), e1, pos + c1) {
                    Err(f) => Err(f),
                    Ok((x1, n1)) => {
                        let e2 = Test::spec_endianness_after(x1, e1);
                        let c2 = (n0 + n1) as nat;
                        match padded_decode::<Vec<String>>(<Vec<String>>::spec_alignment(), input.skip(c2 as int), e2, pos + c2) {
                            Err(f) => Err(f),
                            Ok((x2, n2)) => {
                                Ok(((x0, x1, x2, ), (n0 + n1 + n2) as nat))
                            },
                        }
                    },
                }
            },
        }
    }

    fn code() -> (c: u8) {
        114
    }

    fn signature() -> (s: String) {
        proof {
            reveal_strlit("(");
            reveal_strlit(")");
        }
        let mut s = "(".to_owned();
        let part0 = Test::signature();
        push_str(&mut s, part0.as_str());
        let part1 = Test::signature();
        push_str(&mut s, part1.as_str());
        let part2 = <Vec<String>>::signature();
        push_str(&mut s, part2.as_str());
        push_str(&mut s, ")");
        s
    }

    fn alignment() -> (a: u8) {
        8
    }

    fn encode(&self, marshaller: &mut Marshaller) -> (r: Result<(), Error>) {
        let ghost m0 = *marshaller;
        let ghost v = self.deep_view();
        let ghost e = m0.spec_endianness();
        let ghost pos = m0.spec_write_pos();
        assert(self.0.deep_view() == v.0);
        let align0: u8 = Test::alignment();
        write_padded(marshaller, align0, &self.0);
        assert(self.1.deep_view() == v.1);
        let align1: u8 = Test::alignment();
        write_padded(marshaller, align1, &self.1);
        assert(self.2.deep_view() == v.2);
        let align2: u8 = <Vec<String>>::alignment();
        write_padded(marshaller, align2, &self.2);
        assert(marshaller.spec_bytes() =~= m0.spec_bytes() + Self::spec_encode(v, e, pos));
        Ok(())
    }

    fn decode(marshaller: &mut Marshaller) -> (r: Result<Self, Error>) {
        let ghost m0 = *marshaller;
        let ghost input = m0.spec_bytes();
        let ghost e = m0.spec_endianness();
        let ghost pos = m0.spec_read_pos();
        let ghost s0 = *marshaller;
        proof {
            assert(s0.spec_bytes() =~= input.skip((s0.spec_read_pos() - pos) as int));
        }
        let align0: u8 = Test::alignment();
        let x0 = read_padded::<Test>(marshaller, align0)?;
        let ghost s1 = *marshaller;
        proof {
            assert(s1.spec_bytes() =~= input.skip((s1.spec_read_pos() - pos) as int));
        }
        let align1: u8 = Test::alignment();
        let x1 = read_padded::<Test>(marshaller, align1)?;
        let ghost s2 = *marshaller;
        proof {
            assert(s2.spec_bytes() =~= input.skip((s2.spec_read_pos() - pos) as int));
        }
        let align2: u8 = <Vec<String>>::alignment();
        let x2 = read_padded::<Vec<String>>(marshaller, align2)?;
        let ghost mk = *marshaller;
        proof {
            assert(mk.spec_bytes() =~= input.skip((mk.spec_read_pos() - pos) as int));
        }
        Ok(Inner(x0, x1, x2))
    }

    proof fn lemma_decode_within(input: Seq<u8>, e: Endianness, pos: nat) {
        let e0 = e;
        let c0 = (0) as nat;
        lemma_padded_within::<Test>(Test::spec_alignment(), input.skip(c0 as int), e0, pos + c0);
        if let Ok((x0, n0)) = padded_decode::<Test>(Test::spec_alignment(), input.skip(c0 as int), e0, pos + c0) {
            if c0 + n0 <= input.len() {
                let e1 = Test::spec_endianness_after(x0, e0);
                let c1 = (n0) as nat;
                lemma_padded_within::<Test>(Test::spec_alignment(), input.skip(c1 as int), e1, pos + c1);
                if let Ok((x1, n1)) = padded_decode::<Test>(Test::spec_alignment(), input.skip(c1 as int), e1, pos + c1) {
                    if c1 + n1 <= input.len() {
                        let e2 = Test::spec_endianness_after(x1, e1);
                        let c2 = (n0 + n1) as nat;
                        lemma_padded_within::<Vec<String>>(<Vec<String>>::spec_alignment(), input.skip(c2 as int), e2, pos + c2);
                        if let Ok((x2, n2)) = padded_decode::<Vec<String>>(<Vec<String>>::spec_alignment(), input.skip(c2 as int), e2, pos + c2) {
                            if c2 + n2 <= input.len() {
                            }
                        }
                    }
                }
            }
        }
    }

    proof fn lemma_roundtrip(v: ((u8, Seq<u16>, Seq<char>), (u8, Seq<u16>, Seq<char>), Seq<Seq<char>>), e: Endianness, pos: nat, rest: Seq<u8>) {
        let e0 = e;
        let p0 = pos;
        let b0 = padded_encode::<Test>(Test::spec_alignment(), v.0, e0, p0);
        let e1 = Test::spec_endianness_after(v.0, e0);
        let p1 = p0 + b0.len();
        let b1 = padded_encode::<Test>(Test::spec_alignment(), v.1, e1, p1);
        let e2 = Test::spec_endianness_after(v.1, e1);
        let p2 = p1 + b1.len();
        let b2 = padded_encode::<Vec<String>>(<Vec<String>>::spec_alignment(), v.2, e2, p2);
        let e3 = <Vec<String>>::spec_endianness_after(v.2, e2);
        let p3 = p2 + b2.len();
        let t2 = rest;
        let t1 = b2 + t2;
        let t0 = b1 + t1;
        let all = Self::spec_encode(v, e, pos) + rest;
        vstd::seq_lib::lemma_concat_associative(b0 + b1, b2, t2);
        vstd::seq_lib::lemma_concat_associative(b0, b1, t1);
        assert(all.skip(0) =~= b0 + t0);
        lemma_padded_roundtrip::<Test>(Test::spec_alignment(), v.0, e0, p0, t0);
        crate::types::field::lemma_skip_past(all, (0) as int, b0, t0);
        lemma_padded_roundtrip::<Test>(Test::spec_alignment(), v.1, e1, p1, t1);
        crate::types::field::lemma_skip_past(all, (b0.len()) as int, b1, t1);
        lemma_padded_roundtrip::<Vec<String>>(<Vec<String>>::spec_alignment(), v.2, e2, p2, t2);
    }
}

impl DBusType for Arg {
    open spec fn spec_code() -> u8 {
        114u8
    }

    open spec fn spec_signature() -> Seq<char> {
        seq!['('] + u8::spec_signature() + String::spec_signature() + seq![')']
    }

    open spec fn spec_alignment() -> u8 {
        8u8
    }

    open spec fn spec_well_formed(v: (u8, Seq<char>)) -> bool {
        u8::spec_well_formed(v.0) && String::spec_well_formed(v.1)
    }

    open spec fn spec_encode(v: (u8, Seq<char>), e: Endianness, pos: nat) -> Seq<u8> {
        let e0 = e;
        let p0 = pos;
        let b0 = padded_encode::<u8>(u8::spec_alignment(), v.0, e0, p0);
        let e1 = u8::spec_endianness_after(v.0, e0);
        let p1 = p0 + b0.len();
        let b1 = padded_encode::<String>(String::spec_alignment(), v.1, e1, p1);
        let e2 = String::spec_endianness_after(v.1, e1);
        let p2 = p1 + b1.len();
        b0 + b1
    }

    open spec fn spec_endianness_after(v: (u8, Seq<char>), e: Endianness) -> Endianness {
        String::spec_endianness_after(v.1, u8::spec_endianness_after(v.0, e))
    }

    open spec fn spec_decode(input: Seq<u8>, e: Endianness, pos: nat) -> Result<((u8, Seq<char>), nat), Failure> {
        let e0 = e;
        let c0 = (0) as nat;
        match padded_decode::<u8>(u8::spec_alignment(), input.skip(c0 as int), e0, pos + c0) {
            Err(f) => Err(f),
            Ok((x0, n0)) => {
                let e1 = u8::spec_endianness_after(x0, e0);
                let c1 = (n0) as nat;
                match padded_decode::<String>(String::spec_alignment(), input.skip(c1 as int), e1, pos + c1) {
                    Err(f) => Err(f),
                    Ok((x1, n1)) => {
                        Ok(((x0, x1, ), (n0 + n1) as nat))
                    },
                }
            },
        }
    }

    fn code() -> (c: u8) {
        114
    }

    fn signature() -> (s: String) {
        proof {
            reveal_strlit("(");
            reveal_strlit(")");
        }
        let mut s = "(".to_owned();
        let part0 = u8::signature();
        push_str(&mut s, part0.as_str());
        let part1 = String::signature();
        push_str(&mut s, part1.as_str());
        push_str(&mut s, ")");
        s
    }

    fn alignment() -> (a: u8) {
        8
    }

    fn encode(&self, marshaller: &mut Marshaller) -> (r: Result<(), Error>) {
        let ghost m0 = *marshaller;
        let ghost v = self.deep_view();
        let ghost e = m0.spec_endianness();
        let ghost pos = m0.spec_write_pos();
        assert(self.0.deep_view() == v.0);
        let align0: u8 = u8::alignment();
        write_padded(marshaller, align0, &self.0);
        assert(self.1.deep_view() == v.1);
        let align1: u8 = String::alignment();
        write_padded(marshaller, align1, &self.1);
        assert(marshaller.spec_bytes() =~= m0.spec_bytes() + Self::spec_encode(v, e, pos));
        Ok(())
    }

    fn decode(marshaller: &mut Marshaller) -> (r: Result<Self, Error>) {
        let ghost m0 = *marshaller;
        let ghost input = m0.spec_bytes();
        let ghost e = m0.spec_endianness();
        let ghost pos = m0.spec_read_pos();
        let ghost s0 = *marshaller;
        proof {
            assert(s0.spec_bytes() =~= input.skip((s0.spec_read_pos() - pos) as int));
        }
        let align0: u8 = u8::alignment();
        let x0 = read_padded::<u8>(marshaller, align0)?;
        let ghost s1 = *marshaller;
        proof {
            assert(s1.spec_bytes() =~= input.skip((s1.spec_read_pos() - pos) as int));
        }
        let align1: u8 = String::alignment();
        let x1 = read_padded::<String>(marshaller, align1)?;
        let ghost mk = *marshaller;
        proof {
            assert(mk.spec_bytes() =~= input.skip((mk.spec_read_pos() - pos) as int));
        }
        Ok(Arg(x0, x1))
    }

    proof fn lemma_decode_within(input: Seq<u8>, e: Endianness, pos: nat) {
        let e0 = e;
        let c0 = (0) as nat;
        lemma_padded_within::<u8>(u8::spec_alignment(), input.skip(c0 as int), e0, pos + c0);
        if let Ok((x0, n0)) = padded_decode::<u8>(u8::spec_alignment(), input.skip(c0 as int), e0, pos + c0) {
            if c0 + n0 <= input.len() {
                let e1 = u8::spec_endianness_after(x0, e0);
                let c1 = (n0) as nat;
                lemma_padded_within::<String>(String::spec_alignment(), input.skip(c1 as int), e1, pos + c1);
                if let Ok((x1, n1)) = padded_decode::<String>(String::spec_alignment(), input.skip(c1 as int), e1, pos + c1) {
                    if c1 + n1 <= input.len() {
                    }
                }
            }
        }
    }

    proof fn lemma_roundtrip(v: (u8, Seq<char>), e: Endianness, pos: nat, rest: Seq<u8>) {
        let e0 = e;
        let p0 = pos;
        let b0 = padded_encode::<u8>(u8::spec_alignment(), v.0, e0, p0);
        let e1 = u8::spec_endianness_after(v.0, e0);
        let p1 = p0 + b0.len();
        let b1 = padded_encode::<String>(String::spec_alignment(), v.1, e1, p1);
        let e2 = String::spec_endianness_after(v.1, e1);
        let p2 = p1 + b1.len();
        let t1 = rest;
        let t0 = b1 + t1;
        let all = Self::spec_encode(v, e, pos) + rest;
        vstd::seq_lib::lemma_concat_associative(b0, b1, t1);
        assert(all.skip(0) =~= b0 + t0);
        lemma_padded_roundtrip::<u8>(u8::spec_alignment(), v.0, e0, p0, t0);
        crate::types::field::lemma_skip_past(all, (0) as int, b0, t0);
        lemma_padded_roundtrip::<String>(String::spec_alignment(), v.1, e1, p1, t1);
    }
}

} // verus!
