use crate::error::{Error, IoErrorKind};
use crate::marshal::Marshaller;
use crate::message::Endianness;
use vstd::prelude::*;

pub use basic::UnixFd;
pub use dict::{decode_hashmap, encode_hashmap, Dict, DictEntry};
pub use string::{ObjectPath, ObjectPathError, Signature, SignatureError};
pub use tuple::DBusPackedTypes;

pub mod array;
pub mod basic;
pub mod dict;
pub mod element;
pub mod field;
pub mod protocol;
pub mod string;
pub mod tuple;

verus! {

/// Why reading a value back from bytes fails.
#[derive(Debug, Clone, Copy, PartialEq, Eq, Structural)]
pub enum Failure {
    /// The input ended too early.
    Eof,
    /// A string's bytes are not valid UTF-8.
    Utf8,
    /// No variant of a tagged enum has the tag and signature read.
    BadVariant,
    /// No variant of a unit enum has the value read.
    InvalidVariant(u64),
    /// An array element took up no bytes, so the array's bytes cannot be used up.
    Stalled,
    /// A reference cannot be made from bytes.
    Reference,
}

impl Error {
    /// This error is the one that the given failure is reported by.
    pub open spec fn reports(&self, f: Failure) -> bool {
        match f {
            Failure::Eof => *self == Error::Io { kind: IoErrorKind::UnexpectedEof },
            Failure::Utf8 => *self is FromUtf8,
            Failure::BadVariant => self matches Error::Custom { message } && message@
                == "Bad variant value"@,
            Failure::InvalidVariant(v) => *self == Error::InvalidVariant { value: v },
            Failure::Stalled => self matches Error::Custom { message } && message@
                == "Array element takes up no bytes"@,
            Failure::Reference => self matches Error::Custom { message } && message@
                == "References cannot be decoded"@,
        }
    }
}

/// A type with a D-Bus representation: a type code, a signature, an
/// alignment, and an encoding to bytes that depends on the byte order and on
/// the stream position it starts at.
pub trait DBusType: DeepView + Sized {
    spec fn spec_code() -> u8;

    spec fn spec_signature() -> Seq<char>;

    spec fn spec_alignment() -> u8;

    /// The values whose encoding reads back as the same value.
    spec fn spec_well_formed(v: Self::V) -> bool;

    /// The bytes that stand for `v` when written in byte order `e` from stream
    /// position `pos`.
    spec fn spec_encode(v: Self::V, e: Endianness, pos: nat) -> Seq<u8>;

    /// The byte order a marshaller is left in after `v` passed through it.
    spec fn spec_endianness_after(v: Self::V, e: Endianness) -> Endianness;

    /// The value read from the front of `input`, in byte order `e`, from stream
    /// position `pos`, with the number of bytes it takes up.
    spec fn spec_decode(input: Seq<u8>, e: Endianness, pos: nat) -> core::result::Result<
        (Self::V, nat),
        Failure,
    >;

    fn code() -> (c: u8)
        ensures
            c == Self::spec_code(),
    ;

    fn signature() -> (s: String)
        ensures
            s@ == Self::spec_signature(),
    ;

    fn alignment() -> (a: u8)
        ensures
            a == Self::spec_alignment(),
            a > 0,
    ;

    fn encode(&self, marshaller: &mut Marshaller) -> (r: Result<(), Error>)
        requires
            old(marshaller).spec_write_pos() + Self::spec_encode(
                self.deep_view(),
                old(marshaller).spec_endianness(),
                old(marshaller).spec_write_pos(),
            ).len() <= usize::MAX,
        ensures
            r is Ok,
            ({
                let e = old(marshaller).spec_endianness();
                let bytes = Self::spec_encode(self.deep_view(), e, old(marshaller).spec_write_pos());
                &&& final(marshaller).spec_bytes() == old(marshaller).spec_bytes() + bytes
                &&& final(marshaller).spec_write_pos() == old(marshaller).spec_write_pos()
                    + bytes.len()
                &&& final(marshaller).spec_read_pos() == old(marshaller).spec_read_pos()
                &&& final(marshaller).spec_endianness() == Self::spec_endianness_after(
                    self.deep_view(),
                    e,
                )
            }),
    ;

    fn decode(marshaller: &mut Marshaller) -> (r: Result<Self, Error>)
        requires
            old(marshaller).read_room(),
        ensures
            final(marshaller).read_room(),
            ({
                let e = old(marshaller).spec_endianness();
                let input = old(marshaller).spec_bytes();
                let res = Self::spec_decode(input, e, old(marshaller).spec_read_pos());
                match r {
                    Ok(v) => res matches Ok((w, n)) && {
                        &&& w == v.deep_view()
                        &&& n <= input.len()
                        &&& final(marshaller).spec_bytes() == input.skip(n as int)
                        &&& final(marshaller).spec_read_pos() == old(marshaller).spec_read_pos()
                            + n
                        &&& final(marshaller).spec_write_pos() == old(
                            marshaller,
                        ).spec_write_pos()
                        &&& final(marshaller).spec_endianness() == Self::spec_endianness_after(
                            w,
                            e,
                        )
                    },
                    Err(err) => res matches Err(f) && err.reports(f),
                }
            }),
    ;

    /// A value read takes up no more bytes than there are.
    proof fn lemma_decode_within(input: Seq<u8>, e: Endianness, pos: nat)
        ensures
            Self::spec_decode(input, e, pos) matches Ok((_, n)) ==> n <= input.len(),
    ;

    /// Reading back what was written gives the value written, whatever bytes
    /// follow it.
    proof fn lemma_roundtrip(v: Self::V, e: Endianness, pos: nat, rest: Seq<u8>)
        requires
            Self::spec_well_formed(v),
        ensures
            Self::spec_decode(Self::spec_encode(v, e, pos) + rest, e, pos) == Ok::<
                (Self::V, nat),
                Failure,
            >((v, Self::spec_encode(v, e, pos).len())),
    ;
}

/// The D-Bus basic types, the ones that may key a dictionary.
pub trait DBusBasicType: DBusType {

}

/// A reference is written as the value it refers to; it cannot be read.
impl<'a, T: DBusType> DBusType for &'a T {
    open spec fn spec_code() -> u8 {
        T::spec_code()
    }

    open spec fn spec_signature() -> Seq<char> {
        T::spec_signature()
    }

    open spec fn spec_alignment() -> u8 {
        T::spec_alignment()
    }

    /// No reference is read back.
    open spec fn spec_well_formed(v: T::V) -> bool {
        false
    }

    open spec fn spec_encode(v: T::V, e: Endianness, pos: nat) -> Seq<u8> {
        T::spec_encode(v, e, pos)
    }

    open spec fn spec_endianness_after(v: T::V, e: Endianness) -> Endianness {
        T::spec_endianness_after(v, e)
    }

    open spec fn spec_decode(input: Seq<u8>, e: Endianness, pos: nat) -> core::result::Result<(T::V, nat), Failure> {
        Err(Failure::Reference)
    }

    fn code() -> (c: u8) {
        T::code()
    }

    fn signature() -> (s: String) {
        T::signature()
    }

    fn alignment() -> (a: u8) {
        T::alignment()
    }

    fn encode(&self, marshaller: &mut Marshaller) -> (r: Result<(), Error>) {
        (*self).encode(marshaller)
    }

    fn decode(marshaller: &mut Marshaller) -> (r: Result<Self, Error>) {
        Err(Error::Custom { message: "References cannot be decoded".to_owned() })
    }

    proof fn lemma_decode_within(input: Seq<u8>, e: Endianness, pos: nat) {
    }

    proof fn lemma_roundtrip(v: T::V, e: Endianness, pos: nat, rest: Seq<u8>) {
    }
}

impl<'a, T: DBusBasicType> DBusBasicType for &'a T {

}

} // verus!
