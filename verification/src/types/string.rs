use crate::error::Error;
use crate::marshal::endian::{lemma_u32_roundtrip, u32_bytes, u32_of};
use crate::marshal::Marshaller;
use crate::message::Endianness;
use crate::types::{DBusBasicType, DBusType, Failure};
use crate::types::element::{first_fault, first_fault_exec, split, ElementFault, ElementRule};
use vstd::prelude::*;
use vstd::utf8::{decode_utf8, encode_utf8, encode_utf8_decode_utf8, encode_utf8_valid_utf8, valid_utf8};

verus! {

/// Builds a `String` from bytes with `String::from_utf8`, which fails exactly
/// when the bytes are not valid UTF-8; the characters of the result are the
/// ones the bytes encode.
#[verifier::external_body]
fn string_from_utf8(bytes: Vec<u8>) -> (r: Option<String>)
    ensures
        r is Some <==> valid_utf8(bytes@),
        r matches Some(s) ==> s@ == decode_utf8(bytes@),
{
    match String::from_utf8(bytes) {
        Ok(s) => Some(s),
        Err(_) => None,
    }
}

/// Appends `t` to `s` with `String::push_str`.
#[verifier::external_body]
pub(crate) fn push_str(s: &mut String, t: &str)
    ensures
        final(s)@ == old(s)@ + t@,
{
    s.push_str(t)
}

/// Appends `c` to `s` with `String::push`.
#[verifier::external_body]
pub(crate) fn push_char(s: &mut String, c: char)
    ensures
        final(s)@ == old(s)@.push(c),
{
    s.push(c)
}

/// The bytes of a string after its length prefix: the UTF-8 bytes and a
/// closing zero byte.
pub open spec fn string_body(s: Seq<char>) -> Seq<u8> {
    encode_utf8(s) + seq![0u8]
}

/// Reads a string body of `len` bytes from the front of `rest`, with the
/// number of bytes it takes up.
pub open spec fn read_body(rest: Seq<u8>, len: nat) -> Result<(Seq<char>, nat), Failure> {
    if rest.len() < len + 1 {
        Err(Failure::Eof)
    } else {
        let data = rest.take(len as int);
        if valid_utf8(data) {
            Ok((decode_utf8(data), len + 1))
        } else {
            Err(Failure::Utf8)
        }
    }
}

proof fn lemma_read_body(s: Seq<char>, rest: Seq<u8>)
    ensures
        read_body(string_body(s) + rest, encode_utf8(s).len()) == Ok::<(Seq<char>, nat), Failure>(
            (s, string_body(s).len()),
        ),
{
    let b = encode_utf8(s);
    assert((string_body(s) + rest).take(b.len() as int) =~= b);
    encode_utf8_valid_utf8(s);
    encode_utf8_decode_utf8(s);
}

/// Reads a string body of `len` bytes: the bytes, a zero byte, and their
/// decoding as UTF-8.
fn read_body_exec(marshaller: &mut Marshaller, len: usize) -> (r: Result<String, Error>)
    requires
        old(marshaller).read_room(),
    ensures
        final(marshaller).read_room(),
        ({
            let res = read_body(old(marshaller).spec_bytes(), len as nat);
            match r {
                Ok(s) => res matches Ok((w, n)) && w == s@ && n == len + 1
                    && final(marshaller).consumed(*old(marshaller), n),
                Err(err) => res matches Err(f) && err.reports(f),
            }
        }),
{
    let ghost input = marshaller.spec_bytes();
    let data = marshaller.read_exact(len)?;
    marshaller.read_u8()?;
    assert(marshaller.spec_bytes() =~= input.skip(len + 1));
    match string_from_utf8(data) {
        Some(s) => Ok(s),
        None => Err(Error::FromUtf8),
    }
}

/// Writes a string body: the UTF-8 bytes of `s` and a zero byte.
fn write_body(marshaller: &mut Marshaller, s: &str)
    requires
        old(marshaller).spec_write_pos() + string_body(s@).len() <= usize::MAX,
    ensures
        final(marshaller).wrote(*old(marshaller), string_body(s@)),
{
    let ghost m0 = *marshaller;
    marshaller.write_all(s.as_bytes());
    marshaller.write_u8(0);
    assert(marshaller.spec_bytes() =~= m0.spec_bytes() + string_body(s@));
}

impl DBusType for String {
    open spec fn spec_code() -> u8 {
        115u8
    }

    open spec fn spec_signature() -> Seq<char> {
        seq!['s']
    }

    open spec fn spec_alignment() -> u8 {
        4u8
    }

    open spec fn spec_well_formed(v: Seq<char>) -> bool {
        encode_utf8(v).len() <= u32::MAX
    }

    open spec fn spec_encode(v: Seq<char>, e: Endianness, pos: nat) -> Seq<u8> {
        u32_bytes(encode_utf8(v).len() as u32, e) + string_body(v)
    }

    open spec fn spec_endianness_after(v: Seq<char>, e: Endianness) -> Endianness {
        e
    }

    open spec fn spec_decode(input: Seq<u8>, e: Endianness, pos: nat) -> Result<(Seq<char>, nat), Failure> {
        if input.len() < 4 {
            Err(Failure::Eof)
        } else {
            match read_body(input.skip(4), u32_of(input.take(4), e) as nat) {
                Ok((s, n)) => Ok((s, 4 + n)),
                Err(f) => Err(f),
            }
        }
    }

    fn code() -> (c: u8) {
        115
    }

    fn signature() -> (s: String) {
        proof {
            reveal_strlit("s");
        }
        "s".to_owned()
    }

    fn alignment() -> (a: u8) {
        4
    }

    fn encode(&self, marshaller: &mut Marshaller) -> (r: Result<(), Error>) {
        let s: &str = self.as_str();
        s.encode(marshaller)
    }

    fn decode(marshaller: &mut Marshaller) -> (r: Result<Self, Error>) {
        let ghost m0 = *marshaller;
        let length = marshaller.read_u32()?;
        proof {
            assert(m0.spec_bytes().skip(4) == marshaller.spec_bytes());
        }
        let ghost m1 = *marshaller;
        let value = read_body_exec(marshaller, length as usize)?;
        proof {
            assert(marshaller.spec_bytes() =~= m0.spec_bytes().skip(4 + length + 1));
        }
        Ok(value)
    }

    proof fn lemma_decode_within(input: Seq<u8>, e: Endianness, pos: nat) {
    }

    proof fn lemma_roundtrip(v: Seq<char>, e: Endianness, pos: nat, rest: Seq<u8>) {
        let len = encode_utf8(v).len();
        lemma_u32_roundtrip(len as u32, e);
        let head = u32_bytes(len as u32, e);
        let all = Self::spec_encode(v, e, pos) + rest;
        assert(all.take(4) =~= head);
        assert(all.skip(4) =~= string_body(v) + rest);
        lemma_read_body(v, rest);
    }
}

impl DBusBasicType for String {

}


/// A string slice is written as a string; it cannot be read.
impl<'a> DBusType for &'a str {
    open spec fn spec_code() -> u8 {
        115u8
    }

    open spec fn spec_signature() -> Seq<char> {
        seq!['s']
    }

    open spec fn spec_alignment() -> u8 {
        4u8
    }

    /// No string slice is read back.
    open spec fn spec_well_formed(v: Seq<char>) -> bool {
        false
    }

    open spec fn spec_encode(v: Seq<char>, e: Endianness, pos: nat) -> Seq<u8> {
        <String as DBusType>::spec_encode(v, e, pos)
    }

    open spec fn spec_endianness_after(v: Seq<char>, e: Endianness) -> Endianness {
        e
    }

    open spec fn spec_decode(input: Seq<u8>, e: Endianness, pos: nat) -> Result<(Seq<char>, nat), Failure> {
        Err(Failure::Reference)
    }

    fn code() -> (c: u8) {
        115
    }

    fn signature() -> (s: String) {
        proof {
            reveal_strlit("s");
        }
        "s".to_owned()
    }

    fn alignment() -> (a: u8) {
        4
    }

    fn encode(&self, marshaller: &mut Marshaller) -> (r: Result<(), Error>) {
        let ghost m0 = *marshaller;
        let ghost e = marshaller.spec_endianness();
        let s: &str = *self;
        let len = s.len();
        proof {
            assert(self.deep_view() == s@);
            lemma_u32_roundtrip(len as u32, e);
            assert(Self::spec_encode(s@, e, m0.spec_write_pos()) =~= u32_bytes(len as u32, e)
                + string_body(s@));
        }
        marshaller.write_u32(len as u32);
        write_body(marshaller, s);
        assert(marshaller.spec_bytes() =~= m0.spec_bytes() + Self::spec_encode(s@, e, m0.spec_write_pos()));
        assert(Self::spec_encode(self.deep_view(), e, old(marshaller).spec_write_pos()) == Self::spec_encode(s@, e, m0.spec_write_pos()));
        assert(Self::spec_endianness_after(self.deep_view(), e) == e);
        Ok(())
    }

    fn decode(marshaller: &mut Marshaller) -> (r: Result<Self, Error>) {
        Err(Error::Custom { message: "References cannot be decoded".to_owned() })
    }

    proof fn lemma_decode_within(input: Seq<u8>, e: Endianness, pos: nat) {
    }

    proof fn lemma_roundtrip(v: Seq<char>, e: Endianness, pos: nat, rest: Seq<u8>) {
    }
}

impl<'a> DBusBasicType for &'a str {

}

/// Reasons a signature is refused.
#[derive(Debug, Clone, Copy, PartialEq, Eq, Structural)]
pub enum SignatureError {
    InvalidSignature,
}

/// A D-Bus type signature, such as `a{sv}`.
#[derive(Debug, Clone, PartialEq)]
pub struct Signature(String);

impl DeepView for Signature {
    type V = Seq<char>;

    closed spec fn deep_view(&self) -> Seq<char> {
        self.0@
    }
}

impl Signature {
    /// Every string is taken as a signature; none is refused.
    pub fn new(sig: &str) -> (r: Result<Self, SignatureError>)
        ensures
            r matches Ok(s) && s.deep_view() == sig@,
    {
        Ok(Signature(sig.to_owned()))
    }

    pub fn as_str(&self) -> (s: &str)
        ensures
            s@ == self.deep_view(),
    {
        self.0.as_str()
    }

    /// Whether this signature is the text `lit`.
    pub fn is(&self, lit: &str) -> (b: bool)
        ensures
            b == (self.deep_view() == lit@),
    {
        self.0 == lit.to_owned()
    }
}

impl DBusType for Signature {
    open spec fn spec_code() -> u8 {
        103u8
    }

    open spec fn spec_signature() -> Seq<char> {
        seq!['g']
    }

    open spec fn spec_alignment() -> u8 {
        1u8
    }

    open spec fn spec_well_formed(v: Seq<char>) -> bool {
        encode_utf8(v).len() <= u8::MAX
    }

    open spec fn spec_encode(v: Seq<char>, e: Endianness, pos: nat) -> Seq<u8> {
        seq![encode_utf8(v).len() as u8] + string_body(v)
    }

    open spec fn spec_endianness_after(v: Seq<char>, e: Endianness) -> Endianness {
        e
    }

    open spec fn spec_decode(input: Seq<u8>, e: Endianness, pos: nat) -> Result<(Seq<char>, nat), Failure> {
        if input.len() < 1 {
            Err(Failure::Eof)
        } else {
            match read_body(input.skip(1), input[0] as nat) {
                Ok((s, n)) => Ok((s, 1 + n)),
                Err(f) => Err(f),
            }
        }
    }

    fn code() -> (c: u8) {
        103
    }

    fn signature() -> (s: String) {
        proof {
            reveal_strlit("g");
        }
        "g".to_owned()
    }

    fn alignment() -> (a: u8) {
        1
    }

    fn encode(&self, marshaller: &mut Marshaller) -> (r: Result<(), Error>) {
        let ghost m0 = *marshaller;
        let ghost e = marshaller.spec_endianness();
        let s = self.0.as_str();
        let len = s.len();
        marshaller.write_u8(len as u8);
        write_body(marshaller, s);
        assert(marshaller.spec_bytes() =~= m0.spec_bytes() + Self::spec_encode(
            self.deep_view(),
            e,
            m0.spec_write_pos(),
        ));
        Ok(())
    }

    fn decode(marshaller: &mut Marshaller) -> (r: Result<Self, Error>) {
        let ghost m0 = *marshaller;
        let length = marshaller.read_u8()?;
        let value = read_body_exec(marshaller, length as usize)?;
        proof {
            assert(marshaller.spec_bytes() =~= m0.spec_bytes().skip(1 + length + 1));
        }
        Ok(Signature(value))
    }

    proof fn lemma_decode_within(input: Seq<u8>, e: Endianness, pos: nat) {
    }

    proof fn lemma_roundtrip(v: Seq<char>, e: Endianness, pos: nat, rest: Seq<u8>) {
        let all = Self::spec_encode(v, e, pos) + rest;
        assert(all[0] == encode_utf8(v).len() as u8);
        assert(all.skip(1) =~= string_body(v) + rest);
        lemma_read_body(v, rest);
    }
}

impl DBusBasicType for Signature {

}

/// A D-Bus object path, such as `/org/freedesktop/DBus`.
#[derive(Debug, Clone, PartialEq)]
pub struct ObjectPath(String);

impl DeepView for ObjectPath {
    type V = Seq<char>;

    closed spec fn deep_view(&self) -> Seq<char> {
        self.0@
    }
}

/// Reasons an object path is refused.
#[derive(Debug)]
pub enum ObjectPathError {
    InvalidObjectPath { message: String },
}

/// What is wrong with a would-be object path.
#[derive(Debug, Clone, Copy, PartialEq, Eq, Structural)]
pub enum PathFault {
    NotAbsolute,
    TrailingSlash,
    Element(ElementFault),
}

/// The first thing wrong with the object path whose UTF-8 bytes are `b`, if
/// anything is.
pub open spec fn object_path_fault(b: Seq<u8>) -> Option<PathFault> {
    if b.len() == 0 || b[0] != 47 {
        Some(PathFault::NotAbsolute)
    } else if b.len() > 1 && b.last() == 47 {
        Some(PathFault::TrailingSlash)
    } else if b.len() > 1 {
        match first_fault(split(b.skip(1), 47), ElementRule::Path) {
            Some(f) => Some(PathFault::Element(f)),
            None => None,
        }
    } else {
        None
    }
}

pub open spec fn object_path_message(f: PathFault) -> Seq<char> {
    match f {
        PathFault::NotAbsolute =>
            "The path must begin with an ASCII '/' (integer 47) character, and must consist of elements separated by slash characters"@,
        PathFault::TrailingSlash =>
            "A trailing '/' character is not allowed unless the path is the root path (a single '/' character)"@,
        PathFault::Element(ElementFault::Empty) => "No element may be the empty string"@,
        PathFault::Element(_) =>
            "Each element must only contain the ASCII characters \"[A-Z][a-z][0-9]_\""@,
    }
}

impl ObjectPath {
    /// Checks `path` against the object path grammar: a '/' followed by
    /// elements of `[A-Z][a-z][0-9]_` separated by single slashes, or '/'
    /// alone.
    pub fn new(path: &str) -> (r: Result<Self, ObjectPathError>)
        ensures
            match object_path_fault(encode_utf8(path@)) {
                None => r matches Ok(p) && p.deep_view() == path@,
                Some(f) => r matches Err(ObjectPathError::InvalidObjectPath { message })
                    && message@ == object_path_message(f),
            },
    {
        let b = path.as_bytes();
        let n = b.len();
        if n == 0 || b[0] != 47 {
            return Err(ObjectPathError::InvalidObjectPath {
                message: "The path must begin with an ASCII '/' (integer 47) character, and must consist of elements separated by slash characters".to_owned(),
            });
        }
        if n > 1 && b[n - 1] == 47 {
            return Err(ObjectPathError::InvalidObjectPath {
                message: "A trailing '/' character is not allowed unless the path is the root path (a single '/' character)".to_owned(),
            });
        }
        if n > 1 {
            match first_fault_exec(b, 1, 47, ElementRule::Path) {
                Some(ElementFault::Empty) => {
                    return Err(ObjectPathError::InvalidObjectPath {
                        message: "No element may be the empty string".to_owned(),
                    });
                },
                Some(_) => {
                    return Err(ObjectPathError::InvalidObjectPath {
                        message: "Each element must only contain the ASCII characters \"[A-Z][a-z][0-9]_\"".to_owned(),
                    });
                },
                None => {},
            }
        }
        Ok(ObjectPath(path.to_owned()))
    }

    pub fn as_str(&self) -> (s: &str)
        ensures
            s@ == self.deep_view(),
    {
        self.0.as_str()
    }
}

impl DBusType for ObjectPath {
    open spec fn spec_code() -> u8 {
        111u8
    }

    open spec fn spec_signature() -> Seq<char> {
        seq!['o']
    }

    open spec fn spec_alignment() -> u8 {
        4u8
    }

    open spec fn spec_well_formed(v: Seq<char>) -> bool {
        <String as DBusType>::spec_well_formed(v)
    }

    open spec fn spec_encode(v: Seq<char>, e: Endianness, pos: nat) -> Seq<u8> {
        <String as DBusType>::spec_encode(v, e, pos)
    }

    open spec fn spec_endianness_after(v: Seq<char>, e: Endianness) -> Endianness {
        e
    }

    open spec fn spec_decode(input: Seq<u8>, e: Endianness, pos: nat) -> Result<(Seq<char>, nat), Failure> {
        <String as DBusType>::spec_decode(input, e, pos)
    }

    fn code() -> (c: u8) {
        111
    }

    fn signature() -> (s: String) {
        proof {
            reveal_strlit("o");
        }
        "o".to_owned()
    }

    fn alignment() -> (a: u8) {
        4
    }

    fn encode(&self, marshaller: &mut Marshaller) -> (r: Result<(), Error>) {
        self.0.encode(marshaller)
    }

    fn decode(marshaller: &mut Marshaller) -> (r: Result<Self, Error>) {
        let value = String::decode(marshaller)?;
        Ok(ObjectPath(value))
    }

    proof fn lemma_decode_within(input: Seq<u8>, e: Endianness, pos: nat) {
    }

    proof fn lemma_roundtrip(v: Seq<char>, e: Endianness, pos: nat, rest: Seq<u8>) {
        <String as DBusType>::lemma_roundtrip(v, e, pos, rest);
    }
}

impl DBusBasicType for ObjectPath {

}

} // verus!
