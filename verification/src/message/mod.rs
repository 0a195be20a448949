use crate::error::Error;
use crate::marshal::Marshaller;
use crate::types::field::{
    lemma_padded_roundtrip, lemma_padded_within, padded_decode, padded_encode, read_padded,
    write_padded,
};
use crate::types::string::push_str;
use crate::types::{DBusType, Failure, ObjectPath, Signature};

pub mod builder;
pub mod names;
pub mod wire;

pub use builder::MessageBuilder;
pub use names::{BusName, ErrorName, Interface, Member};
use vstd::prelude::*;

verus! {

/// The byte order of a message, as its first header byte names it.
#[derive(Debug, Clone, Copy, PartialEq, Eq, Structural)]
pub enum Endianness {
    Big,
    Little,
}

impl Endianness {
    /// Puts a marshaller in this byte order; a message header does so once
    /// its byte order field has passed.
    pub fn mutate_marshaller(&self, marshaller: &mut Marshaller)
        ensures
            final(marshaller).spec_bytes() == old(marshaller).spec_bytes(),
            final(marshaller).spec_write_pos() == old(marshaller).spec_write_pos(),
            final(marshaller).spec_read_pos() == old(marshaller).spec_read_pos(),
            final(marshaller).spec_endianness() == *self,
    {
        marshaller.set_endianness(*self);
    }
}

/// The kind of a message.
#[derive(Debug, Clone, Copy, PartialEq, Eq, Structural)]
pub enum MessageType {
    Invalid,
    MethodCall,
    MethodReturn,
    Error,
    Signal,
}

impl DeepView for Endianness {
    type V = Endianness;

    open spec fn deep_view(&self) -> Endianness {
        *self
    }
}

impl Endianness {
    /// The byte this variant is written as.
    pub open spec fn spec_value(self) -> u8 {
        match self {
            Endianness::Big => 66u8,
            Endianness::Little => 108u8,
        }
    }

    /// The variant written as `b`, if any.
    pub open spec fn spec_from_value(b: u8) -> Option<Endianness> {
        if b == 66 {
            Some(Endianness::Big)
        } else if b == 108 {
            Some(Endianness::Little)
        } else {
            None
        }
    }

    pub fn value(&self) -> (b: u8)
        ensures
            b == self.spec_value(),
    {
        match self {
            Endianness::Big => 66,
            Endianness::Little => 108,
        }
    }
}

impl DBusType for Endianness {
    open spec fn spec_code() -> u8 {
        121u8
    }

    open spec fn spec_signature() -> Seq<char> {
        seq!['y']
    }

    open spec fn spec_alignment() -> u8 {
        1u8
    }

    open spec fn spec_well_formed(v: Endianness) -> bool {
        true
    }

    open spec fn spec_encode(v: Endianness, e: Endianness, pos: nat) -> Seq<u8> {
        seq![v.spec_value()]
    }

    open spec fn spec_endianness_after(v: Endianness, e: Endianness) -> Endianness {
        e
    }

    open spec fn spec_decode(input: Seq<u8>, e: Endianness, pos: nat) -> Result<(Endianness, nat), Failure> {
        if input.len() < 1 {
            Err(Failure::Eof)
        } else {
            match Endianness::spec_from_value(input[0]) {
                Some(v) => Ok((v, 1)),
                None => Err(Failure::InvalidVariant(input[0] as u64)),
            }
        }
    }

    fn code() -> (c: u8) {
        121
    }

    fn signature() -> (s: String) {
        proof {
            reveal_strlit("y");
        }
        "y".to_owned()
    }

    fn alignment() -> (a: u8) {
        1
    }

    fn encode(&self, marshaller: &mut Marshaller) -> (r: Result<(), Error>) {
        marshaller.write_u8(self.value());
        Ok(())
    }

    fn decode(marshaller: &mut Marshaller) -> (r: Result<Self, Error>) {
        let value = marshaller.read_u8()?;
        match value {
            66 => Ok(Endianness::Big),
            108 => Ok(Endianness::Little),
            value => Err(Error::InvalidVariant { value: value as u64 }),
        }
    }

    proof fn lemma_decode_within(input: Seq<u8>, e: Endianness, pos: nat) {
    }

    proof fn lemma_roundtrip(v: Endianness, e: Endianness, pos: nat, rest: Seq<u8>) {
        assert((Self::spec_encode(v, e, pos) + rest)[0] == v.spec_value());
    }
}

impl DeepView for MessageType {
    type V = MessageType;

    open spec fn deep_view(&self) -> MessageType {
        *self
    }
}

impl MessageType {
    /// The byte this variant is written as.
    pub open spec fn spec_value(self) -> u8 {
        match self {
            MessageType::Invalid => 0u8,
            MessageType::MethodCall => 1u8,
            MessageType::MethodReturn => 2u8,
            MessageType::Error => 3u8,
            MessageType::Signal => 4u8,
        }
    }

    /// The variant written as `b`, if any.
    pub open spec fn spec_from_value(b: u8) -> Option<MessageType> {
        if b == 0 {
            Some(MessageType::Invalid)
        } else if b == 1 {
            Some(MessageType::MethodCall)
        } else if b == 2 {
            Some(MessageType::MethodReturn)
        } else if b == 3 {
            Some(MessageType::Error)
        } else if b == 4 {
            Some(MessageType::Signal)
        } else {
            None
        }
    }

    pub fn value(&self) -> (b: u8)
        ensures
            b == self.spec_value(),
    {
        match self {
            MessageType::Invalid => 0,
            MessageType::MethodCall => 1,
            MessageType::MethodReturn => 2,
            MessageType::Error => 3,
            MessageType::Signal => 4,
        }
    }
}

impl DBusType for MessageType {
    open spec fn spec_code() -> u8 {
        121u8
    }

    open spec fn spec_signature() -> Seq<char> {
        seq!['y']
    }

    open spec fn spec_alignment() -> u8 {
        1u8
    }

    open spec fn spec_well_formed(v: MessageType) -> bool {
        true
    }

    open spec fn spec_encode(v: MessageType, e: Endianness, pos: nat) -> Seq<u8> {
        seq![v.spec_value()]
    }

    open spec fn spec_endianness_after(v: MessageType, e: Endianness) -> Endianness {
        e
    }

    open spec fn spec_decode(input: Seq<u8>, e: Endianness, pos: nat) -> Result<(MessageType, nat), Failure> {
        if input.len() < 1 {
            Err(Failure::Eof)
        } else {
            match MessageType::spec_from_value(input[0]) {
                Some(v) => Ok((v, 1)),
                None => Err(Failure::InvalidVariant(input[0] as u64)),
            }
        }
    }

    fn code() -> (c: u8) {
        121
    }

    fn signature() -> (s: String) {
        proof {
            reveal_strlit("y");
        }
        "y".to_owned()
    }

    fn alignment() -> (a: u8) {
        1
    }

    fn encode(&self, marshaller: &mut Marshaller) -> (r: Result<(), Error>) {
        marshaller.write_u8(self.value());
        Ok(())
    }

    fn decode(marshaller: &mut Marshaller) -> (r: Result<Self, Error>) {
        let value = marshaller.read_u8()?;
        match value {
            0 => Ok(MessageType::Invalid),
            1 => Ok(MessageType::MethodCall),
            2 => Ok(MessageType::MethodReturn),
            3 => Ok(MessageType::Error),
            4 => Ok(MessageType::Signal),
            value => Err(Error::InvalidVariant { value: value as u64 }),
        }
    }

    proof fn lemma_decode_within(input: Seq<u8>, e: Endianness, pos: nat) {
    }

    proof fn lemma_roundtrip(v: MessageType, e: Endianness, pos: nat, rest: Seq<u8>) {
        assert((Self::spec_encode(v, e, pos) + rest)[0] == v.spec_value());
    }
}

/// Message flags, kept as the bits that D-Bus defines.
#[derive(Debug, Clone, Copy, PartialEq, Eq, Structural)]
pub struct Flags {
    bits: u8,
}

impl DeepView for Flags {
    type V = u8;

    closed spec fn deep_view(&self) -> u8 {
        self.bits
    }
}

/// The bits that some flag stands for.
pub open spec fn known_bits(b: u8) -> u8 {
    b & 7u8
}

impl Flags {
    #[verifier::type_invariant]
    closed spec fn only_known_bits(&self) -> bool {
        known_bits(self.bits) == self.bits
    }

    pub fn empty() -> (f: Flags)
        ensures
            f.deep_view() == 0,
    {
        assert(0u8 & 7u8 == 0u8) by (bit_vector);
        Flags { bits: 0 }
    }

    pub fn all() -> (f: Flags)
        ensures
            f.deep_view() == 7,
    {
        assert(7u8 & 7u8 == 7u8) by (bit_vector);
        Flags { bits: 7 }
    }

    pub fn no_reply_expected() -> (f: Flags)
        ensures
            f.deep_view() == 1,
    {
        assert(1u8 & 7u8 == 1u8) by (bit_vector);
        Flags { bits: 1 }
    }

    pub fn no_auto_start() -> (f: Flags)
        ensures
            f.deep_view() == 2,
    {
        assert(2u8 & 7u8 == 2u8) by (bit_vector);
        Flags { bits: 2 }
    }

    pub fn allow_interactive_authorization() -> (f: Flags)
        ensures
            f.deep_view() == 4,
    {
        assert(4u8 & 7u8 == 4u8) by (bit_vector);
        Flags { bits: 4 }
    }

    /// The bits of the flags that are set; no other bit is ever set.
    pub fn bits(&self) -> (b: u8)
        ensures
            b == self.deep_view(),
            known_bits(b) == b,
    {
        proof {
            use_type_invariant(self);
        }
        self.bits
    }

    /// The flags whose bits are set in `bits`; other bits are dropped.
    pub fn from_bits_truncate(bits: u8) -> (f: Flags)
        ensures
            f.deep_view() == known_bits(bits),
    {
        assert((bits & 7u8) & 7u8 == bits & 7u8) by (bit_vector);
        Flags { bits: bits & 7 }
    }

    pub fn contains(&self, other: Flags) -> (b: bool)
        ensures
            b == (self.deep_view() & other.deep_view() == other.deep_view()),
    {
        self.bits & other.bits == other.bits
    }

    pub fn insert(&mut self, other: Flags)
        ensures
            final(self).deep_view() == old(self).deep_view() | other.deep_view(),
    {
        proof {
            use_type_invariant(&*self);
            use_type_invariant(&other);
        }
        let a = self.bits;
        let b = other.bits;
        assert(((a | b) & 7u8) == (a | b)) by (bit_vector)
            requires
                a & 7u8 == a,
                b & 7u8 == b,
        ;
        self.bits = a | b;
    }
}

impl DBusType for Flags {
    open spec fn spec_code() -> u8 {
        121u8
    }

    open spec fn spec_signature() -> Seq<char> {
        seq!['y']
    }

    open spec fn spec_alignment() -> u8 {
        1u8
    }

    open spec fn spec_well_formed(v: u8) -> bool {
        known_bits(v) == v
    }

    open spec fn spec_encode(v: u8, e: Endianness, pos: nat) -> Seq<u8> {
        seq![v]
    }

    open spec fn spec_endianness_after(v: u8, e: Endianness) -> Endianness {
        e
    }

    open spec fn spec_decode(input: Seq<u8>, e: Endianness, pos: nat) -> Result<(u8, nat), Failure> {
        if input.len() < 1 {
            Err(Failure::Eof)
        } else {
            Ok((known_bits(input[0]), 1))
        }
    }

    fn code() -> (c: u8) {
        121
    }

    fn signature() -> (s: String) {
        proof {
            reveal_strlit("y");
        }
        "y".to_owned()
    }

    fn alignment() -> (a: u8) {
        1
    }

    fn encode(&self, marshaller: &mut Marshaller) -> (r: Result<(), Error>) {
        marshaller.write_u8(self.bits());
        Ok(())
    }

    fn decode(marshaller: &mut Marshaller) -> (r: Result<Self, Error>) {
        let value = marshaller.read_u8()?;
        Ok(Self::from_bits_truncate(value))
    }

    proof fn lemma_decode_within(input: Seq<u8>, e: Endianness, pos: nat) {
    }

    proof fn lemma_roundtrip(v: u8, e: Endianness, pos: nat, rest: Seq<u8>) {
        assert((Self::spec_encode(v, e, pos) + rest)[0] == v);
    }
}


/// A header field, tagged with its code and written as a variant: the code,
/// the signature of the value, and the value.
#[derive(Debug, Clone, PartialEq)]
pub enum HeaderField {
    Invalid,
    Path(ObjectPath),
    Interface(String),
    Member(String),
    ErrorName(String),
    ReplySerial(u32),
    Destination(String),
    Sender(String),
    Signature(Signature),
    UnixFds(u32),
}

/// The content of a header field.
pub enum HeaderFieldModel {
    Invalid,
    Path(Seq<char>),
    Interface(Seq<char>),
    Member(Seq<char>),
    ErrorName(Seq<char>),
    ReplySerial(u32),
    Destination(Seq<char>),
    Sender(Seq<char>),
    Signature(Seq<char>),
    UnixFds(u32),
}

impl DeepView for HeaderField {
    type V = HeaderFieldModel;

    open spec fn deep_view(&self) -> HeaderFieldModel {
        match self {
            HeaderField::Invalid => HeaderFieldModel::Invalid,
            HeaderField::Path(x) => HeaderFieldModel::Path(x.deep_view()),
            HeaderField::Interface(x) => HeaderFieldModel::Interface(x.deep_view()),
            HeaderField::Member(x) => HeaderFieldModel::Member(x.deep_view()),
            HeaderField::ErrorName(x) => HeaderFieldModel::ErrorName(x.deep_view()),
            HeaderField::ReplySerial(x) => HeaderFieldModel::ReplySerial(x.deep_view()),
            HeaderField::Destination(x) => HeaderFieldModel::Destination(x.deep_view()),
            HeaderField::Sender(x) => HeaderFieldModel::Sender(x.deep_view()),
            HeaderField::Signature(x) => HeaderFieldModel::Signature(x.deep_view()),
            HeaderField::UnixFds(x) => HeaderFieldModel::UnixFds(x.deep_view()),
        }
    }
}

/// The code of a header field.
pub open spec fn field_index(v: HeaderFieldModel) -> u8 {
    match v {
        HeaderFieldModel::Invalid => 0u8,
        HeaderFieldModel::Path(_) => 1u8,
        HeaderFieldModel::Interface(_) => 2u8,
        HeaderFieldModel::Member(_) => 3u8,
        HeaderFieldModel::ErrorName(_) => 4u8,
        HeaderFieldModel::ReplySerial(_) => 5u8,
        HeaderFieldModel::Destination(_) => 6u8,
        HeaderFieldModel::Sender(_) => 7u8,
        HeaderFieldModel::Signature(_) => 8u8,
        HeaderFieldModel::UnixFds(_) => 9u8,
    }
}

/// The signature of the value of the header field with code `i`.
pub open spec fn field_signature(i: u8) -> Seq<char> {
    if i == 0 {
        Seq::<char>::empty()
    } else if i == 1 {
        seq!['o']
    } else if i == 2 {
        seq!['s']
    } else if i == 3 {
        seq!['s']
    } else if i == 4 {
        seq!['s']
    } else if i == 5 {
        seq!['u']
    } else if i == 6 {
        seq!['s']
    } else if i == 7 {
        seq!['s']
    } else if i == 8 {
        seq!['g']
    } else if i == 9 {
        seq!['u']
    } else {
        Seq::<char>::empty()
    }
}

/// The value of a header field, after its padding.
pub open spec fn field_body(v: HeaderFieldModel, e: Endianness, pos: nat) -> Seq<u8> {
    match v {
        HeaderFieldModel::Invalid => Seq::<u8>::empty(),
        HeaderFieldModel::Path(x) => padded_encode::<ObjectPath>(4u8, x, e, pos),
        HeaderFieldModel::Interface(x) => padded_encode::<String>(4u8, x, e, pos),
        HeaderFieldModel::Member(x) => padded_encode::<String>(4u8, x, e, pos),
        HeaderFieldModel::ErrorName(x) => padded_encode::<String>(4u8, x, e, pos),
        HeaderFieldModel::ReplySerial(x) => padded_encode::<u32>(4u8, x, e, pos),
        HeaderFieldModel::Destination(x) => padded_encode::<String>(4u8, x, e, pos),
        HeaderFieldModel::Sender(x) => padded_encode::<String>(4u8, x, e, pos),
        HeaderFieldModel::Signature(x) => padded_encode::<Signature>(1u8, x, e, pos),
        HeaderFieldModel::UnixFds(x) => padded_encode::<u32>(4u8, x, e, pos),
    }
}

/// Reads the value of the header field with code `i`.
pub open spec fn decode_field_body(i: u8, rest: Seq<u8>, e: Endianness, pos: nat) -> Result<(HeaderFieldModel, nat), Failure> {
    if i == 0 {
        Ok((HeaderFieldModel::Invalid, 0))
    } else if i == 1 {
        match padded_decode::<ObjectPath>(4u8, rest, e, pos) {
            Ok((x, k)) => Ok((HeaderFieldModel::Path(x), k)),
            Err(f) => Err(f),
        }
    } else if i == 2 {
        match padded_decode::<String>(4u8, rest, e, pos) {
            Ok((x, k)) => Ok((HeaderFieldModel::Interface(x), k)),
            Err(f) => Err(f),
        }
    } else if i == 3 {
        match padded_decode::<String>(4u8, rest, e, pos) {
            Ok((x, k)) => Ok((HeaderFieldModel::Member(x), k)),
            Err(f) => Err(f),
        }
    } else if i == 4 {
        match padded_decode::<String>(4u8, rest, e, pos) {
            Ok((x, k)) => Ok((HeaderFieldModel::ErrorName(x), k)),
            Err(f) => Err(f),
        }
    } else if i == 5 {
        match padded_decode::<u32>(4u8, rest, e, pos) {
            Ok((x, k)) => Ok((HeaderFieldModel::ReplySerial(x), k)),
            Err(f) => Err(f),
        }
    } else if i == 6 {
        match padded_decode::<String>(4u8, rest, e, pos) {
            Ok((x, k)) => Ok((HeaderFieldModel::Destination(x), k)),
            Err(f) => Err(f),
        }
    } else if i == 7 {
        match padded_decode::<String>(4u8, rest, e, pos) {
            Ok((x, k)) => Ok((HeaderFieldModel::Sender(x), k)),
            Err(f) => Err(f),
        }
    } else if i == 8 {
        match padded_decode::<Signature>(1u8, rest, e, pos) {
            Ok((x, k)) => Ok((HeaderFieldModel::Signature(x), k)),
            Err(f) => Err(f),
        }
    } else if i == 9 {
        match padded_decode::<u32>(4u8, rest, e, pos) {
            Ok((x, k)) => Ok((HeaderFieldModel::UnixFds(x), k)),
            Err(f) => Err(f),
        }
    } else {
        Err(Failure::BadVariant)
    }
}

/// Whether the content of a header field can be read back.
pub open spec fn field_well_formed(v: HeaderFieldModel) -> bool {
    match v {
        HeaderFieldModel::Invalid => true,
        HeaderFieldModel::Path(x) => ObjectPath::spec_well_formed(x),
        HeaderFieldModel::Interface(x) => String::spec_well_formed(x),
        HeaderFieldModel::Member(x) => String::spec_well_formed(x),
        HeaderFieldModel::ErrorName(x) => String::spec_well_formed(x),
        HeaderFieldModel::ReplySerial(x) => u32::spec_well_formed(x),
        HeaderFieldModel::Destination(x) => String::spec_well_formed(x),
        HeaderFieldModel::Sender(x) => String::spec_well_formed(x),
        HeaderFieldModel::Signature(x) => Signature::spec_well_formed(x),
        HeaderFieldModel::UnixFds(x) => u32::spec_well_formed(x),
    }
}

/// Writes the code of a header field and the signature of its value.
fn write_variant_header(marshaller: &mut Marshaller, index: u8, sig: &str)
    requires
        sig@.len() <= 1,
        old(marshaller).spec_write_pos() + 1 + Signature::spec_encode(
            sig@,
            old(marshaller).spec_endianness(),
            old(marshaller).spec_write_pos() + 1,
        ).len() <= usize::MAX,
    ensures
        final(marshaller).wrote(
            *old(marshaller),
            seq![index] + Signature::spec_encode(
                sig@,
                old(marshaller).spec_endianness(),
                old(marshaller).spec_write_pos() + 1,
            ),
        ),
{
    let ghost m0 = *marshaller;
    marshaller.write_u8(index);
    let signature = match Signature::new(sig) {
        Ok(signature) => signature,
        Err(_) => {
            return;
        },
    };
    signature.encode(marshaller);
    assert(marshaller.spec_bytes() =~= m0.spec_bytes() + (seq![index] + Signature::spec_encode(
        sig@,
        m0.spec_endianness(),
        m0.spec_write_pos() + 1,
    )));
}

/// The signature of the value of the header field with code `i`.
fn field_signature_str(i: u8) -> (s: &'static str)
    requires
        i <= 9,
    ensures
        s@ == field_signature(i),
{
    proof {
        reveal_strlit("");
        assert(""@ =~= Seq::<char>::empty());
        reveal_strlit("g");
        assert("g"@ =~= seq!['g']);
        reveal_strlit("o");
        assert("o"@ =~= seq!['o']);
        reveal_strlit("s");
        assert("s"@ =~= seq!['s']);
        reveal_strlit("u");
        assert("u"@ =~= seq!['u']);
    }
    match i {
        0 => "",
        1 => "o",
        2 => "s",
        3 => "s",
        4 => "s",
        5 => "u",
        6 => "s",
        7 => "s",
        8 => "g",
        _ => "u",
    }
}

/// Reads the value of the header field with code `i`.
fn read_field_body(marshaller: &mut Marshaller, i: u8) -> (r: Result<HeaderField, Error>)
    requires
        i <= 9,
        old(marshaller).read_room(),
    ensures
        final(marshaller).read_room(),
        ({
            let e = old(marshaller).spec_endianness();
            let input = old(marshaller).spec_bytes();
            let res = decode_field_body(i, input, e, old(marshaller).spec_read_pos());
            match r {
                Ok(v) => res matches Ok((w, n)) && {
                    &&& w == v.deep_view()
                    &&& n <= input.len()
                    &&& final(marshaller).spec_bytes() == input.skip(n as int)
                    &&& final(marshaller).spec_read_pos() == old(marshaller).spec_read_pos() + n
                    &&& final(marshaller).spec_write_pos() == old(marshaller).spec_write_pos()
                    &&& final(marshaller).spec_endianness() == e
                },
                Err(err) => res matches Err(f) && err.reports(f),
            }
        }),
{
    match i {
        0 => {
            assert(marshaller.spec_bytes() =~= marshaller.spec_bytes().skip(0));
            Ok(HeaderField::Invalid)
        },
        1 => {
            let x = read_padded::<ObjectPath>(marshaller, 4)?;
            Ok(HeaderField::Path(x))
        },
        2 => {
            let x = read_padded::<String>(marshaller, 4)?;
            Ok(HeaderField::Interface(x))
        },
        3 => {
            let x = read_padded::<String>(marshaller, 4)?;
            Ok(HeaderField::Member(x))
        },
        4 => {
            let x = read_padded::<String>(marshaller, 4)?;
            Ok(HeaderField::ErrorName(x))
        },
        5 => {
            let x = read_padded::<u32>(marshaller, 4)?;
            Ok(HeaderField::ReplySerial(x))
        },
        6 => {
            let x = read_padded::<String>(marshaller, 4)?;
            Ok(HeaderField::Destination(x))
        },
        7 => {
            let x = read_padded::<String>(marshaller, 4)?;
            Ok(HeaderField::Sender(x))
        },
        8 => {
            let x = read_padded::<Signature>(marshaller, 1)?;
            Ok(HeaderField::Signature(x))
        },
        _ => {
            let x = read_padded::<u32>(marshaller, 4)?;
            Ok(HeaderField::UnixFds(x))
        },
    }
}

impl DBusType for HeaderField {
    open spec fn spec_code() -> u8 {
        114u8
    }

    open spec fn spec_signature() -> Seq<char> {
        seq!['(', 'y', 'v', ')']
    }

    open spec fn spec_alignment() -> u8 {
        8u8
    }

    open spec fn spec_well_formed(v: HeaderFieldModel) -> bool {
        field_well_formed(v)
    }

    open spec fn spec_encode(v: HeaderFieldModel, e: Endianness, pos: nat) -> Seq<u8> {
        let i = field_index(v);
        let sig = Signature::spec_encode(field_signature(i), e, pos + 1);
        seq![i] + sig + field_body(v, e, pos + 1 + sig.len())
    }

    open spec fn spec_endianness_after(v: HeaderFieldModel, e: Endianness) -> Endianness {
        e
    }

    open spec fn spec_decode(input: Seq<u8>, e: Endianness, pos: nat) -> Result<(HeaderFieldModel, nat), Failure> {
        if input.len() < 1 {
            Err(Failure::Eof)
        } else {
            let i = input[0];
            match Signature::spec_decode(input.skip(1), e, pos + 1) {
                Err(f) => Err(f),
                Ok((sig, n)) => {
                    let c = 1 + n;
                    if i <= 9 && sig == field_signature(i) {
                        match decode_field_body(i, input.skip(c as int), e, pos + c) {
                            Ok((v, k)) => Ok((v, c + k)),
                            Err(f) => Err(f),
                        }
                    } else {
                        Err(Failure::BadVariant)
                    }
                },
            }
        }
    }

    fn code() -> (c: u8) {
        114
    }

    fn signature() -> (s: String) {
        proof {
            reveal_strlit("(yv)");
        }
        "(yv)".to_owned()
    }

    fn alignment() -> (a: u8) {
        8
    }

    fn encode(&self, marshaller: &mut Marshaller) -> (r: Result<(), Error>) {
        let ghost m0 = *marshaller;
        let ghost e = m0.spec_endianness();
        let ghost pos = m0.spec_write_pos();
        let ghost v = self.deep_view();
        proof {
            reveal_strlit("");
            reveal_strlit("g");
            reveal_strlit("o");
            reveal_strlit("s");
            reveal_strlit("u");
        }
        match self {
            HeaderField::Invalid => {
                write_variant_header(marshaller, 0, "");
            },
            HeaderField::Path(x) => {
                assert(v == HeaderFieldModel::Path(x.deep_view()));
                assert(field_signature(1) == "o"@);
                write_variant_header(marshaller, 1, "o");
                write_padded(marshaller, 4, x);
            },
            HeaderField::Interface(x) => {
                assert(v == HeaderFieldModel::Interface(x.deep_view()));
                assert(field_signature(2) == "s"@);
                write_variant_header(marshaller, 2, "s");
                write_padded(marshaller, 4, x);
            },
            HeaderField::Member(x) => {
                assert(v == HeaderFieldModel::Member(x.deep_view()));
                assert(field_signature(3) == "s"@);
                write_variant_header(marshaller, 3, "s");
                write_padded(marshaller, 4, x);
            },
            HeaderField::ErrorName(x) => {
                assert(v == HeaderFieldModel::ErrorName(x.deep_view()));
                assert(field_signature(4) == "s"@);
                write_variant_header(marshaller, 4, "s");
                write_padded(marshaller, 4, x);
            },
            HeaderField::ReplySerial(x) => {
                assert(v == HeaderFieldModel::ReplySerial(x.deep_view()));
                assert(field_signature(5) == "u"@);
                write_variant_header(marshaller, 5, "u");
                write_padded(marshaller, 4, x);
            },
            HeaderField::Destination(x) => {
                assert(v == HeaderFieldModel::Destination(x.deep_view()));
                assert(field_signature(6) == "s"@);
                write_variant_header(marshaller, 6, "s");
                write_padded(marshaller, 4, x);
            },
            HeaderField::Sender(x) => {
                assert(v == HeaderFieldModel::Sender(x.deep_view()));
                assert(field_signature(7) == "s"@);
                write_variant_header(marshaller, 7, "s");
                write_padded(marshaller, 4, x);
            },
            HeaderField::Signature(x) => {
                assert(v == HeaderFieldModel::Signature(x.deep_view()));
                assert(field_signature(8) == "g"@);
                write_variant_header(marshaller, 8, "g");
                write_padded(marshaller, 1, x);
            },
            HeaderField::UnixFds(x) => {
                assert(v == HeaderFieldModel::UnixFds(x.deep_view()));
                assert(field_signature(9) == "u"@);
                write_variant_header(marshaller, 9, "u");
                write_padded(marshaller, 4, x);
            },
        }
        assert(marshaller.spec_bytes() =~= m0.spec_bytes() + Self::spec_encode(v, e, pos));
        Ok(())
    }

    fn decode(marshaller: &mut Marshaller) -> (r: Result<Self, Error>) {
        let ghost m0 = *marshaller;
        let ghost input = m0.spec_bytes();
        let ghost e = m0.spec_endianness();
        let ghost pos = m0.spec_read_pos();
        let value = marshaller.read_u8()?;
        let signature = Signature::decode(marshaller)?;
        let ghost m1 = *marshaller;
        proof {
            assert(input.skip(1).skip((m1.spec_read_pos() - pos - 1) as int) =~= input.skip((m1.spec_read_pos() - pos) as int));
        }
        if value <= 9 && signature.is(field_signature_str(value)) {
            let field = read_field_body(marshaller, value)?;
            proof {
                let m2 = *marshaller;
                assert(m1.spec_bytes().skip((m2.spec_read_pos() - m1.spec_read_pos()) as int) =~= input.skip((m2.spec_read_pos() - pos) as int));
            }
            return Ok(field);
        }

        Err(Error::Custom { message: "Bad variant value".to_owned() })
    }

    proof fn lemma_decode_within(input: Seq<u8>, e: Endianness, pos: nat) {
        if input.len() >= 1 {
            Signature::lemma_decode_within(input.skip(1), e, pos + 1);
            if let Ok((sig, n)) = Signature::spec_decode(input.skip(1), e, pos + 1) {
                let c = 1 + n;
                let rest = input.skip(c as int);
                lemma_padded_within::<ObjectPath>(4u8, rest, e, pos + c);
                lemma_padded_within::<String>(4u8, rest, e, pos + c);
                lemma_padded_within::<String>(4u8, rest, e, pos + c);
                lemma_padded_within::<String>(4u8, rest, e, pos + c);
                lemma_padded_within::<u32>(4u8, rest, e, pos + c);
                lemma_padded_within::<String>(4u8, rest, e, pos + c);
                lemma_padded_within::<String>(4u8, rest, e, pos + c);
                lemma_padded_within::<Signature>(1u8, rest, e, pos + c);
                lemma_padded_within::<u32>(4u8, rest, e, pos + c);
            }
        }
    }

    proof fn lemma_roundtrip(v: HeaderFieldModel, e: Endianness, pos: nat, rest: Seq<u8>) {
        reveal_strlit("");
        reveal_strlit("g");
        reveal_strlit("o");
        reveal_strlit("s");
        reveal_strlit("u");
        let i = field_index(v);
        let sig = field_signature(i);
        let sigb = Signature::spec_encode(sig, e, pos + 1);
        let c = 1 + sigb.len();
        let body = field_body(v, e, pos + c);
        let all = Self::spec_encode(v, e, pos) + rest;
        assert(all[0] == i);
        assert(all.skip(1) =~= sigb + (body + rest));
        assert(all.skip(c as int) =~= body + rest);
        assert(vstd::utf8::is_ascii_chars(sig));
        vstd::utf8::is_ascii_chars_encode_utf8(sig);
        Signature::lemma_roundtrip(sig, e, pos + 1, body + rest);
        match v {
            HeaderFieldModel::Invalid => {
                assert(body =~= Seq::<u8>::empty());
            },
            HeaderFieldModel::Path(x) => {
                lemma_padded_roundtrip::<ObjectPath>(4u8, x, e, pos + c, rest);
            },
            HeaderFieldModel::Interface(x) => {
                lemma_padded_roundtrip::<String>(4u8, x, e, pos + c, rest);
            },
            HeaderFieldModel::Member(x) => {
                lemma_padded_roundtrip::<String>(4u8, x, e, pos + c, rest);
            },
            HeaderFieldModel::ErrorName(x) => {
                lemma_padded_roundtrip::<String>(4u8, x, e, pos + c, rest);
            },
            HeaderFieldModel::ReplySerial(x) => {
                lemma_padded_roundtrip::<u32>(4u8, x, e, pos + c, rest);
            },
            HeaderFieldModel::Destination(x) => {
                lemma_padded_roundtrip::<String>(4u8, x, e, pos + c, rest);
            },
            HeaderFieldModel::Sender(x) => {
                lemma_padded_roundtrip::<String>(4u8, x, e, pos + c, rest);
            },
            HeaderFieldModel::Signature(x) => {
                lemma_padded_roundtrip::<Signature>(1u8, x, e, pos + c, rest);
            },
            HeaderFieldModel::UnixFds(x) => {
                lemma_padded_roundtrip::<u32>(4u8, x, e, pos + c, rest);
            },
        }
    }
}

/// The fixed part of a message header, followed by its header fields.
#[derive(Debug, Clone, PartialEq)]
pub struct MessageHeader {
    pub endianness: Endianness,
    pub ty: MessageType,
    pub flags: Flags,
    pub version: u8,
    pub body_size: u32,
    pub serial: u32,
    pub fields: Vec<HeaderField>,
}

impl DeepView for MessageHeader {
    type V = (<Endianness as DeepView>::V, <MessageType as DeepView>::V, <Flags as DeepView>::V, <u8 as DeepView>::V, <u32 as DeepView>::V, <u32 as DeepView>::V, <Vec<HeaderField> as DeepView>::V);

    open spec fn deep_view(&self) -> Self::V {
        (self.endianness.deep_view(), self.ty.deep_view(), self.flags.deep_view(), self.version.deep_view(), self.body_size.deep_view(), self.serial.deep_view(), self.fields.deep_view())
    }
}

impl DBusType for MessageHeader {
    open spec fn spec_code() -> u8 {
        114u8
    }

    open spec fn spec_signature() -> Seq<char> {
        seq!['(', 'y', 'y', 'y', 'y', 'u', 'u', 'a', '(', 'y', 'v', ')', ')']
    }

    open spec fn spec_alignment() -> u8 {
        8u8
    }

    open spec fn spec_well_formed(v: (<Endianness as DeepView>::V, <MessageType as DeepView>::V, <Flags as DeepView>::V, <u8 as DeepView>::V, <u32 as DeepView>::V, <u32 as DeepView>::V, <Vec<HeaderField> as DeepView>::V)) -> bool {
        Endianness::spec_well_formed(v.0) && MessageType::spec_well_formed(v.1) && Flags::spec_well_formed(v.2) && u8::spec_well_formed(v.3) && u32::spec_well_formed(v.4) && u32::spec_well_formed(v.5) && <Vec<HeaderField>>::spec_well_formed(v.6)
    }

    open spec fn spec_encode(v: (<Endianness as DeepView>::V, <MessageType as DeepView>::V, <Flags as DeepView>::V, <u8 as DeepView>::V, <u32 as DeepView>::V, <u32 as DeepView>::V, <Vec<HeaderField> as DeepView>::V), e: Endianness, pos: nat) -> Seq<u8> {
        let e0 = e;
        let p0 = pos;
        let b0 = padded_encode::<Endianness>(Endianness::spec_alignment(), v.0, e0, p0);
        let e1 = v.0;
        let p1 = p0 + b0.len();
        let b1 = padded_encode::<MessageType>(MessageType::spec_alignment(), v.1, e1, p1);
        let e2 = MessageType::spec_endianness_after(v.1, e1);
        let p2 = p1 + b1.len();
        let b2 = padded_encode::<Flags>(Flags::spec_alignment(), v.2, e2, p2);
        let e3 = Flags::spec_endianness_after(v.2, e2);
        let p3 = p2 + b2.len();
        let b3 = padded_encode::<u8>(u8::spec_alignment(), v.3, e3, p3);
        let e4 = u8::spec_endianness_after(v.3, e3);
        let p4 = p3 + b3.len();
        let b4 = padded_encode::<u32>(u32::spec_alignment(), v.4, e4, p4);
        let e5 = u32::spec_endianness_after(v.4, e4);
        let p5 = p4 + b4.len();
        let b5 = padded_encode::<u32>(u32::spec_alignment(), v.5, e5, p5);
        let e6 = u32::spec_endianness_after(v.5, e5);
        let p6 = p5 + b5.len();
        let b6 = padded_encode::<Vec<HeaderField>>(<Vec<HeaderField>>::spec_alignment(), v.6, e6, p6);
        let e7 = <Vec<HeaderField>>::spec_endianness_after(v.6, e6);
        let p7 = p6 + b6.len();
        b0 + b1 + b2 + b3 + b4 + b5 + b6
    }

    open spec fn spec_endianness_after(v: (<Endianness as DeepView>::V, <MessageType as DeepView>::V, <Flags as DeepView>::V, <u8 as DeepView>::V, <u32 as DeepView>::V, <u32 as DeepView>::V, <Vec<HeaderField> as DeepView>::V), e: Endianness) -> Endianness {
        <Vec<HeaderField>>::spec_endianness_after(v.6, u32::spec_endianness_after(v.5, u32::spec_endianness_after(v.4, u8::spec_endianness_after(v.3, Flags::spec_endianness_after(v.2, MessageType::spec_endianness_after(v.1, v.0))))))
    }

    open spec fn spec_decode(input: Seq<u8>, e: Endianness, pos: nat) -> Result<((<Endianness as DeepView>::V, <MessageType as DeepView>::V, <Flags as DeepView>::V, <u8 as DeepView>::V, <u32 as DeepView>::V, <u32 as DeepView>::V, <Vec<HeaderField> as DeepView>::V), nat), Failure> {
        let e0 = e;
        let c0 = (0) as nat;
        match padded_decode::<Endianness>(Endianness::spec_alignment(), input.skip(c0 as int), e0, pos + c0) {
            Err(f) => Err(f),
            Ok((x0, n0)) => {
                let e1 = x0;
                let c1 = (n0) as nat;
                match padded_decode::<MessageType>(MessageType::spec_alignment(), input.skip(c1 as int), e1, pos + c1) {
                    Err(f) => Err(f),
                    Ok((x1, n1)) => {
                        let e2 = MessageType::spec_endianness_after(x1, e1);
                        let c2 = (n0 + n1) as nat;
                        match padded_decode::<Flags>(Flags::spec_alignment(), input.skip(c2 as int), e2, pos + c2) {
                            Err(f) => Err(f),
                            Ok((x2, n2)) => {
                                let e3 = Flags::spec_endianness_after(x2, e2);
                                let c3 = (n0 + n1 + n2) as nat;
                                match padded_decode::<u8>(u8::spec_alignment(), input.skip(c3 as int), e3, pos + c3) {
                                    Err(f) => Err(f),
                                    Ok((x3, n3)) => {
                                        let e4 = u8::spec_endianness_after(x3, e3);
                                        let c4 = (n0 + n1 + n2 + n3) as nat;
                                        match padded_decode::<u32>(u32::spec_alignment(), input.skip(c4 as int), e4, pos + c4) {
                                            Err(f) => Err(f),
                                            Ok((x4, n4)) => {
                                                let e5 = u32::spec_endianness_after(x4, e4);
                                                let c5 = (n0 + n1 + n2 + n3 + n4) as nat;
                                                match padded_decode::<u32>(u32::spec_alignment(), input.skip(c5 as int), e5, pos + c5) {
                                                    Err(f) => Err(f),
                                                    Ok((x5, n5)) => {
                                                        let e6 = u32::spec_endianness_after(x5, e5);
                                                        let c6 = (n0 + n1 + n2 + n3 + n4 + n5) as nat;
                                                        match padded_decode::<Vec<HeaderField>>(<Vec<HeaderField>>::spec_alignment(), input.skip(c6 as int), e6, pos + c6) {
                                                            Err(f) => Err(f),
                                                            Ok((x6, n6)) => {
                                                                Ok(((x0, x1, x2, x3, x4, x5, x6, ), (n0 + n1 + n2 + n3 + n4 + n5 + n6) as nat))
                                                            },
                                                        }
                                                    },
                                                }
                                            },
                                        }
                                    },
                                }
                            },
                        }
                    },
                }
            },
        }
    }

    fn code() -> (c: u8) {
        114
    }

    fn signature() -> (s: String) {
        proof {
            reveal_strlit("(yyyyuua(yv))");
        }
        "(yyyyuua(yv))".to_owned()
    }

    fn alignment() -> (a: u8) {
        8
    }

    fn encode(&self, marshaller: &mut Marshaller) -> (r: Result<(), Error>) {
        let ghost m0 = *marshaller;
        let ghost v = self.deep_view();
        let ghost e = m0.spec_endianness();
        let ghost pos = m0.spec_write_pos();
        assert(self.endianness.deep_view() == v.0);
        let align0: u8 = Endianness::alignment();
        write_padded(marshaller, align0, &self.endianness);
        self.endianness.mutate_marshaller(marshaller);
        assert(self.ty.deep_view() == v.1);
        let align1: u8 = MessageType::alignment();
        write_padded(marshaller, align1, &self.ty);
        assert(self.flags.deep_view() == v.2);
        let align2: u8 = Flags::alignment();
        write_padded(marshaller, align2, &self.flags);
        assert(self.version.deep_view() == v.3);
        let align3: u8 = u8::alignment();
        write_padded(marshaller, align3, &self.version);
        assert(self.body_size.deep_view() == v.4);
        let align4: u8 = u32::alignment();
        write_padded(marshaller, align4, &self.body_size);
        assert(self.serial.deep_view() == v.5);
        let align5: u8 = u32::alignment();
        write_padded(marshaller, align5, &self.serial);
        assert(self.fields.deep_view() == v.6);
        let align6: u8 = <Vec<HeaderField>>::alignment();
        write_padded(marshaller, align6, &self.fields);
        assert(marshaller.spec_bytes() =~= m0.spec_bytes() + Self::spec_encode(v, e, pos));
        Ok(())
    }

    fn decode(marshaller: &mut Marshaller) -> (r: Result<Self, Error>) {
        let ghost m0 = *marshaller;
        let ghost input = m0.spec_bytes();
        let ghost e = m0.spec_endianness();
        let ghost pos = m0.spec_read_pos();
        let ghost s0 = *marshaller;
        proof {
            assert(s0.spec_bytes() =~= input.skip((s0.spec_read_pos() - pos) as int));
        }
        let align0: u8 = Endianness::alignment();
        let x0 = read_padded::<Endianness>(marshaller, align0)?;
        x0.mutate_marshaller(marshaller);
        let ghost s1 = *marshaller;
        proof {
            assert(s1.spec_bytes() =~= input.skip((s1.spec_read_pos() - pos) as int));
        }
        let align1: u8 = MessageType::alignment();
        let x1 = read_padded::<MessageType>(marshaller, align1)?;
        let ghost s2 = *marshaller;
        proof {
            assert(s2.spec_bytes() =~= input.skip((s2.spec_read_pos() - pos) as int));
        }
        let align2: u8 = Flags::alignment();
        let x2 = read_padded::<Flags>(marshaller, align2)?;
        let ghost s3 = *marshaller;
        proof {
            assert(s3.spec_bytes() =~= input.skip((s3.spec_read_pos() - pos) as int));
        }
        let align3: u8 = u8::alignment();
        let x3 = read_padded::<u8>(marshaller, align3)?;
        let ghost s4 = *marshaller;
        proof {
            assert(s4.spec_bytes() =~= input.skip((s4.spec_read_pos() - pos) as int));
        }
        let align4: u8 = u32::alignment();
        let x4 = read_padded::<u32>(marshaller, align4)?;
        let ghost s5 = *marshaller;
        proof {
            assert(s5.spec_bytes() =~= input.skip((s5.spec_read_pos() - pos) as int));
        }
        let align5: u8 = u32::alignment();
        let x5 = read_padded::<u32>(marshaller, align5)?;
        let ghost s6 = *marshaller;
        proof {
            assert(s6.spec_bytes() =~= input.skip((s6.spec_read_pos() - pos) as int));
        }
        let align6: u8 = <Vec<HeaderField>>::alignment();
        let x6 = read_padded::<Vec<HeaderField>>(marshaller, align6)?;
        let ghost mk = *marshaller;
        proof {
            assert(mk.spec_bytes() =~= input.skip((mk.spec_read_pos() - pos) as int));
        }
        Ok(MessageHeader { endianness: x0, ty: x1, flags: x2, version: x3, body_size: x4, serial: x5, fields: x6 })
    }

    proof fn lemma_decode_within(input: Seq<u8>, e: Endianness, pos: nat) {
        let e0 = e;
        let c0 = (0) as nat;
        lemma_padded_within::<Endianness>(Endianness::spec_alignment(), input.skip(c0 as int), e0, pos + c0);
        if let Ok((x0, n0)) = padded_decode::<Endianness>(Endianness::spec_alignment(), input.skip(c0 as int), e0, pos + c0) {
            if c0 + n0 <= input.len() {
                let e1 = x0;
                let c1 = (n0) as nat;
                lemma_padded_within::<MessageType>(MessageType::spec_alignment(), input.skip(c1 as int), e1, pos + c1);
                if let Ok((x1, n1)) = padded_decode::<MessageType>(MessageType::spec_alignment(), input.skip(c1 as int), e1, pos + c1) {
                    if c1 + n1 <= input.len() {
                        let e2 = MessageType::spec_endianness_after(x1, e1);
                        let c2 = (n0 + n1) as nat;
                        lemma_padded_within::<Flags>(Flags::spec_alignment(), input.skip(c2 as int), e2, pos + c2);
                        if let Ok((x2, n2)) = padded_decode::<Flags>(Flags::spec_alignment(), input.skip(c2 as int), e2, pos + c2) {
                            if c2 + n2 <= input.len() {
                                let e3 = Flags::spec_endianness_after(x2, e2);
                                let c3 = (n0 + n1 + n2) as nat;
                                lemma_padded_within::<u8>(u8::spec_alignment(), input.skip(c3 as int), e3, pos + c3);
                                if let Ok((x3, n3)) = padded_decode::<u8>(u8::spec_alignment(), input.skip(c3 as int), e3, pos + c3) {
                                    if c3 + n3 <= input.len() {
                                        let e4 = u8::spec_endianness_after(x3, e3);
                                        let c4 = (n0 + n1 + n2 + n3) as nat;
                                        lemma_padded_within::<u32>(u32::spec_alignment(), input.skip(c4 as int), e4, pos + c4);
                                        if let Ok((x4, n4)) = padded_decode::<u32>(u32::spec_alignment(), input.skip(c4 as int), e4, pos + c4) {
                                            if c4 + n4 <= input.len() {
                                                let e5 = u32::spec_endianness_after(x4, e4);
                                                let c5 = (n0 + n1 + n2 + n3 + n4) as nat;
                                                lemma_padded_within::<u32>(u32::spec_alignment(), input.skip(c5 as int), e5, pos + c5);
                                                if let Ok((x5, n5)) = padded_decode::<u32>(u32::spec_alignment(), input.skip(c5 as int), e5, pos + c5) {
                                                    if c5 + n5 <= input.len() {
                                                        let e6 = u32::spec_endianness_after(x5, e5);
                                                        let c6 = (n0 + n1 + n2 + n3 + n4 + n5) as nat;
                                                        lemma_padded_within::<Vec<HeaderField>>(<Vec<HeaderField>>::spec_alignment(), input.skip(c6 as int), e6, pos + c6);
                                                        if let Ok((x6, n6)) = padded_decode::<Vec<HeaderField>>(<Vec<HeaderField>>::spec_alignment(), input.skip(c6 as int), e6, pos + c6) {
                                                            if c6 + n6 <= input.len() {
                                                            }
                                                        }
                                                    }
                                                }
                                            }
                                        }
                                    }
                                }
                            }
                        }
                    }
                }
            }
        }
    }

    proof fn lemma_roundtrip(v: (<Endianness as DeepView>::V, <MessageType as DeepView>::V, <Flags as DeepView>::V, <u8 as DeepView>::V, <u32 as DeepView>::V, <u32 as DeepView>::V, <Vec<HeaderField> as DeepView>::V), e: Endianness, pos: nat, rest: Seq<u8>) {
        let e0 = e;
        let p0 = pos;
        let b0 = padded_encode::<Endianness>(Endianness::spec_alignment(), v.0, e0, p0);
        let e1 = v.0;
        let p1 = p0 + b0.len();
        let b1 = padded_encode::<MessageType>(MessageType::spec_alignment(), v.1, e1, p1);
        let e2 = MessageType::spec_endianness_after(v.1, e1);
        let p2 = p1 + b1.len();
        let b2 = padded_encode::<Flags>(Flags::spec_alignment(), v.2, e2, p2);
        let e3 = Flags::spec_endianness_after(v.2, e2);
        let p3 = p2 + b2.len();
        let b3 = padded_encode::<u8>(u8::spec_alignment(), v.3, e3, p3);
        let e4 = u8::spec_endianness_after(v.3, e3);
        let p4 = p3 + b3.len();
        let b4 = padded_encode::<u32>(u32::spec_alignment(), v.4, e4, p4);
        let e5 = u32::spec_endianness_after(v.4, e4);
        let p5 = p4 + b4.len();
        let b5 = padded_encode::<u32>(u32::spec_alignment(), v.5, e5, p5);
        let e6 = u32::spec_endianness_after(v.5, e5);
        let p6 = p5 + b5.len();
        let b6 = padded_encode::<Vec<HeaderField>>(<Vec<HeaderField>>::spec_alignment(), v.6, e6, p6);
        let e7 = <Vec<HeaderField>>::spec_endianness_after(v.6, e6);
        let p7 = p6 + b6.len();
        let t6 = rest;
        let t5 = b6 + t6;
        let t4 = b5 + t5;
        let t3 = b4 + t4;
        let t2 = b3 + t3;
        let t1 = b2 + t2;
        let t0 = b1 + t1;
        let all = Self::spec_encode(v, e, pos) + rest;
        vstd::seq_lib::lemma_concat_associative(b0 + b1 + b2 + b3 + b4 + b5, b6, t6);
        vstd::seq_lib::lemma_concat_associative(b0 + b1 + b2 + b3 + b4, b5, t5);
        vstd::seq_lib::lemma_concat_associative(b0 + b1 + b2 + b3, b4, t4);
        vstd::seq_lib::lemma_concat_associative(b0 + b1 + b2, b3, t3);
        vstd::seq_lib::lemma_concat_associative(b0 + b1, b2, t2);
        vstd::seq_lib::lemma_concat_associative(b0, b1, t1);
        assert(all.skip(0) =~= b0 + t0);
        lemma_padded_roundtrip::<Endianness>(Endianness::spec_alignment(), v.0, e0, p0, t0);
        crate::types::field::lemma_skip_past(all, (0) as int, b0, t0);
        lemma_padded_roundtrip::<MessageType>(MessageType::spec_alignment(), v.1, e1, p1, t1);
        crate::types::field::lemma_skip_past(all, (b0.len()) as int, b1, t1);
        lemma_padded_roundtrip::<Flags>(Flags::spec_alignment(), v.2, e2, p2, t2);
        crate::types::field::lemma_skip_past(all, (b0.len() + b1.len()) as int, b2, t2);
        lemma_padded_roundtrip::<u8>(u8::spec_alignment(), v.3, e3, p3, t3);
        crate::types::field::lemma_skip_past(all, (b0.len() + b1.len() + b2.len()) as int, b3, t3);
        lemma_padded_roundtrip::<u32>(u32::spec_alignment(), v.4, e4, p4, t4);
        crate::types::field::lemma_skip_past(all, (b0.len() + b1.len() + b2.len() + b3.len()) as int, b4, t4);
        lemma_padded_roundtrip::<u32>(u32::spec_alignment(), v.5, e5, p5, t5);
        crate::types::field::lemma_skip_past(all, (b0.len() + b1.len() + b2.len() + b3.len() + b4.len()) as int, b5, t5);
        lemma_padded_roundtrip::<Vec<HeaderField>>(<Vec<HeaderField>>::spec_alignment(), v.6, e6, p6, t6);
    }
}


/// A header's first byte names the byte order the rest of the message is in,
/// and the marshaller is left in that byte order.
pub proof fn lemma_header_names_byte_order(
    v: <MessageHeader as DeepView>::V,
    e: Endianness,
    pos: nat,
)
    ensures
        MessageHeader::spec_encode(v, e, pos).len() > 0,
        MessageHeader::spec_encode(v, e, pos)[0] == v.0.spec_value(),
        MessageHeader::spec_endianness_after(v, e) == v.0,
{
    reveal(padded_encode);
    let first = padded_encode::<Endianness>(1u8, v.0, e, pos);
    assert(crate::marshal::cursor::padding_for(pos, 1) == 0);
    assert(first =~= seq![v.0.spec_value()]);
}

/// A message: its header and its body.
#[derive(Debug, Clone)]
pub struct Message<T> {
    header: MessageHeader,
    data: T,
}

impl<T: DeepView> DeepView for Message<T> {
    type V = (<MessageHeader as DeepView>::V, T::V);

    closed spec fn deep_view(&self) -> Self::V {
        (self.header.deep_view(), self.data.deep_view())
    }
}

impl<T> Message<T> {
    pub closed spec fn spec_header(&self) -> MessageHeader {
        self.header
    }

    pub closed spec fn spec_data(&self) -> T {
        self.data
    }

    pub fn header(&self) -> (h: &MessageHeader)
        ensures
            *h == self.spec_header(),
    {
        &self.header
    }

    pub fn data(&self) -> (d: &T)
        ensures
            *d == self.spec_data(),
    {
        &self.data
    }
}

impl<T: DBusType> Message<T> {
    /// Starts building a message whose body is `data`.
    pub fn new(data: T) -> (b: MessageBuilder<T>)
        ensures
            b.spec_ty() == MessageType::Invalid,
            b.spec_flags().deep_view() == 0,
            b.spec_version() == 1,
            b.spec_fields().len() == 0,
            b.spec_data() == data,
    {
        MessageBuilder::new(data)
    }
}

impl<T: DBusType> DBusType for Message<T> {
    open spec fn spec_code() -> u8 {
        114u8
    }

    open spec fn spec_signature() -> Seq<char> {
        seq!['('] + MessageHeader::spec_signature() + T::spec_signature() + seq![')']
    }

    open spec fn spec_alignment() -> u8 {
        8u8
    }

    open spec fn spec_well_formed(v: (<MessageHeader as DeepView>::V, T::V)) -> bool {
        MessageHeader::spec_well_formed(v.0) && T::spec_well_formed(v.1)
    }

    open spec fn spec_encode(v: (<MessageHeader as DeepView>::V, T::V), e: Endianness, pos: nat) -> Seq<u8> {
        let e0 = e;
        let p0 = pos;
        let b0 = padded_encode::<MessageHeader>(MessageHeader::spec_alignment(), v.0, e0, p0);
        let e1 = MessageHeader::spec_endianness_after(v.0, e0);
        let p1 = p0 + b0.len();
        let b1 = padded_encode::<T>(T::spec_alignment(), v.1, e1, p1);
        let e2 = T::spec_endianness_after(v.1, e1);
        let p2 = p1 + b1.len();
        b0 + b1
    }

    open spec fn spec_endianness_after(v: (<MessageHeader as DeepView>::V, T::V), e: Endianness) -> Endianness {
        T::spec_endianness_after(v.1, MessageHeader::spec_endianness_after(v.0, e))
    }

    open spec fn spec_decode(input: Seq<u8>, e: Endianness, pos: nat) -> Result<((<MessageHeader as DeepView>::V, T::V), nat), Failure> {
        let e0 = e;
        let c0 = (0) as nat;
        match padded_decode::<MessageHeader>(MessageHeader::spec_alignment(), input.skip(c0 as int), e0, pos + c0) {
            Err(f) => Err(f),
            Ok((x0, n0)) => {
                let e1 = MessageHeader::spec_endianness_after(x0, e0);
                let c1 = (n0) as nat;
                match padded_decode::<T>(T::spec_alignment(), input.skip(c1 as int), e1, pos + c1) {
                    Err(f) => Err(f),
                    Ok((x1, n1)) => {
                        Ok(((x0, x1, ), (n0 + n1) as nat))
                    },
                }
            },
        }
    }

    fn code() -> (c: u8) {
        114
    }

    fn signature() -> (s: String) {
        proof {
            reveal_strlit("(");
            reveal_strlit(")");
        }
        let mut s = "(".to_owned();
        let h = MessageHeader::signature();
        push_str(&mut s, h.as_str());
        let d = T::signature();
        push_str(&mut s, d.as_str());
        push_str(&mut s, ")");
        s
    }

    fn alignment() -> (a: u8) {
        8
    }

    fn encode(&self, marshaller: &mut Marshaller) -> (r: Result<(), Error>) {
        let ghost m0 = *marshaller;
        let ghost v = self.deep_view();
        let ghost e = m0.spec_endianness();
        let ghost pos = m0.spec_write_pos();
        assert(self.header.deep_view() == v.0);
        let align0: u8 = MessageHeader::alignment();
        write_padded(marshaller, align0, &self.header);
        assert(self.data.deep_view() == v.1);
        let align1: u8 = T::alignment();
        write_padded(marshaller, align1, &self.data);
        assert(marshaller.spec_bytes() =~= m0.spec_bytes() + Self::spec_encode(v, e, pos));
        Ok(())
    }

    fn decode(marshaller: &mut Marshaller) -> (r: Result<Self, Error>) {
        let ghost m0 = *marshaller;
        let ghost input = m0.spec_bytes();
        let ghost e = m0.spec_endianness();
        let ghost pos = m0.spec_read_pos();
        let ghost s0 = *marshaller;
        proof {
            assert(s0.spec_bytes() =~= input.skip((s0.spec_read_pos() - pos) as int));
        }
        let align0: u8 = MessageHeader::alignment();
        let x0 = read_padded::<MessageHeader>(marshaller, align0)?;
        let ghost s1 = *marshaller;
        proof {
            assert(s1.spec_bytes() =~= input.skip((s1.spec_read_pos() - pos) as int));
        }
        let align1: u8 = T::alignment();
        let x1 = read_padded::<T>(marshaller, align1)?;
        let ghost mk = *marshaller;
        proof {
            assert(mk.spec_bytes() =~= input.skip((mk.spec_read_pos() - pos) as int));
        }
        Ok(Message { header: x0, data: x1 })
    }

    proof fn lemma_decode_within(input: Seq<u8>, e: Endianness, pos: nat) {
        let e0 = e;
        let c0 = (0) as nat;
        lemma_padded_within::<MessageHeader>(MessageHeader::spec_alignment(), input.skip(c0 as int), e0, pos + c0);
        if let Ok((x0, n0)) = padded_decode::<MessageHeader>(MessageHeader::spec_alignment(), input.skip(c0 as int), e0, pos + c0) {
            if c0 + n0 <= input.len() {
                let e1 = MessageHeader::spec_endianness_after(x0, e0);
                let c1 = (n0) as nat;
                lemma_padded_within::<T>(T::spec_alignment(), input.skip(c1 as int), e1, pos + c1);
                if let Ok((x1, n1)) = padded_decode::<T>(T::spec_alignment(), input.skip(c1 as int), e1, pos + c1) {
                    if c1 + n1 <= input.len() {
                    }
                }
            }
        }
    }

    proof fn lemma_roundtrip(v: (<MessageHeader as DeepView>::V, T::V), e: Endianness, pos: nat, rest: Seq<u8>) {
        let e0 = e;
        let p0 = pos;
        let b0 = padded_encode::<MessageHeader>(MessageHeader::spec_alignment(), v.0, e0, p0);
        let e1 = MessageHeader::spec_endianness_after(v.0, e0);
        let p1 = p0 + b0.len();
        let b1 = padded_encode::<T>(T::spec_alignment(), v.1, e1, p1);
        let e2 = T::spec_endianness_after(v.1, e1);
        let p2 = p1 + b1.len();
        let t1 = rest;
        let t0 = b1 + t1;
        let all = Self::spec_encode(v, e, pos) + rest;
        vstd::seq_lib::lemma_concat_associative(b0, b1, t1);
        assert(all.skip(0) =~= b0 + t0);
        lemma_padded_roundtrip::<MessageHeader>(MessageHeader::spec_alignment(), v.0, e0, p0, t0);
        crate::types::field::lemma_skip_past(all, (0) as int, b0, t0);
        lemma_padded_roundtrip::<T>(T::spec_alignment(), v.1, e1, p1, t1);
    }
}

} // verus!
