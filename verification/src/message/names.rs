//! Interface, bus, member and error names, and the rules they must follow.
use crate::error::Error;
use crate::marshal::Marshaller;
use crate::message::Endianness;
use crate::types::element::{
    contains_byte, element_fault, element_fault_exec, first_fault, first_fault_exec, split,
    ElementFault, ElementRule,
};
use crate::types::{DBusType, Failure};
use vstd::prelude::*;
use vstd::utf8::encode_utf8;

verus! {

/// What is wrong with a would-be interface name (or error name).
#[derive(Debug, Clone, Copy, PartialEq, Eq, Structural)]
pub enum InterfaceFault {
    TooLong,
    NoPeriod,
    Element(ElementFault),
}

/// The first thing wrong with the interface name whose UTF-8 bytes are `b`.
pub open spec fn interface_fault(b: Seq<u8>) -> Option<InterfaceFault> {
    if b.len() > 255 {
        Some(InterfaceFault::TooLong)
    } else if !b.contains(46u8) {
        Some(InterfaceFault::NoPeriod)
    } else {
        match first_fault(split(b, 46), ElementRule::Identifier) {
            Some(f) => Some(InterfaceFault::Element(f)),
            None => None,
        }
    }
}

pub open spec fn interface_message(f: InterfaceFault) -> Seq<char> {
    match f {
        InterfaceFault::TooLong => "Interface names must not exceed the maximum name length (255)"@,
        InterfaceFault::NoPeriod => "Interface names are composed of 2 or more elements separated by a period ('.') character"@,
        InterfaceFault::Element(ElementFault::Empty) => "All elements must contain at least one character"@,
        InterfaceFault::Element(_) => "Each element must only contain the ASCII characters \"[A-Z][a-z][0-9]_\" and must not begin with a digit"@,
    }
}

#[derive(Debug)]
pub enum InterfaceError {
    InvalidInterfaceName { message: String },
}

/// An interface name, such as `org.freedesktop.DBus`.
#[derive(Debug, Clone, PartialEq, Eq)]
pub struct Interface(String);

impl Interface {
    /// Checks `name` against the interface name rules: at most 255 bytes, and
    /// two or more elements separated by periods, each made of
    /// `[A-Z][a-z][0-9]_` and not starting with a digit.
    pub fn new(name: &str) -> (r: Result<Self, InterfaceError>)
        ensures
            match interface_fault(encode_utf8(name@)) {
                None => r matches Ok(i) && i.deep_view() == name@,
                Some(f) => r matches Err(InterfaceError::InvalidInterfaceName { message })
                    && message@ == interface_message(f),
            },
    {
        let b = name.as_bytes();
        if b.len() > 255 {
            return Err(InterfaceError::InvalidInterfaceName {
                message: "Interface names must not exceed the maximum name length (255)".to_owned(),
            });
        }
        if !contains_byte(b, 0, 46) {
            proof {
                assert(b@.skip(0) =~= b@);
            }
            return Err(InterfaceError::InvalidInterfaceName {
                message: "Interface names are composed of 2 or more elements separated by a period ('.') character".to_owned(),
            });
        }
        proof {
            assert(b@.skip(0) =~= b@);
        }
        match first_fault_exec(b, 0, 46, ElementRule::Identifier) {
            Some(ElementFault::Empty) => {
                return Err(InterfaceError::InvalidInterfaceName {
                    message: "All elements must contain at least one character".to_owned(),
                });
            },
            Some(_) => {
                return Err(InterfaceError::InvalidInterfaceName {
                    message: "Each element must only contain the ASCII characters \"[A-Z][a-z][0-9]_\" and must not begin with a digit".to_owned(),
                });
            },
            None => {},
        }
        Ok(Interface(name.to_owned()))
    }
}

impl DeepView for Interface {
    type V = Seq<char>;

    closed spec fn deep_view(&self) -> Seq<char> {
        self.0@
    }
}

impl Interface {
    pub fn as_str(&self) -> (s: &str)
        ensures
            s@ == self.deep_view(),
    {
        self.0.as_str()
    }
}

impl DBusType for Interface {
    open spec fn spec_code() -> u8 {
        <String as DBusType>::spec_code()
    }

    open spec fn spec_signature() -> Seq<char> {
        <String as DBusType>::spec_signature()
    }

    open spec fn spec_alignment() -> u8 {
        <String as DBusType>::spec_alignment()
    }

    open spec fn spec_well_formed(v: Seq<char>) -> bool {
        <String as DBusType>::spec_well_formed(v)
    }

    open spec fn spec_encode(v: Seq<char>, e: Endianness, pos: nat) -> Seq<u8> {
        <String as DBusType>::spec_encode(v, e, pos)
    }

    open spec fn spec_endianness_after(v: Seq<char>, e: Endianness) -> Endianness {
        e
    }

    open spec fn spec_decode(input: Seq<u8>, e: Endianness, pos: nat) -> Result<(Seq<char>, nat), Failure> {
        <String as DBusType>::spec_decode(input, e, pos)
    }

    fn code() -> (c: u8) {
        String::code()
    }

    fn signature() -> (s: String) {
        String::signature()
    }

    fn alignment() -> (a: u8) {
        String::alignment()
    }

    fn encode(&self, marshaller: &mut Marshaller) -> (r: Result<(), Error>) {
        self.0.encode(marshaller)
    }

    fn decode(marshaller: &mut Marshaller) -> (r: Result<Self, Error>) {
        let value = String::decode(marshaller)?;
        Ok(Interface(value))
    }

    proof fn lemma_decode_within(input: Seq<u8>, e: Endianness, pos: nat) {
    }

    proof fn lemma_roundtrip(v: Seq<char>, e: Endianness, pos: nat, rest: Seq<u8>) {
        <String as DBusType>::lemma_roundtrip(v, e, pos, rest);
    }
}

/// What is wrong with a would-be bus name.
#[derive(Debug, Clone, Copy, PartialEq, Eq, Structural)]
pub enum BusNameFault {
    TooLong,
    NoPeriod,
    LeadingPeriod,
    Element(ElementFault),
}

/// Whether the bus name whose UTF-8 bytes are `b` is a unique connection name.
pub open spec fn is_unique(b: Seq<u8>) -> bool {
    b.len() > 0 && b[0] == 58
}

/// The first thing wrong with the bus name whose UTF-8 bytes are `b`.
pub open spec fn bus_name_fault(b: Seq<u8>) -> Option<BusNameFault> {
    let unique = is_unique(b);
    let n = if unique {
        b.skip(1)
    } else {
        b
    };
    if b.len() > 255 {
        Some(BusNameFault::TooLong)
    } else if !n.contains(46u8) {
        Some(BusNameFault::NoPeriod)
    } else if n[0] == 46 {
        Some(BusNameFault::LeadingPeriod)
    } else {
        match first_fault(split(n, 46), ElementRule::Bus { unique }) {
            Some(f) => Some(BusNameFault::Element(f)),
            None => None,
        }
    }
}

pub open spec fn bus_name_message(f: BusNameFault) -> Seq<char> {
    match f {
        BusNameFault::TooLong => "Bus names must not exceed the maximum name length (255)"@,
        BusNameFault::NoPeriod => "Bus names must contain at least one '.' (period) character (and thus at least two elements)"@,
        BusNameFault::LeadingPeriod => "Bus names must not begin with a '.' (period) character"@,
        BusNameFault::Element(ElementFault::Empty) => "All elements must contain at least one character"@,
        BusNameFault::Element(ElementFault::LeadingDigit) => "Only elements that are part of a unique connection name may begin with a digit, elements in other bus names must not begin with a digit."@,
        BusNameFault::Element(ElementFault::BadChar) => "Each element must only contain the ASCII characters \"[A-Z][a-z][0-9]_-\""@,
    }
}

#[derive(Debug)]
pub enum BusNameError {
    InvalidBusName { message: String },
}

/// A bus name: a unique connection name such as `:1.42`, or a well-known
/// name such as `org.freedesktop.DBus`.
#[derive(Debug, Clone, PartialEq, Eq)]
pub struct BusName(String);

impl BusName {
    /// Checks `name` against the bus name rules: at most 255 bytes; after an
    /// optional leading ':' that marks a unique name, two or more elements
    /// separated by periods, each made of `[A-Z][a-z][0-9]_-`; only in a
    /// unique name may an element start with a digit.
    pub fn new(name: &str) -> (r: Result<Self, BusNameError>)
        ensures
            match bus_name_fault(encode_utf8(name@)) {
                None => r matches Ok(n) && n.deep_view() == name@,
                Some(f) => r matches Err(BusNameError::InvalidBusName { message })
                    && message@ == bus_name_message(f),
            },
    {
        let b = name.as_bytes();
        let unique = b.len() > 0 && b[0] == 58;
        if b.len() > 255 {
            return Err(BusNameError::InvalidBusName {
                message: "Bus names must not exceed the maximum name length (255)".to_owned(),
            });
        }
        let start: usize = if unique {
            1
        } else {
            0
        };
        proof {
            assert(b@.skip(0) =~= b@);
        }
        if !contains_byte(b, start, 46) {
            return Err(BusNameError::InvalidBusName {
                message: "Bus names must contain at least one '.' (period) character (and thus at least two elements)".to_owned(),
            });
        }
        if b[start] == 46 {
            return Err(BusNameError::InvalidBusName {
                message: "Bus names must not begin with a '.' (period) character".to_owned(),
            });
        }
        match first_fault_exec(b, start, 46, ElementRule::Bus { unique }) {
            Some(ElementFault::Empty) => {
                return Err(BusNameError::InvalidBusName {
                    message: "All elements must contain at least one character".to_owned(),
                });
            },
            Some(ElementFault::LeadingDigit) => {
                return Err(BusNameError::InvalidBusName {
                    message: "Only elements that are part of a unique connection name may begin with a digit, elements in other bus names must not begin with a digit.".to_owned(),
                });
            },
            Some(ElementFault::BadChar) => {
                return Err(BusNameError::InvalidBusName {
                    message: "Each element must only contain the ASCII characters \"[A-Z][a-z][0-9]_-\"".to_owned(),
                });
            },
            None => {},
        }
        Ok(BusName(name.to_owned()))
    }
}

impl DeepView for BusName {
    type V = Seq<char>;

    closed spec fn deep_view(&self) -> Seq<char> {
        self.0@
    }
}

impl BusName {
    pub fn as_str(&self) -> (s: &str)
        ensures
            s@ == self.deep_view(),
    {
        self.0.as_str()
    }
}

impl DBusType for BusName {
    open spec fn spec_code() -> u8 {
        <String as DBusType>::spec_code()
    }

    open spec fn spec_signature() -> Seq<char> {
        <String as DBusType>::spec_signature()
    }

    open spec fn spec_alignment() -> u8 {
        <String as DBusType>::spec_alignment()
    }

    open spec fn spec_well_formed(v: Seq<char>) -> bool {
        <String as DBusType>::spec_well_formed(v)
    }

    open spec fn spec_encode(v: Seq<char>, e: Endianness, pos: nat) -> Seq<u8> {
        <String as DBusType>::spec_encode(v, e, pos)
    }

    open spec fn spec_endianness_after(v: Seq<char>, e: Endianness) -> Endianness {
        e
    }

    open spec fn spec_decode(input: Seq<u8>, e: Endianness, pos: nat) -> Result<(Seq<char>, nat), Failure> {
        <String as DBusType>::spec_decode(input, e, pos)
    }

    fn code() -> (c: u8) {
        String::code()
    }

    fn signature() -> (s: String) {
        String::signature()
    }

    fn alignment() -> (a: u8) {
        String::alignment()
    }

    fn encode(&self, marshaller: &mut Marshaller) -> (r: Result<(), Error>) {
        self.0.encode(marshaller)
    }

    fn decode(marshaller: &mut Marshaller) -> (r: Result<Self, Error>) {
        let value = String::decode(marshaller)?;
        Ok(BusName(value))
    }

    proof fn lemma_decode_within(input: Seq<u8>, e: Endianness, pos: nat) {
    }

    proof fn lemma_roundtrip(v: Seq<char>, e: Endianness, pos: nat, rest: Seq<u8>) {
        <String as DBusType>::lemma_roundtrip(v, e, pos, rest);
    }
}

/// What is wrong with a would-be member name.
#[derive(Debug, Clone, Copy, PartialEq, Eq, Structural)]
pub enum MemberFault {
    Empty,
    TooLong,
    HasPeriod,
    BadChar,
}

/// The first thing wrong with the member name whose UTF-8 bytes are `b`.
pub open spec fn member_fault(b: Seq<u8>) -> Option<MemberFault> {
    if b.len() == 0 {
        Some(MemberFault::Empty)
    } else if b.len() > 255 {
        Some(MemberFault::TooLong)
    } else if b.contains(46u8) {
        Some(MemberFault::HasPeriod)
    } else if element_fault(b, ElementRule::Identifier) is Some {
        Some(MemberFault::BadChar)
    } else {
        None
    }
}

pub open spec fn member_message(f: MemberFault) -> Seq<char> {
    match f {
        MemberFault::Empty => "Member name must be at least 1 byte in length"@,
        MemberFault::TooLong => "Member name must not exceed the maximum name length (255)"@,
        MemberFault::HasPeriod => "Member name must not contain the '.' (period) character"@,
        MemberFault::BadChar => "Member name must only contain the ASCII characters \"[A-Z][a-z][0-9]_\" and may not begin with a digit"@,
    }
}

#[derive(Debug)]
pub enum MemberError {
    InvalidMemberName { message: String },
}

/// A method or signal name, such as `GetNameOwner`.
#[derive(Debug, Clone, PartialEq, Eq)]
pub struct Member(String);

impl Member {
    /// Checks `name` against the member name rules: 1 to 255 bytes of
    /// `[A-Z][a-z][0-9]_`, not starting with a digit.
    pub fn new(name: &str) -> (r: Result<Self, MemberError>)
        ensures
            match member_fault(encode_utf8(name@)) {
                None => r matches Ok(m) && m.deep_view() == name@,
                Some(f) => r matches Err(MemberError::InvalidMemberName { message })
                    && message@ == member_message(f),
            },
    {
        let b = name.as_bytes();
        if b.len() == 0 {
            return Err(MemberError::InvalidMemberName {
                message: "Member name must be at least 1 byte in length".to_owned(),
            });
        }
        if b.len() > 255 {
            return Err(MemberError::InvalidMemberName {
                message: "Member name must not exceed the maximum name length (255)".to_owned(),
            });
        }
        proof {
            assert(b@.skip(0) =~= b@);
        }
        if contains_byte(b, 0, 46) {
            return Err(MemberError::InvalidMemberName {
                message: "Member name must not contain the '.' (period) character".to_owned(),
            });
        }
        if element_fault_exec(b, ElementRule::Identifier).is_some() {
            return Err(MemberError::InvalidMemberName {
                message: "Member name must only contain the ASCII characters \"[A-Z][a-z][0-9]_\" and may not begin with a digit".to_owned(),
            });
        }
        Ok(Member(name.to_owned()))
    }
}

impl DeepView for Member {
    type V = Seq<char>;

    closed spec fn deep_view(&self) -> Seq<char> {
        self.0@
    }
}

impl Member {
    pub fn as_str(&self) -> (s: &str)
        ensures
            s@ == self.deep_view(),
    {
        self.0.as_str()
    }
}

impl DBusType for Member {
    open spec fn spec_code() -> u8 {
        <String as DBusType>::spec_code()
    }

    open spec fn spec_signature() -> Seq<char> {
        <String as DBusType>::spec_signature()
    }

    open spec fn spec_alignment() -> u8 {
        <String as DBusType>::spec_alignment()
    }

    open spec fn spec_well_formed(v: Seq<char>) -> bool {
        <String as DBusType>::spec_well_formed(v)
    }

    open spec fn spec_encode(v: Seq<char>, e: Endianness, pos: nat) -> Seq<u8> {
        <String as DBusType>::spec_encode(v, e, pos)
    }

    open spec fn spec_endianness_after(v: Seq<char>, e: Endianness) -> Endianness {
        e
    }

    open spec fn spec_decode(input: Seq<u8>, e: Endianness, pos: nat) -> Result<(Seq<char>, nat), Failure> {
        <String as DBusType>::spec_decode(input, e, pos)
    }

    fn code() -> (c: u8) {
        String::code()
    }

    fn signature() -> (s: String) {
        String::signature()
    }

    fn alignment() -> (a: u8) {
        String::alignment()
    }

    fn encode(&self, marshaller: &mut Marshaller) -> (r: Result<(), Error>) {
        self.0.encode(marshaller)
    }

    fn decode(marshaller: &mut Marshaller) -> (r: Result<Self, Error>) {
        let value = String::decode(marshaller)?;
        Ok(Member(value))
    }

    proof fn lemma_decode_within(input: Seq<u8>, e: Endianness, pos: nat) {
    }

    proof fn lemma_roundtrip(v: Seq<char>, e: Endianness, pos: nat, rest: Seq<u8>) {
        <String as DBusType>::lemma_roundtrip(v, e, pos, rest);
    }
}

/// An error name: it follows the interface name rules.
#[derive(Debug, Clone, PartialEq, Eq)]
pub struct ErrorName(String);

impl ErrorName {
    pub fn new(name: &str) -> (r: Result<Self, InterfaceError>)
        ensures
            match interface_fault(encode_utf8(name@)) {
                None => r matches Ok(n) && n.deep_view() == name@,
                Some(f) => r matches Err(InterfaceError::InvalidInterfaceName { message })
                    && message@ == interface_message(f),
            },
    {
        let interface = Interface::new(name)?;
        Ok(ErrorName(interface.0))
    }
}

impl DeepView for ErrorName {
    type V = Seq<char>;

    closed spec fn deep_view(&self) -> Seq<char> {
        self.0@
    }
}

impl ErrorName {
    pub fn as_str(&self) -> (s: &str)
        ensures
            s@ == self.deep_view(),
    {
        self.0.as_str()
    }
}

impl DBusType for ErrorName {
    open spec fn spec_code() -> u8 {
        <String as DBusType>::spec_code()
    }

    open spec fn spec_signature() -> Seq<char> {
        <String as DBusType>::spec_signature()
    }

    open spec fn spec_alignment() -> u8 {
        <String as DBusType>::spec_alignment()
    }

    open spec fn spec_well_formed(v: Seq<char>) -> bool {
        <String as DBusType>::spec_well_formed(v)
    }

    open spec fn spec_encode(v: Seq<char>, e: Endianness, pos: nat) -> Seq<u8> {
        <String as DBusType>::spec_encode(v, e, pos)
    }

    open spec fn spec_endianness_after(v: Seq<char>, e: Endianness) -> Endianness {
        e
    }

    open spec fn spec_decode(input: Seq<u8>, e: Endianness, pos: nat) -> Result<(Seq<char>, nat), Failure> {
        <String as DBusType>::spec_decode(input, e, pos)
    }

    fn code() -> (c: u8) {
        String::code()
    }

    fn signature() -> (s: String) {
        String::signature()
    }

    fn alignment() -> (a: u8) {
        String::alignment()
    }

    fn encode(&self, marshaller: &mut Marshaller) -> (r: Result<(), Error>) {
        self.0.encode(marshaller)
    }

    fn decode(marshaller: &mut Marshaller) -> (r: Result<Self, Error>) {
        let value = String::decode(marshaller)?;
        Ok(ErrorName(value))
    }

    proof fn lemma_decode_within(input: Seq<u8>, e: Endianness, pos: nat) {
    }

    proof fn lemma_roundtrip(v: Seq<char>, e: Endianness, pos: nat, rest: Seq<u8>) {
        <String as DBusType>::lemma_roundtrip(v, e, pos, rest);
    }
}

} // verus!
