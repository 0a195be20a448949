//! What the D-Bus wire protocol fixes of a message header, stated with the
//! protocol's own numbers.
use crate::message::names::{bus_name_fault, interface_fault, is_unique, member_fault};
use crate::types::element::{lemma_elements_ok_bytes, split, ElementRule};
use crate::message::{Endianness, Flags, HeaderField, HeaderFieldModel, MessageHeader, MessageType};
use crate::types::{DBusType, Failure};
use vstd::prelude::*;
use vstd::utf8::encode_utf8;

verus! {

/// The byte of each message type is the one the protocol assigns: invalid 0,
/// method call 1, method return 2, error 3, signal 4. Reading such a byte
/// gives back that type, and any other byte is refused.
pub proof fn lemma_message_type_bytes(e: Endianness, pos: nat, rest: Seq<u8>)
    ensures
        MessageType::spec_encode(MessageType::Invalid, e, pos) == seq![0u8],
        MessageType::spec_encode(MessageType::MethodCall, e, pos) == seq![1u8],
        MessageType::spec_encode(MessageType::MethodReturn, e, pos) == seq![2u8],
        MessageType::spec_encode(MessageType::Error, e, pos) == seq![3u8],
        MessageType::spec_encode(MessageType::Signal, e, pos) == seq![4u8],
        MessageType::spec_decode(seq![0u8] + rest, e, pos) == Ok::<(MessageType, nat), Failure>(
            (MessageType::Invalid, 1),
        ),
        MessageType::spec_decode(seq![1u8] + rest, e, pos) == Ok::<(MessageType, nat), Failure>(
            (MessageType::MethodCall, 1),
        ),
        MessageType::spec_decode(seq![2u8] + rest, e, pos) == Ok::<(MessageType, nat), Failure>(
            (MessageType::MethodReturn, 1),
        ),
        MessageType::spec_decode(seq![3u8] + rest, e, pos) == Ok::<(MessageType, nat), Failure>(
            (MessageType::Error, 1),
        ),
        MessageType::spec_decode(seq![4u8] + rest, e, pos) == Ok::<(MessageType, nat), Failure>(
            (MessageType::Signal, 1),
        ),
        forall|b: u8|
            b > 4 ==> #[trigger] MessageType::spec_decode(seq![b] + rest, e, pos) == Err::<
                (MessageType, nat),
                Failure,
            >(Failure::InvalidVariant(b as u64)),
{
    assert((seq![0u8] + rest)[0] == 0u8);
    assert((seq![1u8] + rest)[0] == 1u8);
    assert((seq![2u8] + rest)[0] == 2u8);
    assert((seq![3u8] + rest)[0] == 3u8);
    assert((seq![4u8] + rest)[0] == 4u8);
    assert forall|b: u8| b > 4 implies #[trigger] MessageType::spec_decode(
        seq![b] + rest,
        e,
        pos,
    ) == Err::<(MessageType, nat), Failure>(Failure::InvalidVariant(b as u64)) by {
        assert((seq![b] + rest)[0] == b);
    }
}

/// The byte order is written as the ASCII letter the protocol assigns: `B`
/// (66) for big endian, `l` (108) for little endian, and read back from it.
pub proof fn lemma_endianness_bytes(e: Endianness, pos: nat, rest: Seq<u8>)
    ensures
        Endianness::spec_encode(Endianness::Big, e, pos) == seq![66u8],
        Endianness::spec_encode(Endianness::Little, e, pos) == seq![108u8],
        Endianness::spec_decode(seq![66u8] + rest, e, pos) == Ok::<(Endianness, nat), Failure>(
            (Endianness::Big, 1),
        ),
        Endianness::spec_decode(seq![108u8] + rest, e, pos) == Ok::<(Endianness, nat), Failure>(
            (Endianness::Little, 1),
        ),
        forall|b: u8|
            b != 66 && b != 108 ==> #[trigger] Endianness::spec_decode(seq![b] + rest, e, pos)
                == Err::<(Endianness, nat), Failure>(Failure::InvalidVariant(b as u64)),
{
    assert((seq![66u8] + rest)[0] == 66u8);
    assert((seq![108u8] + rest)[0] == 108u8);
    assert forall|b: u8| b != 66 && b != 108 implies #[trigger] Endianness::spec_decode(
        seq![b] + rest,
        e,
        pos,
    ) == Err::<(Endianness, nat), Failure>(Failure::InvalidVariant(b as u64)) by {
        assert((seq![b] + rest)[0] == b);
    }
}

/// Each header field is written starting with the code the protocol gives
/// its kind: path 1, interface 2, member 3, error name 4, reply serial 5,
/// destination 6, sender 7, signature 8, unix fds 9 (0 for the invalid
/// field).
pub proof fn lemma_header_field_codes(x: Seq<char>, n: u32, e: Endianness, pos: nat)
    ensures
        HeaderField::spec_encode(HeaderFieldModel::Invalid, e, pos)[0] == 0u8,
        HeaderField::spec_encode(HeaderFieldModel::Path(x), e, pos)[0] == 1u8,
        HeaderField::spec_encode(HeaderFieldModel::Interface(x), e, pos)[0] == 2u8,
        HeaderField::spec_encode(HeaderFieldModel::Member(x), e, pos)[0] == 3u8,
        HeaderField::spec_encode(HeaderFieldModel::ErrorName(x), e, pos)[0] == 4u8,
        HeaderField::spec_encode(HeaderFieldModel::ReplySerial(n), e, pos)[0] == 5u8,
        HeaderField::spec_encode(HeaderFieldModel::Destination(x), e, pos)[0] == 6u8,
        HeaderField::spec_encode(HeaderFieldModel::Sender(x), e, pos)[0] == 7u8,
        HeaderField::spec_encode(HeaderFieldModel::Signature(x), e, pos)[0] == 8u8,
        HeaderField::spec_encode(HeaderFieldModel::UnixFds(n), e, pos)[0] == 9u8,
{
}

/// A header field read from bytes is of the kind the first byte names, by
/// the protocol's codes; a first byte above 9 names no field.
pub proof fn lemma_header_field_kind(input: Seq<u8>, e: Endianness, pos: nat)
    ensures
        HeaderField::spec_decode(input, e, pos) matches Ok((v, _)) ==> {
            &&& input.len() >= 1
            &&& (v is Invalid <==> input[0] == 0u8)
            &&& (v is Path <==> input[0] == 1u8)
            &&& (v is Interface <==> input[0] == 2u8)
            &&& (v is Member <==> input[0] == 3u8)
            &&& (v is ErrorName <==> input[0] == 4u8)
            &&& (v is ReplySerial <==> input[0] == 5u8)
            &&& (v is Destination <==> input[0] == 6u8)
            &&& (v is Sender <==> input[0] == 7u8)
            &&& (v is Signature <==> input[0] == 8u8)
            &&& (v is UnixFds <==> input[0] == 9u8)
        },
{
}

/// A member name is accepted exactly when it is 1 to 255 bytes, each an
/// ASCII letter (65-90, 97-122), digit (48-57) or underscore (95), and the
/// first is not a digit.
pub proof fn lemma_member_names(b: Seq<u8>)
    ensures
        member_fault(b) is None <==> {
            &&& 1 <= b.len() <= 255
            &&& forall|i: int|
                0 <= i < b.len() ==> {
                    let c = #[trigger] b[i];
                    (65 <= c <= 90) || (97 <= c <= 122) || (48 <= c <= 57) || c == 95
                }
            &&& !(48 <= b[0] <= 57)
        },
{
    if 1 <= b.len() <= 255 && (forall|i: int|
        0 <= i < b.len() ==> {
            let c = #[trigger] b[i];
            (65 <= c <= 90) || (97 <= c <= 122) || (48 <= c <= 57) || c == 95
        }) {
        if b.contains(46u8) {
            let k = choose|k: int| 0 <= k < b.len() && b[k] == 46u8;
            assert(b[k] == 46u8);
        }
    }
}

/// A one-character ASCII text is the one byte of that character.
proof fn lemma_ascii_char(c: char)
    requires
        (c as u32) < 128,
    ensures
        encode_utf8(seq![c]) == seq![(c as u32) as u8],
{
    let v = c as u32;
    assert((v & 0x7F) as u8 == v as u8) by (bit_vector)
        requires
            v < 128,
    ;
    let one = seq![c];
    assert(one[0] == c);
    assert(one.drop_first() =~= Seq::<char>::empty());
    assert(encode_utf8(Seq::<char>::empty()) =~= Seq::<u8>::empty());
    assert(vstd::utf8::encode_scalar(v) == seq![(v & 0x7F) as u8]);
    assert(encode_utf8(one) == vstd::utf8::encode_scalar(v) + encode_utf8(one.drop_first()));
    assert(encode_utf8(one) =~= seq![v as u8]);
}

/// After its code, each header field gives the signature of its value, as
/// a length byte 1, the type letter and a zero byte: `o` (111) for the path,
/// `s` (115) for the interface, member, error name, destination and sender,
/// `u` (117) for the reply serial and unix fds, `g` (103) for the
/// signature; the invalid field gives the empty signature.
pub proof fn lemma_header_field_signatures(x: Seq<char>, n: u32, e: Endianness, pos: nat)
    ensures
        HeaderField::spec_encode(HeaderFieldModel::Invalid, e, pos).subrange(1, 3) == seq![0u8, 0u8],
        HeaderField::spec_encode(HeaderFieldModel::Path(x), e, pos).subrange(1, 4) == seq![1u8, 111u8, 0u8],
        HeaderField::spec_encode(HeaderFieldModel::Interface(x), e, pos).subrange(1, 4) == seq![1u8, 115u8, 0u8],
        HeaderField::spec_encode(HeaderFieldModel::Member(x), e, pos).subrange(1, 4) == seq![1u8, 115u8, 0u8],
        HeaderField::spec_encode(HeaderFieldModel::ErrorName(x), e, pos).subrange(1, 4) == seq![1u8, 115u8, 0u8],
        HeaderField::spec_encode(HeaderFieldModel::ReplySerial(n), e, pos).subrange(1, 4) == seq![1u8, 117u8, 0u8],
        HeaderField::spec_encode(HeaderFieldModel::Destination(x), e, pos).subrange(1, 4) == seq![1u8, 115u8, 0u8],
        HeaderField::spec_encode(HeaderFieldModel::Sender(x), e, pos).subrange(1, 4) == seq![1u8, 115u8, 0u8],
        HeaderField::spec_encode(HeaderFieldModel::Signature(x), e, pos).subrange(1, 4) == seq![1u8, 103u8, 0u8],
        HeaderField::spec_encode(HeaderFieldModel::UnixFds(n), e, pos).subrange(1, 4) == seq![1u8, 117u8, 0u8],
{
    lemma_ascii_char('o');
    lemma_ascii_char('s');
    lemma_ascii_char('u');
    lemma_ascii_char('g');
    assert(encode_utf8(Seq::<char>::empty()) =~= Seq::<u8>::empty());
    assert(HeaderField::spec_encode(HeaderFieldModel::Invalid, e, pos).subrange(1, 3) =~= seq![0u8, 0u8]);
    assert(HeaderField::spec_encode(HeaderFieldModel::Path(x), e, pos).subrange(1, 4) =~= seq![1u8, 111u8, 0u8]);
    assert(HeaderField::spec_encode(HeaderFieldModel::Interface(x), e, pos).subrange(1, 4) =~= seq![1u8, 115u8, 0u8]);
    assert(HeaderField::spec_encode(HeaderFieldModel::Member(x), e, pos).subrange(1, 4) =~= seq![1u8, 115u8, 0u8]);
    assert(HeaderField::spec_encode(HeaderFieldModel::ErrorName(x), e, pos).subrange(1, 4) =~= seq![1u8, 115u8, 0u8]);
    assert(HeaderField::spec_encode(HeaderFieldModel::ReplySerial(n), e, pos).subrange(1, 4) =~= seq![1u8, 117u8, 0u8]);
    assert(HeaderField::spec_encode(HeaderFieldModel::Destination(x), e, pos).subrange(1, 4) =~= seq![1u8, 115u8, 0u8]);
    assert(HeaderField::spec_encode(HeaderFieldModel::Sender(x), e, pos).subrange(1, 4) =~= seq![1u8, 115u8, 0u8]);
    assert(HeaderField::spec_encode(HeaderFieldModel::Signature(x), e, pos).subrange(1, 4) =~= seq![1u8, 103u8, 0u8]);
    assert(HeaderField::spec_encode(HeaderFieldModel::UnixFds(n), e, pos).subrange(1, 4) =~= seq![1u8, 117u8, 0u8]);
}

/// The header is a structure of its fields in order: byte order, type,
/// flags and version as bytes, body size and serial as 32-bit integers,
/// and an array of `(yv)` fields, so its signature is `(yyyyuua(yv))`.
pub proof fn lemma_header_signature()
    ensures
        MessageHeader::spec_signature() == seq!['('] + Endianness::spec_signature()
            + MessageType::spec_signature() + Flags::spec_signature() + u8::spec_signature()
            + u32::spec_signature() + u32::spec_signature() + <Vec<HeaderField>>::spec_signature()
            + seq![')'],
        MessageHeader::spec_signature() == seq![
            '(', 'y', 'y', 'y', 'y', 'u', 'u', 'a', '(', 'y', 'v', ')', ')',
        ],
{
    assert(MessageHeader::spec_signature() =~= seq!['('] + Endianness::spec_signature()
        + MessageType::spec_signature() + Flags::spec_signature() + u8::spec_signature()
        + u32::spec_signature() + u32::spec_signature() + <Vec<HeaderField>>::spec_signature()
        + seq![')']);
}

/// An accepted interface name (and so an accepted error name) is at most
/// 255 bytes of ASCII letters (65-90, 97-122), digits (48-57), underscores
/// (95) and periods (46); it has a period, does not start or end with one or
/// hold two in a row, and neither it nor any part after a period starts with
/// a digit.
pub proof fn lemma_interface_names(b: Seq<u8>)
    ensures
        interface_fault(b) is None ==> {
            &&& 1 <= b.len() <= 255
            &&& exists|i: int| 0 <= i < b.len() && b[i] == 46u8
            &&& forall|i: int|
                0 <= i < b.len() ==> {
                    let c = #[trigger] b[i];
                    (65 <= c <= 90) || (97 <= c <= 122) || (48 <= c <= 57) || c == 95 || c == 46
                }
            &&& b[0] != 46u8 && !(48 <= b[0] <= 57)
            &&& b[b.len() - 1] != 46u8
            &&& forall|i: int|
                0 <= i < b.len() - 1 && #[trigger] b[i] == 46u8 ==> b[i + 1] != 46u8 && !(48
                    <= b[i + 1] <= 57)
        },
{
    if interface_fault(b) is None {
        lemma_elements_ok_bytes(b, 46u8, ElementRule::Identifier);
        assert(b.contains(46u8));
        assert forall|i: int| 0 <= i < b.len() implies {
            let c = #[trigger] b[i];
            (65 <= c <= 90) || (97 <= c <= 122) || (48 <= c <= 57) || c == 95 || c == 46
        } by {
            if b[i] != 46u8 {
                assert(crate::types::element::is_word(b[i]));
            }
        }
    }
}

/// A bus name without the colon (58) that marks a unique connection name.
pub open spec fn after_colon(b: Seq<u8>) -> Seq<u8> {
    if b.len() > 0 && b[0] == 58u8 {
        b.skip(1)
    } else {
        b
    }
}

/// An accepted bus name is at most 255 bytes. After a leading colon, which
/// marks a unique connection name, it is ASCII letters, digits, underscores,
/// hyphens (45) and periods; it has a period, does not start or end with one
/// or hold two in a row, and unless it is unique, neither it nor any part
/// after a period starts with a digit.
pub proof fn lemma_bus_names(b: Seq<u8>)
    ensures
        bus_name_fault(b) is None ==> b.len() <= 255 && after_colon(b).len() >= 1,
        bus_name_fault(b) is None ==> exists|i: int|
            0 <= i < after_colon(b).len() && after_colon(b)[i] == 46u8,
        bus_name_fault(b) is None ==> forall|i: int|
            0 <= i < after_colon(b).len() ==> {
                let c = #[trigger] after_colon(b)[i];
                (65 <= c <= 90) || (97 <= c <= 122) || (48 <= c <= 57) || c == 95 || c == 45
                    || c == 46
            },
        bus_name_fault(b) is None ==> after_colon(b)[0] != 46u8 && after_colon(b)[after_colon(
            b,
        ).len() - 1] != 46u8,
        bus_name_fault(b) is None ==> forall|i: int|
            0 <= i < after_colon(b).len() - 1 && #[trigger] after_colon(b)[i] == 46u8
                ==> after_colon(b)[i + 1] != 46u8,
        bus_name_fault(b) is None && !(b.len() > 0 && b[0] == 58u8) ==> !(48 <= b[0] <= 57)
            && forall|i: int|
            0 <= i < b.len() - 1 && #[trigger] b[i] == 46u8 ==> !(48 <= b[i + 1] <= 57),
{
    if bus_name_fault(b) is None {
        let unique = is_unique(b);
        let n = after_colon(b);
        lemma_elements_ok_bytes(n, 46u8, ElementRule::Bus { unique });
        assert(n.contains(46u8));
        assert forall|i: int| 0 <= i < n.len() implies {
            let c = #[trigger] n[i];
            (65 <= c <= 90) || (97 <= c <= 122) || (48 <= c <= 57) || c == 95 || c == 45 || c == 46
        } by {
            if n[i] != 46u8 {
                assert(crate::types::element::is_bus_char(n[i]));
            }
        }
        if !unique {
            assert(n == b);
            assert(ElementRule::Bus { unique } == (ElementRule::Bus { unique: false }));
            assert forall|i: int| 0 <= i < b.len() - 1 && #[trigger] b[i] == 46u8 implies !(48
                <= b[i + 1] <= 57) by {
                assert(!crate::types::element::is_digit(n[i + 1]));
            }
        }
    }
}

/// Flags are written as one byte whose bits 1, 2 and 4 are no reply
/// expected, no auto start and allow interactive authorization; reading a
/// byte keeps those three bits and drops the rest.
pub proof fn lemma_flag_bytes(v: u8, b: u8, e: Endianness, pos: nat, rest: Seq<u8>)
    ensures
        Flags::spec_encode(v, e, pos) == seq![v],
        Flags::spec_decode(seq![b] + rest, e, pos) == Ok::<(u8, nat), Failure>(
            ((b % 8) as u8, 1),
        ),
{
    assert((seq![b] + rest)[0] == b);
    assert(b & 7u8 == (b % 8) as u8) by (bit_vector);
}

} // verus!
