//! What the D-Bus specification fixes of each type: its type code, its
//! signature, its alignment and the layout of its bytes, stated with the
//! specification's own letters and numbers.
use crate::marshal::cursor::padding_for;
use crate::marshal::zeros;
use crate::message::Endianness;
use crate::types::array::encode_seq;
use crate::types::element::{is_word, lemma_elements_ok_bytes, ElementRule};
use crate::types::string::object_path_fault;
use crate::types::{DBusBasicType, DBusType, Dict, DictEntry, ObjectPath, Signature, UnixFd};
use crate::{Arg, Inner, Test};
use vstd::prelude::*;
use vstd::utf8::encode_utf8;

verus! {

/// The basic types have the codes, signatures and alignments of the D-Bus
/// specification: `y` byte 1, `b` boolean 4, `n` int16 2, `q` uint16 2,
/// `i` int32 4, `u` uint32 4, `x` int64 8, `t` uint64 8, `h` unix fd 4,
/// `s` string 4, `o` object path 4, `g` signature 1; the code is the ASCII
/// value of the letter.
pub proof fn lemma_basic_type_codes()
    ensures
        u8::spec_code() == 121u8 && u8::spec_signature() == seq!['y'] && u8::spec_alignment() == 1u8,
        bool::spec_code() == 98u8 && bool::spec_signature() == seq!['b'] && bool::spec_alignment()
            == 4u8,
        i16::spec_code() == 110u8 && i16::spec_signature() == seq!['n'] && i16::spec_alignment()
            == 2u8,
        u16::spec_code() == 113u8 && u16::spec_signature() == seq!['q'] && u16::spec_alignment()
            == 2u8,
        i32::spec_code() == 105u8 && i32::spec_signature() == seq!['i'] && i32::spec_alignment()
            == 4u8,
        u32::spec_code() == 117u8 && u32::spec_signature() == seq!['u'] && u32::spec_alignment()
            == 4u8,
        i64::spec_code() == 120u8 && i64::spec_signature() == seq!['x'] && i64::spec_alignment()
            == 8u8,
        u64::spec_code() == 116u8 && u64::spec_signature() == seq!['t'] && u64::spec_alignment()
            == 8u8,
        UnixFd::spec_code() == 104u8 && UnixFd::spec_signature() == seq!['h']
            && UnixFd::spec_alignment() == 4u8,
        String::spec_code() == 115u8 && String::spec_signature() == seq!['s']
            && String::spec_alignment() == 4u8,
        ObjectPath::spec_code() == 111u8 && ObjectPath::spec_signature() == seq!['o']
            && ObjectPath::spec_alignment() == 4u8,
        Signature::spec_code() == 103u8 && Signature::spec_signature() == seq!['g']
            && Signature::spec_alignment() == 1u8,
{
}

/// An array is `a` followed by its element's signature, aligned to 4; a
/// dictionary entry is its key's and value's signatures in braces, aligned
/// to 8; a dictionary is an array of its entries.
pub proof fn lemma_container_codes<T: DBusType, K: DBusBasicType, V: DBusType>()
    ensures
        <Vec<T>>::spec_code() == 97u8,
        <Vec<T>>::spec_signature() == seq!['a'] + T::spec_signature(),
        <Vec<T>>::spec_alignment() == 4u8,
        <DictEntry<K, V>>::spec_signature() == seq!['{'] + K::spec_signature() + V::spec_signature()
            + seq!['}'],
        <DictEntry<K, V>>::spec_alignment() == 8u8,
        <Dict<K, V>>::spec_signature() == seq!['a', '{'] + K::spec_signature()
            + V::spec_signature() + seq!['}'],
{
    assert(seq!['a'] + (seq!['{'] + K::spec_signature() + V::spec_signature() + seq!['}'])
        =~= seq!['a', '{'] + K::spec_signature() + V::spec_signature() + seq!['}']);
}

/// The structures of this crate are their fields' signatures in
/// parentheses: a byte and a string is `(ys)`; a byte, an array of 16-bit
/// values and a string is `(yaqs)`; two of those and an array of strings is
/// `((yaqs)(yaqs)as)`. A structure has code `r` and alignment 8.
pub proof fn lemma_struct_signatures()
    ensures
        Arg::spec_signature() == seq!['(', 'y', 's', ')'],
        Test::spec_signature() == seq!['(', 'y', 'a', 'q', 's', ')'],
        Inner::spec_signature() == seq![
            '(',
            '(',
            'y',
            'a',
            'q',
            's',
            ')',
            '(',
            'y',
            'a',
            'q',
            's',
            ')',
            'a',
            's',
            ')',
        ],
        Arg::spec_code() == 114u8 && Arg::spec_alignment() == 8u8,
        Test::spec_code() == 114u8 && Test::spec_alignment() == 8u8,
        Inner::spec_code() == 114u8 && Inner::spec_alignment() == 8u8,
{
    assert(Arg::spec_signature() =~= seq!['(', 'y', 's', ')']);
    assert(Test::spec_signature() =~= seq!['(', 'y', 'a', 'q', 's', ')']);
    assert(Inner::spec_signature() =~= seq![
        '(',
        '(',
        'y',
        'a',
        'q',
        's',
        ')',
        '(',
        'y',
        'a',
        'q',
        's',
        ')',
        'a',
        's',
        ')',
    ]);
}

/// Unsigned integers are written as their base-256 digits: least
/// significant first in little endian, most significant first in big
/// endian.
pub proof fn lemma_unsigned_bytes(a: u16, b: u32, c: u64, pos: nat)
    ensures
        u16::spec_encode(a, Endianness::Little, pos) == seq![(a % 256) as u8, (a / 256) as u8],
        u16::spec_encode(a, Endianness::Big, pos) == seq![(a / 256) as u8, (a % 256) as u8],
        u32::spec_encode(b, Endianness::Little, pos) == seq![
            (b % 256) as u8,
            ((b / 256) % 256) as u8,
            ((b / 65536) % 256) as u8,
            (b / 16777216) as u8,
        ],
        u32::spec_encode(b, Endianness::Big, pos) == seq![
            (b / 16777216) as u8,
            ((b / 65536) % 256) as u8,
            ((b / 256) % 256) as u8,
            (b % 256) as u8,
        ],
        u64::spec_encode(c, Endianness::Little, pos) == seq![
            (c % 256) as u8,
            ((c / 0x100) % 256) as u8,
            ((c / 0x10000) % 256) as u8,
            ((c / 0x1000000) % 256) as u8,
            ((c / 0x100000000) % 256) as u8,
            ((c / 0x10000000000) % 256) as u8,
            ((c / 0x1000000000000) % 256) as u8,
            (c / 0x100000000000000) as u8,
        ],
        u64::spec_encode(c, Endianness::Big, pos) == seq![
            (c / 0x100000000000000) as u8,
            ((c / 0x1000000000000) % 256) as u8,
            ((c / 0x10000000000) % 256) as u8,
            ((c / 0x100000000) % 256) as u8,
            ((c / 0x1000000) % 256) as u8,
            ((c / 0x10000) % 256) as u8,
            ((c / 0x100) % 256) as u8,
            (c % 256) as u8,
        ],
{
    assert((a & 0xff) as u8 == (a % 256) as u8) by (bit_vector);
    assert(((a >> 8u16) & 0xff) as u8 == (a / 256) as u8) by (bit_vector);
    assert((b & 0xff) as u8 == (b % 256) as u8) by (bit_vector);
    assert(((b >> 8u32) & 0xff) as u8 == ((b / 256) % 256) as u8) by (bit_vector);
    assert(((b >> 16u32) & 0xff) as u8 == ((b / 65536) % 256) as u8) by (bit_vector);
    assert(((b >> 24u32) & 0xff) as u8 == (b / 16777216) as u8) by (bit_vector);
    assert((c & 0xff) as u8 == (c % 256) as u8) by (bit_vector);
    assert(((c >> 8u64) & 0xff) as u8 == ((c / 0x100) % 256) as u8) by (bit_vector);
    assert(((c >> 16u64) & 0xff) as u8 == ((c / 0x10000) % 256) as u8) by (bit_vector);
    assert(((c >> 24u64) & 0xff) as u8 == ((c / 0x1000000) % 256) as u8) by (bit_vector);
    assert(((c >> 32u64) & 0xff) as u8 == ((c / 0x100000000) % 256) as u8) by (bit_vector);
    assert(((c >> 40u64) & 0xff) as u8 == ((c / 0x10000000000) % 256) as u8) by (bit_vector);
    assert(((c >> 48u64) & 0xff) as u8 == ((c / 0x1000000000000) % 256) as u8) by (bit_vector);
    assert(((c >> 56u64) & 0xff) as u8 == (c / 0x100000000000000) as u8) by (bit_vector);
    assert(u16::spec_encode(a, Endianness::Little, pos) =~= seq![(a % 256) as u8, (a / 256) as u8]);
    assert(u16::spec_encode(a, Endianness::Big, pos) =~= seq![(a / 256) as u8, (a % 256) as u8]);
    assert(u32::spec_encode(b, Endianness::Little, pos) =~= seq![
        (b % 256) as u8,
        ((b / 256) % 256) as u8,
        ((b / 65536) % 256) as u8,
        (b / 16777216) as u8,
    ]);
    assert(u32::spec_encode(b, Endianness::Big, pos) =~= seq![
        (b / 16777216) as u8,
        ((b / 65536) % 256) as u8,
        ((b / 256) % 256) as u8,
        (b % 256) as u8,
    ]);
    assert(u64::spec_encode(c, Endianness::Little, pos) =~= seq![
        (c % 256) as u8,
        ((c / 0x100) % 256) as u8,
        ((c / 0x10000) % 256) as u8,
        ((c / 0x1000000) % 256) as u8,
        ((c / 0x100000000) % 256) as u8,
        ((c / 0x10000000000) % 256) as u8,
        ((c / 0x1000000000000) % 256) as u8,
        (c / 0x100000000000000) as u8,
    ]);
    assert(u64::spec_encode(c, Endianness::Big, pos) =~= seq![
        (c / 0x100000000000000) as u8,
        ((c / 0x1000000000000) % 256) as u8,
        ((c / 0x10000000000) % 256) as u8,
        ((c / 0x100000000) % 256) as u8,
        ((c / 0x1000000) % 256) as u8,
        ((c / 0x10000) % 256) as u8,
        ((c / 0x100) % 256) as u8,
        (c % 256) as u8,
    ]);
}

/// Signed integers are written as the unsigned integers of the same bits,
/// and a boolean as the 32-bit integer 1 for true and 0 for false.
pub proof fn lemma_signed_and_bool_bytes(a: i16, b: i32, c: i64, e: Endianness, pos: nat)
    ensures
        i16::spec_encode(a, e, pos) == u16::spec_encode(a as u16, e, pos),
        i32::spec_encode(b, e, pos) == u32::spec_encode(b as u32, e, pos),
        i64::spec_encode(c, e, pos) == u64::spec_encode(c as u64, e, pos),
        bool::spec_encode(true, e, pos) == u32::spec_encode(1u32, e, pos),
        bool::spec_encode(false, e, pos) == u32::spec_encode(0u32, e, pos),
{
}

/// A string (and an object path) is its UTF-8 byte count as a 32-bit
/// integer, its UTF-8 bytes and a zero byte; a signature is its byte count as
/// one byte, its bytes and a zero byte.
pub proof fn lemma_string_layout(s: Seq<char>, e: Endianness, pos: nat)
    ensures
        String::spec_encode(s, e, pos) == u32::spec_encode(encode_utf8(s).len() as u32, e, pos)
            + encode_utf8(s) + seq![0u8],
        ObjectPath::spec_encode(s, e, pos) == String::spec_encode(s, e, pos),
        Signature::spec_encode(s, e, pos) == seq![encode_utf8(s).len() as u8] + encode_utf8(s)
            + seq![0u8],
{
    assert(String::spec_encode(s, e, pos) =~= u32::spec_encode(encode_utf8(s).len() as u32, e, pos)
        + encode_utf8(s) + seq![0u8]);
    assert(Signature::spec_encode(s, e, pos) =~= seq![encode_utf8(s).len() as u8] + encode_utf8(s)
        + seq![0u8]);
}

/// An array is the byte count of its elements as a 32-bit integer, the zero
/// bytes that bring the stream to the elements' alignment, and the elements;
/// the count leaves out the padding.
pub proof fn lemma_array_layout<T: DBusType>(v: Seq<T::V>, e: Endianness, pos: nat)
    ensures
        ({
            let b = <Vec<T>>::spec_encode(v, e, pos);
            let p = padding_for(pos + 4, T::spec_alignment() as nat);
            &&& b.len() >= 4 + p
            &&& b.take(4) == u32::spec_encode((b.len() - 4 - p) as u32, e, pos)
            &&& b.subrange(4, (4 + p) as int) == zeros(p)
        }),
{
    let data = encode_seq::<T>(v, e, 0);
    let p = padding_for(pos + 4, T::spec_alignment() as nat);
    let b = <Vec<T>>::spec_encode(v, e, pos);
    crate::marshal::endian::lemma_u32_roundtrip(data.len() as u32, e);
    assert(b.len() == 4 + p + data.len());
    assert(b.take(4) =~= u32::spec_encode(data.len() as u32, e, pos));
    assert(b.subrange(4, (4 + p) as int) =~= zeros(p));
}

/// An accepted object path starts with a slash (47) and is made of ASCII
/// letters, digits, underscores and slashes; it holds no two slashes in a
/// row and, unless it is the root path `/`, does not end with a slash.
pub proof fn lemma_object_paths(b: Seq<u8>)
    ensures
        object_path_fault(b) is None ==> {
            &&& b.len() >= 1
            &&& b[0] == 47u8
            &&& forall|i: int|
                0 <= i < b.len() ==> {
                    let c = #[trigger] b[i];
                    (65 <= c <= 90) || (97 <= c <= 122) || (48 <= c <= 57) || c == 95 || c == 47
                }
            &&& b.len() > 1 ==> b[b.len() - 1] != 47u8
            &&& forall|i: int| 0 <= i < b.len() - 1 && #[trigger] b[i] == 47u8 ==> b[i + 1] != 47u8
        },
{
    if object_path_fault(b) is None && b.len() > 1 {
        let r = b.skip(1);
        lemma_elements_ok_bytes(r, 47u8, ElementRule::Path);
        assert forall|i: int| 0 <= i < b.len() implies {
            let c = #[trigger] b[i];
            (65 <= c <= 90) || (97 <= c <= 122) || (48 <= c <= 57) || c == 95 || c == 47
        } by {
            if i > 0 && b[i] != 47u8 {
                assert(b[i] == r[i - 1]);
                assert(is_word(r[i - 1]));
            }
        }
        assert forall|i: int| 0 <= i < b.len() - 1 && #[trigger] b[i] == 47u8 implies b[i + 1] != 47u8 by {
            if i > 0 {
                assert(r[i - 1] == b[i]);
                assert(r[i] == b[i + 1]);
            } else {
                assert(r[0] == b[1]);
            }
        }
        assert(r[r.len() - 1] == b[b.len() - 1]);
    }
}

} // verus!
