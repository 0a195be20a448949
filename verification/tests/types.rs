use rbus::marshal::Marshaller;
use rbus::message::Endianness;
use rbus::types::{
    decode_hashmap, encode_hashmap, DBusPackedTypes, DBusType, Dict, DictEntry, ObjectPath, Signature,
    UnixFd,
};
use std::collections::HashMap;
use rbus::{Arg, Inner, Test};

#[test]
fn tuple_test_signature_simple_packed1() {
    assert_eq!(<(u64,) as DBusType>::signature(), "t");
}

#[test]
fn test_signature_simple_packed1() {
    assert_eq!(<(u64,) as DBusPackedTypes>::signature(), "t");
}

#[test]
fn test_signature_struct_packed() {
    assert_eq!(<(u32, Arg) as DBusPackedTypes>::signature(), "u(ys)");
}

#[test]
fn tuple_test_signature_struct_packed() {
    assert_eq!(<(u32, Arg) as DBusType>::signature(), "u(ys)");
}

#[test]
fn struct_member_round_trip() {
    assert_eq!(Arg::signature(), "(ys)");
    let mut m = Marshaller::new(Vec::new(), Endianness::Little);
    m.write_value(&(7u32, Arg::new(3, "ab".to_string()))).unwrap();
    assert_eq!(
        m.get_ref(),
        &vec![7, 0, 0, 0, 3, 0, 0, 0, 2, 0, 0, 0, b'a', b'b', 0]
    );
    let mut r = Marshaller::new(m.into_inner(), Endianness::Little);
    let (n, arg) = r.read_value::<(u32, Arg)>().unwrap();
    assert_eq!(n, 7);
    assert_eq!(format!("{:?}", arg), "Arg(3, \"ab\")");
}

#[test]
fn basic_signatures_and_codes() {
    assert_eq!(u8::signature(), "y");
    assert_eq!(bool::signature(), "b");
    assert_eq!(i16::signature(), "n");
    assert_eq!(u16::signature(), "q");
    assert_eq!(i32::signature(), "i");
    assert_eq!(u32::signature(), "u");
    assert_eq!(i64::signature(), "x");
    assert_eq!(u64::signature(), "t");
    assert_eq!(UnixFd::signature(), "h");
    assert_eq!(String::signature(), "s");
    assert_eq!(ObjectPath::signature(), "o");
    assert_eq!(Signature::signature(), "g");
    assert_eq!(<Vec<String>>::signature(), "as");
    assert_eq!(<Dict<String, u32>>::signature(), "a{su}");
    assert_eq!(<DictEntry<u8, bool>>::signature(), "{yb}");
    assert_eq!(<()>::signature(), "");
    assert_eq!(Test::signature(), "(yaqs)");
    assert_eq!(Inner::signature(), "((yaqs)(yaqs)as)");
    assert_eq!(u64::alignment(), 8);
    assert_eq!(bool::alignment(), 4);
    assert_eq!(Signature::alignment(), 1);
    assert_eq!(<Dict<String, u32>>::code(), b'e');
    assert_eq!(<Vec<u8>>::code(), b'a');
}

fn encode<T: DBusType>(v: &T, e: Endianness) -> Vec<u8> {
    let mut m = Marshaller::new(Vec::new(), e);
    v.encode(&mut m).unwrap();
    m.into_inner()
}

fn decode<T: DBusType>(bytes: Vec<u8>, e: Endianness) -> T {
    let mut m = Marshaller::new(bytes, e);
    let v = T::decode(&mut m).unwrap();
    assert!(m.is_empty());
    v
}

#[test]
fn integer_bytes() {
    assert_eq!(encode(&0x01020304u32, Endianness::Big), vec![1, 2, 3, 4]);
    assert_eq!(encode(&0x01020304u32, Endianness::Little), vec![4, 3, 2, 1]);
    assert_eq!(encode(&-2i16, Endianness::Big), vec![0xff, 0xfe]);
    assert_eq!(encode(&0x0102030405060708u64, Endianness::Little), vec![8, 7, 6, 5, 4, 3, 2, 1]);
    assert_eq!(encode(&true, Endianness::Big), vec![0, 0, 0, 1]);
    assert_eq!(decode::<i64>(vec![0xff; 8], Endianness::Big), -1);
    assert_eq!(decode::<bool>(vec![0, 0, 0, 2], Endianness::Big), true);
    assert_eq!(decode::<UnixFd>(vec![5, 0, 0, 0], Endianness::Little), UnixFd(5));
    assert_eq!(encode(&0x0102u16, Endianness::Big), vec![1, 2]);
    assert_eq!(encode(&0x0102u16, Endianness::Little), vec![2, 1]);
    assert_eq!(encode(&-2i32, Endianness::Little), vec![0xfe, 0xff, 0xff, 0xff]);
    assert_eq!(encode(&-3i64, Endianness::Big), vec![0xff, 0xff, 0xff, 0xff, 0xff, 0xff, 0xff, 0xfd]);
    assert_eq!(decode::<u16>(vec![1, 2], Endianness::Little), 0x0201);
    assert_eq!(decode::<i16>(vec![0xff, 0xfe], Endianness::Big), -2);
    assert_eq!(decode::<u32>(vec![1, 2, 3, 4], Endianness::Little), 0x04030201);
    assert_eq!(decode::<i32>(vec![0xfe, 0xff, 0xff, 0xff], Endianness::Little), -2);
    assert_eq!(decode::<u64>(vec![1, 0, 0, 0, 0, 0, 0, 2], Endianness::Big), 0x0100000000000002);
    assert_eq!(decode::<i64>(vec![0xfd, 0xff, 0xff, 0xff, 0xff, 0xff, 0xff, 0xff], Endianness::Little), -3);
}

#[test]
fn string_bytes() {
    assert_eq!(encode(&"hé".to_string(), Endianness::Little), vec![3, 0, 0, 0, b'h', 0xc3, 0xa9, 0]);
    assert_eq!(encode(&Signature::new("as").unwrap(), Endianness::Little), vec![2, b'a', b's', 0]);
    assert_eq!(decode::<String>(vec![0, 0, 0, 2, b'o', b'k', 0], Endianness::Big), "ok");
    let mut m = Marshaller::new(vec![1, 0, 0, 0, 0xff, 0], Endianness::Little);
    assert!(matches!(String::decode(&mut m), Err(rbus::Error::FromUtf8)));
    let mut m = Marshaller::new(vec![5, 0, 0, 0, b'a'], Endianness::Little);
    assert!(matches!(String::decode(&mut m), Err(rbus::Error::Io { .. })));
}

#[test]
fn array_padding_and_roundtrip() {
    let v: Vec<u64> = vec![1, 2];
    let bytes = encode(&v, Endianness::Little);
    // length 16, then padding from position 4 to 8, then the elements
    assert_eq!(bytes.len(), 4 + 4 + 16);
    assert_eq!(&bytes[..8], &[16, 0, 0, 0, 0, 0, 0, 0]);
    assert_eq!(decode::<Vec<u64>>(bytes, Endianness::Little), v);

    let words = vec!["a".to_string(), "bc".to_string()];
    let bytes = encode(&words, Endianness::Big);
    assert_eq!(decode::<Vec<String>>(bytes, Endianness::Big), words);
}

#[test]
fn array_of_empty_elements_is_refused() {
    // four bytes of data whose elements take up no bytes
    let mut m = Marshaller::new(vec![0, 0, 0, 1, 0], Endianness::Big);
    assert!(matches!(<Vec<()>>::decode(&mut m), Err(rbus::Error::Custom { .. })));
}

#[test]
fn dict_roundtrip() {
    let d: Dict<String, u32> = Dict::from_pairs(vec![("a".to_string(), 1), ("b".to_string(), 2)]);
    let bytes = encode(&d, Endianness::Little);
    let back: Dict<String, u32> = decode(bytes, Endianness::Little);
    assert_eq!(back, d);
    let entry = &back.entries()[1];
    assert_eq!(entry.key(), "b");
    assert_eq!(*entry.value(), 2);
}

#[test]
fn dict_into_hashmap_later_wins() {
    let d: Dict<u8, u8> = Dict::from_pairs(vec![(1, 10), (2, 20), (1, 11)]);
    let m = d.into_hashmap();
    assert_eq!(m.len(), 2);
    assert_eq!(m[&1], 11);
    assert_eq!(m[&2], 20);
}

#[test]
fn hashmap_single_entry_bytes() {
    let mut map: HashMap<u8, u32> = HashMap::new();
    map.insert(5, 0x01020304);
    let mut m = Marshaller::new(Vec::new(), Endianness::Big);
    encode_hashmap(&map, &mut m).unwrap();
    let d: Dict<u8, u32> = Dict::from_pairs(vec![(5, 0x01020304)]);
    assert_eq!(m.get_ref(), &encode(&d, Endianness::Big));
    assert_eq!(
        m.get_ref(),
        &vec![0, 0, 0, 12, 0, 0, 0, 0, 5, 0, 0, 0, 0, 0, 0, 0, 1, 2, 3, 4]
    );
}

#[test]
fn hashmap_roundtrip() {
    let mut map: HashMap<u16, String> = HashMap::new();
    map.insert(1, "one".to_string());
    map.insert(2, "two".to_string());
    map.insert(300, "many".to_string());
    let entries = Dict::from_hashmap(&map);
    assert_eq!(entries.entries().len(), 3);
    let mut m = Marshaller::new(Vec::new(), Endianness::Little);
    encode_hashmap(&map, &mut m).unwrap();
    let mut r = Marshaller::new(m.into_inner(), Endianness::Little);
    let back: HashMap<u16, String> = decode_hashmap(&mut r).unwrap();
    assert_eq!(back, map);
    assert!(r.is_empty());
}

#[test]
fn hashmap_decode_later_wins() {
    let d: Dict<u8, u8> = Dict::from_pairs(vec![(1, 10), (1, 11)]);
    let mut r = Marshaller::new(encode(&d, Endianness::Big), Endianness::Big);
    let back: HashMap<u8, u8> = decode_hashmap(&mut r).unwrap();
    assert_eq!(back.len(), 1);
    assert_eq!(back[&1], 11);
}

#[test]
fn dict_entry_accessors() {
    let e = DictEntry::new(3u8, "x".to_string());
    assert_eq!(*e.key(), 3);
    assert_eq!(e.value(), "x");
    let f = DictEntry::from((4u8, true));
    assert_eq!(*f.key(), 4);
}

#[test]
fn struct_roundtrip() {
    let t = Test::new(7, vec![1, 2, 3], "hi".to_string());
    let inner = Inner::new(t.clone(), Test::new(0, vec![], String::new()), vec!["x".to_string()]);
    let bytes = encode(&inner, Endianness::Big);
    let back: Inner = decode(bytes.clone(), Endianness::Big);
    assert_eq!(encode(&back, Endianness::Big), bytes);
}

#[test]
fn tuple_roundtrip() {
    let v = (1u8, 0x0203u16, "z".to_string());
    let bytes = encode(&v, Endianness::Little);
    // packed: no padding between the byte and the 16-bit value
    assert_eq!(bytes, vec![1, 3, 2, 1, 0, 0, 0, b'z', 0]);
    assert_eq!(decode::<(u8, u16, String)>(bytes, Endianness::Little), v);
}
