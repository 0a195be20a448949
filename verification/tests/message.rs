use rbus::marshal::Marshaller;
use rbus::message::names::{BusNameError, InterfaceError, MemberError};
use rbus::message::{
    BusName, Endianness, ErrorName, Flags, HeaderField, Interface, Member, Message, MessageHeader,
    MessageType,
};
use rbus::types::{DBusType, ObjectPath, Signature};

#[test]
fn test_dbus_header_decode_be() {
    let bytes: Vec<u8> = vec![
        b'B', // Big endian
        2,    // reply (simplest message)
        0x2,  // No auto-starting
        1,    // D-Bus version = 1
        0, 0, 0, 4, // body size in bytes = 4
        0x12, 0x34, 0x56, 0x78, // Serial number = 0x12345678
        // variables header fields
        0, 0, 0, 0xf, // array size in bytes = 15
        5,   // ReplySerial
        1, b'u', 0, // Variant signature
        0xab, 0xcd, 0xef, 0x12, // Serial value
        8,    // Signature
        1, b'g', 0, // Variant signature
        1, b'u', 0, // Variant value
    ];

    let mut marshaller = Marshaller::new_native(bytes);
    let header = MessageHeader::decode(&mut marshaller).unwrap();

    let value = MessageHeader {
        endianness: Endianness::Big,
        ty: MessageType::MethodReturn,
        flags: Flags::no_auto_start(),
        version: 1,
        body_size: 4,
        serial: 0x12345678,
        fields: vec![
            HeaderField::ReplySerial(0xabcdef12),
            HeaderField::Signature(Signature::new("u").unwrap()),
        ],
    };

    assert_eq!(header, value);
}

fn sample_header(endianness: Endianness) -> MessageHeader {
    MessageHeader {
        endianness,
        ty: MessageType::MethodCall,
        flags: Flags::no_reply_expected(),
        version: 1,
        body_size: 0x01020304,
        serial: 7,
        fields: vec![
            HeaderField::Path(ObjectPath::new("/org/freedesktop/DBus").unwrap()),
            HeaderField::Member("Hello".to_string()),
            HeaderField::Invalid,
            HeaderField::UnixFds(3),
        ],
    }
}

#[test]
fn header_roundtrip_both_orders() {
    for e in [Endianness::Big, Endianness::Little] {
        let header = sample_header(e);
        let mut out = Marshaller::new(Vec::new(), Endianness::Little);
        header.encode(&mut out).unwrap();
        assert_eq!(out.endianness(), e);
        let bytes = out.into_inner();
        assert_eq!(bytes[0], if e == Endianness::Big { b'B' } else { b'l' });
        let mut input = Marshaller::new(bytes, Endianness::Little);
        let back = MessageHeader::decode(&mut input).unwrap();
        assert_eq!(back, header);
        assert!(input.is_empty());
    }
}

#[test]
fn header_encodes_body_size_in_its_own_order() {
    let mut out = Marshaller::new(Vec::new(), Endianness::Little);
    sample_header(Endianness::Big).encode(&mut out).unwrap();
    let bytes = out.into_inner();
    assert_eq!(&bytes[..8], &[b'B', 1, 1, 1, 1, 2, 3, 4]);
}

#[test]
fn header_field_bad_variant() {
    // code 5 (ReplySerial) with the signature of a string
    let bytes = vec![5, 1, b's', 0, 0, 0, 0, 0];
    let mut input = Marshaller::new(bytes, Endianness::Little);
    match HeaderField::decode(&mut input) {
        Err(rbus::Error::Custom { message }) => assert_eq!(message, "Bad variant value"),
        other => panic!("unexpected {:?}", other),
    }
}

#[test]
fn unit_enum_invalid_variant() {
    let mut input = Marshaller::new(vec![b'x'], Endianness::Little);
    match Endianness::decode(&mut input) {
        Err(rbus::Error::InvalidVariant { value }) => assert_eq!(value, b'x' as u64),
        other => panic!("unexpected {:?}", other),
    }
    let mut input = Marshaller::new(vec![9], Endianness::Little);
    match MessageType::decode(&mut input) {
        Err(rbus::Error::InvalidVariant { value }) => assert_eq!(value, 9),
        other => panic!("unexpected {:?}", other),
    }
}

#[test]
fn flags_drop_unknown_bits() {
    let mut input = Marshaller::new(vec![0xff], Endianness::Little);
    let flags = Flags::decode(&mut input).unwrap();
    assert_eq!(flags.bits(), 7);
    assert!(flags.contains(Flags::no_auto_start()));
    assert_eq!(Flags::from_bits_truncate(0x0a).bits(), 2);
}

#[test]
fn header_signature() {
    assert_eq!(MessageHeader::signature(), "(yyyyuua(yv))");
    assert_eq!(HeaderField::signature(), "(yv)");
    assert_eq!(MessageHeader::alignment(), 8);
    assert_eq!(MessageHeader::code(), b'r');
    assert_eq!(<Message<u32>>::signature(), "((yyyyuua(yv))u)");
}

#[test]
fn builder_builds_header() {
    let mut builder = Message::new(0x1234u32);
    builder.message_type(MessageType::Signal);
    builder.add_signature();
    let serial = builder.serial();
    assert_ne!(serial, 0);
    let message = builder.build().unwrap();
    let header = message.header();
    assert_eq!(header.ty, MessageType::Signal);
    assert_eq!(header.body_size, 4);
    assert_eq!(header.serial, serial);
    assert_eq!(header.version, 1);
    assert_eq!(header.flags.bits(), 0);
    assert_eq!(header.fields, vec![HeaderField::Signature(Signature::new("u").unwrap())]);
    assert_eq!(*message.data(), 0x1234);
}

#[test]
fn interface_names() {
    assert!(Interface::new("org.freedesktop.DBus").is_ok());
    assert!(Interface::new("a._b1").is_ok());
    let msg = |name: &str| match Interface::new(name) {
        Err(InterfaceError::InvalidInterfaceName { message }) => message,
        Ok(_) => panic!("expected an error for {:?}", name),
    };
    assert!(msg(&"a.".repeat(128)).starts_with("Interface names must not exceed"));
    assert!(msg("org").starts_with("Interface names are composed of 2 or more elements"));
    assert_eq!(msg("org..a"), "All elements must contain at least one character");
    assert!(msg("org.1a").starts_with("Each element must only contain"));
    assert!(msg("org.a-b").starts_with("Each element must only contain"));
    assert_eq!(Interface::new("org.x").unwrap().as_str(), "org.x");
    assert!(ErrorName::new("org.freedesktop.DBus.Error.Failed").is_ok());
    assert!(ErrorName::new("Failed").is_err());
}

#[test]
fn bus_names() {
    assert!(BusName::new("org.freedesktop.DBus").is_ok());
    assert!(BusName::new(":1.42").is_ok());
    assert!(BusName::new("org.my-app.x_1").is_ok());
    let msg = |name: &str| match BusName::new(name) {
        Err(BusNameError::InvalidBusName { message }) => message,
        Ok(_) => panic!("expected an error for {:?}", name),
    };
    assert!(msg(&"a.".repeat(128)).starts_with("Bus names must not exceed"));
    assert!(msg("org").starts_with("Bus names must contain at least one '.'"));
    assert!(msg(":42").starts_with("Bus names must contain at least one '.'"));
    assert!(msg(".org.a").starts_with("Bus names must not begin with a '.'"));
    assert_eq!(msg("org..a"), "All elements must contain at least one character");
    assert!(msg("org.1a").starts_with("Only elements that are part of a unique connection name"));
    assert!(msg("org.a$").starts_with("Each element must only contain"));
}

#[test]
fn member_names() {
    assert!(Member::new("GetNameOwner").is_ok());
    let msg = |name: &str| match Member::new(name) {
        Err(MemberError::InvalidMemberName { message }) => message,
        Ok(_) => panic!("expected an error for {:?}", name),
    };
    assert_eq!(msg(""), "Member name must be at least 1 byte in length");
    assert!(msg(&"a".repeat(256)).starts_with("Member name must not exceed"));
    assert!(msg("a.b").starts_with("Member name must not contain the '.'"));
    assert!(msg("1abc").starts_with("Member name must only contain"));
}
