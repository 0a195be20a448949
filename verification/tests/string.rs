use rbus::types::{ObjectPath, ObjectPathError, Signature};

const VALID_OBJECT_PATHS: &[&str] = &[
    "/",
    "/a",
    "/_",
    "/a/b/c",
    "/com/example/123",
    "/org/freedesktop/DBus",
    "/org/freedesktop/Telepathy/AccountManager",
];

const INVALID_OBJECT_PATHS: &[&str] = &["", ".", "//", "/a/", "/-", "/com//example/MyApp", "/$"];

#[test]
fn test_valid_object_paths() {
    for path in VALID_OBJECT_PATHS {
        match ObjectPath::new(path) {
            Ok(_) => {}
            Err(err) => panic!("Expected Ok but got Err({:?}): {:?}", err, path),
        }
    }
}

#[test]
fn test_invalid_object_paths() {
    for path in INVALID_OBJECT_PATHS {
        match ObjectPath::new(path) {
            Ok(value) => panic!("Expected Err but got Ok({:?}): {:?}", value, path),
            Err(_) => {}
        }
    }
}

fn message_of(path: &str) -> String {
    match ObjectPath::new(path) {
        Err(ObjectPathError::InvalidObjectPath { message }) => message,
        Ok(_) => panic!("expected an error for {:?}", path),
    }
}

#[test]
fn object_path_error_messages() {
    assert!(message_of("a/b").starts_with("The path must begin"));
    assert!(message_of("/a/").starts_with("A trailing '/'"));
    assert_eq!(message_of("/a//b"), "No element may be the empty string");
    assert!(message_of("/a/b-c").starts_with("Each element must only contain"));
    assert!(message_of("/ä").starts_with("Each element must only contain"));
}

#[test]
fn object_path_keeps_text() {
    let p = ObjectPath::new("/org/freedesktop/DBus").unwrap();
    assert_eq!(p.as_str(), "/org/freedesktop/DBus");
}

#[test]
fn signature_keeps_text() {
    let s = Signature::new("a{sv}").unwrap();
    assert_eq!(s.as_str(), "a{sv}");
}
