use loco_protocol::command::Method;

#[test]
pub fn method_empty() {
    let m = Method::new("").unwrap();
    assert_eq!(m.len(), 0);
    assert!(m.is_empty());
    assert_eq!(m.serialize(), [0u8; 11]);
}

#[test]
pub fn method_exact_len() {
    // An 11-byte name fills the buffer with no trailing NUL.
    let m = Method::new("ELEVENBYTES").unwrap();
    assert_eq!(m.len(), 11);
    assert_eq!(m.serialize(), *b"ELEVENBYTES");
}

#[test]
pub fn method_too_long() {
    assert_eq!(Method::new("TWELVE_BYTES"), None);
}

#[test]
pub fn method_interior_nul() {
    assert_eq!(Method::new("A\0B"), None);
}

#[test]
pub fn method_as_string() {
    let m = Method::new("TEST").unwrap();
    assert_eq!(m.as_string(), Some("TEST".to_string()));
}

#[test]
pub fn method_deserialize_invalid_utf8() {
    // A logical prefix that is not valid UTF-8 fails deserialization.
    let mut bytes = [0u8; 11];
    bytes[0] = 0xff;
    bytes[1] = 0xfe;
    assert_eq!(Method::deserialize(bytes), None);
}

#[test]
pub fn method_serialization_round_trip() {
    let m = Method::new("TEST").unwrap();
    let bytes = m.serialize();
    assert_eq!(bytes, *b"TEST\0\0\0\0\0\0\0");
    let back = Method::deserialize(bytes).unwrap();
    assert_eq!(back, m);
    assert_eq!(back.len(), 4);
}
