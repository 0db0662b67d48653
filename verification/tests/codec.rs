use notifier::{DecodeError, NotifyCommand};

#[test]
fn round_trip_simple() {
    let m = NotifyCommand::new("NOTIFY".to_string(), "t".to_string(), "m".to_string());
    let bytes = m.to_bytes();
    let back = NotifyCommand::from_bytes(&bytes).unwrap();
    assert_eq!(back.cmd, "NOTIFY");
    assert_eq!(back.title, "t");
    assert_eq!(back.message, "m");
}

#[test]
fn round_trip_unicode() {
    let m = NotifyCommand::new(
        "NOTIFY".to_string(),
        "h\u{e9}llo \u{4e16}\u{754c}".to_string(),
        "tab\there \"quoted\" and back\\slash".to_string(),
    );
    let bytes = m.to_bytes();
    let back = NotifyCommand::from_bytes(&bytes).unwrap();
    assert_eq!(back.title, m.title);
    assert_eq!(back.message, m.message);
}

#[test]
fn encodes_canonical_form() {
    let m = NotifyCommand::new("NOTIFY".to_string(), "Hello".to_string(), "World".to_string());
    let expected: &[u8] = b"{\"cmd\":\"NOTIFY\",\"title\":\"Hello\",\"message\":\"World\"}";
    assert_eq!(m.to_bytes(), expected.to_vec());
}

#[test]
fn encodes_escapes() {
    let m = NotifyCommand::new("X".to_string(), "a\"b\\c\nd".to_string(), "m".to_string());
    let expected: &[u8] = b"{\"cmd\":\"X\",\"title\":\"a\\\"b\\\\c\\u000ad\",\"message\":\"m\"}";
    assert_eq!(m.to_bytes(), expected.to_vec());
}

#[test]
fn decodes_any_key_order_and_whitespace() {
    let text = " {\n  \"title\" : \"T\" ,\t\"message\": \"M\", \"cmd\":\"NOTIFY\" }\r\n";
    let m = NotifyCommand::from_bytes(text.as_bytes()).unwrap();
    assert_eq!(m.cmd, "NOTIFY");
    assert_eq!(m.title, "T");
    assert_eq!(m.message, "M");
}

#[test]
fn decodes_escape_sequences() {
    let text = "{\"cmd\":\"\\u0041B\",\"title\":\"\\\"\\\\\\/\",\"message\":\"\\b\\f\\n\\r\\t\"}";
    let m = NotifyCommand::from_bytes(text.as_bytes()).unwrap();
    assert_eq!(m.cmd, "AB");
    assert_eq!(m.title, "\"\\/");
    assert_eq!(m.message, "\u{8}\u{c}\n\r\t");
}

#[test]
fn rejects_invalid_utf8() {
    let r = NotifyCommand::from_bytes(&[0xff, 0xfe, 0x20]);
    assert_eq!(r.unwrap_err(), DecodeError::InvalidUtf8);
}

#[test]
fn rejects_plain_text() {
    let r = NotifyCommand::from_bytes(b"not json");
    assert_eq!(r.unwrap_err(), DecodeError::Malformed);
}

#[test]
fn rejects_empty_input() {
    assert_eq!(NotifyCommand::from_bytes(b"").unwrap_err(), DecodeError::Malformed);
}

#[test]
fn rejects_missing_key() {
    let r = NotifyCommand::from_bytes(b"{\"cmd\":\"NOTIFY\",\"title\":\"t\"}");
    assert_eq!(r.unwrap_err(), DecodeError::Malformed);
}

#[test]
fn rejects_duplicate_key() {
    let text = "{\"cmd\":\"a\",\"cmd\":\"b\",\"title\":\"t\",\"message\":\"m\"}";
    assert_eq!(NotifyCommand::from_bytes(text.as_bytes()).unwrap_err(), DecodeError::Malformed);
}

#[test]
fn rejects_unknown_key() {
    let text = "{\"cmd\":\"a\",\"title\":\"t\",\"message\":\"m\",\"extra\":\"x\"}";
    assert_eq!(NotifyCommand::from_bytes(text.as_bytes()).unwrap_err(), DecodeError::Malformed);
}

#[test]
fn rejects_non_string_value() {
    let text = "{\"cmd\":\"a\",\"title\":7,\"message\":\"m\"}";
    assert_eq!(NotifyCommand::from_bytes(text.as_bytes()).unwrap_err(), DecodeError::Malformed);
}

#[test]
fn rejects_trailing_text() {
    let text = "{\"cmd\":\"a\",\"title\":\"t\",\"message\":\"m\"} x";
    assert_eq!(NotifyCommand::from_bytes(text.as_bytes()).unwrap_err(), DecodeError::Malformed);
}

#[test]
fn rejects_unescaped_control_character() {
    let text = "{\"cmd\":\"a\n\",\"title\":\"t\",\"message\":\"m\"}";
    assert_eq!(NotifyCommand::from_bytes(text.as_bytes()).unwrap_err(), DecodeError::Malformed);
}

#[test]
fn rejects_lone_surrogate_escape() {
    let text = "{\"cmd\":\"\\ud800\",\"title\":\"t\",\"message\":\"m\"}";
    assert_eq!(NotifyCommand::from_bytes(text.as_bytes()).unwrap_err(), DecodeError::Malformed);
}

#[test]
fn rejects_unterminated_string() {
    let text = "{\"cmd\":\"a";
    assert_eq!(NotifyCommand::from_bytes(text.as_bytes()).unwrap_err(), DecodeError::Malformed);
}
