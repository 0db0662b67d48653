use notifier::NotifyCommand;

#[test]
fn encoder_output_is_json() {
    let m = NotifyCommand::new(
        "NOTIFY".to_string(),
        "He\"llo\n".to_string(),
        "W\u{f6}rld".to_string(),
    );
    let bytes = m.to_bytes();
    let v: serde_json::Value = serde_json::from_slice(&bytes).unwrap();
    assert_eq!(v.get("cmd").unwrap().as_str().unwrap(), "NOTIFY");
    assert_eq!(v.get("title").unwrap().as_str().unwrap(), "He\"llo\n");
    assert_eq!(v.get("message").unwrap().as_str().unwrap(), "W\u{f6}rld");
}

#[test]
fn decoder_accepts_serde_json_output() {
    let mut map = serde_json::Map::new();
    map.insert("cmd".to_string(), serde_json::Value::String("NOTIFY".to_string()));
    map.insert("title".to_string(), serde_json::Value::String("a\"b\\c\nd\te".to_string()));
    map.insert("message".to_string(), serde_json::Value::String("h\u{e9}llo".to_string()));
    let text = serde_json::to_string(&serde_json::Value::Object(map)).unwrap();
    let m = NotifyCommand::from_bytes(text.as_bytes()).unwrap();
    assert_eq!(m.cmd, "NOTIFY");
    assert_eq!(m.title, "a\"b\\c\nd\te");
    assert_eq!(m.message, "h\u{e9}llo");
}
