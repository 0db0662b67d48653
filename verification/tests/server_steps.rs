use notifier::{connection_step, Config, ConnAction, ReadEvent, UnixSocketServer};

#[test]
fn clean_close_stops_without_response() {
    match connection_step(ReadEvent::Closed) {
        ConnAction::Stop { failed } => assert!(!failed),
        _ => panic!("a clean close must stop the handler"),
    }
}

#[test]
fn read_error_stops_as_failure() {
    match connection_step(ReadEvent::Failed) {
        ConnAction::Stop { failed } => assert!(failed),
        _ => panic!("a read error must stop the handler"),
    }
}

#[test]
fn notify_request_asks_for_the_action() {
    let data = b"{\"cmd\":\"NOTIFY\",\"title\":\"t\",\"message\":\"m\"}".to_vec();
    match connection_step(ReadEvent::Data(data)) {
        ConnAction::RunNotify { title, message } => {
            assert_eq!(title, "t");
            assert_eq!(message, "m");
        },
        _ => panic!("a NOTIFY request must run the external action"),
    }
}

#[test]
fn unknown_command_gets_named_and_connection_stays_open() {
    let data = b"{\"cmd\":\"UNKNOWN_X\",\"title\":\"t\",\"message\":\"m\"}".to_vec();
    match connection_step(ReadEvent::Data(data)) {
        ConnAction::Reply { bytes, .. } => {
            assert_eq!(bytes, b"Unknown command: UNKNOWN_X".to_vec());
        },
        _ => panic!("an unknown command is answered, not dropped"),
    }
}

#[test]
fn malformed_bytes_get_error_reply_and_connection_stays_open() {
    match connection_step(ReadEvent::Data(b"not json".to_vec())) {
        ConnAction::Reply { bytes, .. } => {
            let text = String::from_utf8(bytes).unwrap();
            assert!(text.starts_with("Error: Invalid command format - "));
        },
        _ => panic!("a decode failure is answered, not fatal"),
    }
    // the handler is stateless, so a valid request right after still works
    let data = b"{\"cmd\":\"NOTIFY\",\"title\":\"t\",\"message\":\"m\"}".to_vec();
    assert!(matches!(connection_step(ReadEvent::Data(data)), ConnAction::RunNotify { .. }));
}

#[test]
fn invalid_utf8_gets_error_reply() {
    match connection_step(ReadEvent::Data(vec![0xff, 0xfe])) {
        ConnAction::Reply { bytes, .. } => {
            let text = String::from_utf8(bytes).unwrap();
            assert!(text.starts_with("Error: Invalid command format - "));
        },
        _ => panic!("invalid UTF-8 is a decode failure"),
    }
}

#[test]
fn config_defaults() {
    let c = Config::new();
    assert_eq!(c.socket, "/tmp/display_notification_rc.sock");
    assert!(!c.debug);
}

#[test]
fn server_keeps_its_path() {
    let s = UnixSocketServer::new("/tmp/some.sock".to_string());
    assert_eq!(s.socket_path, "/tmp/some.sock");
}
