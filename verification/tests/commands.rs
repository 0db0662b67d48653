use notifier::{plan_command, notify_response, CommandPlan, NotifyCommand};

#[test]
fn notify_success_marker() {
    assert_eq!(notify_response(true), b"Ok".to_vec());
}

#[test]
fn notify_error_marker() {
    assert_eq!(notify_response(false), b"Err".to_vec());
}

#[test]
fn notify_command_runs_the_action() {
    let m = NotifyCommand::new("NOTIFY".to_string(), "the title".to_string(), "the body".to_string());
    match plan_command(&m) {
        CommandPlan::RunNotify { title, message } => {
            assert_eq!(title, "the title");
            assert_eq!(message, "the body");
        },
        CommandPlan::Reply { .. } => panic!("NOTIFY must run the external action"),
    }
}

#[test]
fn unknown_command_names_it() {
    let m = NotifyCommand::new("UNKNOWN_X".to_string(), "t".to_string(), "m".to_string());
    match plan_command(&m) {
        CommandPlan::Reply { bytes } => {
            assert_eq!(bytes, b"Unknown command: UNKNOWN_X".to_vec());
        },
        CommandPlan::RunNotify { .. } => panic!("an unrecognized command must not notify"),
    }
}

#[test]
fn command_match_is_case_sensitive() {
    let m = NotifyCommand::new("notify".to_string(), "t".to_string(), "m".to_string());
    match plan_command(&m) {
        CommandPlan::Reply { bytes } => {
            assert_eq!(bytes, b"Unknown command: notify".to_vec());
        },
        CommandPlan::RunNotify { .. } => panic!("the match must be case-sensitive"),
    }
}
