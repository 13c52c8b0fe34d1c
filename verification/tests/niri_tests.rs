use niri_tablet_easysetup::niri::{
    confirmation, gestures_probe_outcome, msg_action, msg_action_command, needs_disk_check, parse_config_loaded, validate,
    validate_command, Confirmation,
};

#[test]
fn probe_file_writes_and_validates_shape() {
    // A niri binary that cannot be started reports exit status -1 and the
    // launch error on stderr: the config is not accepted.
    assert!(validate(-1, "", "could not run niri: No such file or directory (os error 2)").is_err());
}

#[test]
fn validate_keeps_the_tail_of_long_messages() {
    assert_eq!(validate(0, "whatever", "noise"), Ok(()));
    assert_eq!(validate(1, "  out  \n", "   \n"), Err("out".to_string()));
    assert_eq!(validate(1, "out", " err \n"), Err("err".to_string()));
    let long: String = (1..=30).map(|i| format!("line {i}\r\n")).collect();
    let expected: String = (6..=30).map(|i| format!("line {i}")).collect::<Vec<_>>().join("\n");
    assert_eq!(validate(1, "", &long), Err(expected));
    let short: String = (1..=25).map(|i| format!("l{i}\r\n")).collect();
    assert_eq!(validate(1, "", &short), Err(short.trim().to_string()));
}

#[test]
fn action_outcomes_and_commands() {
    assert_eq!(msg_action(0, "", ""), Ok(()));
    assert_eq!(msg_action(1, "out\n", "  "), Err("out\n".to_string()));
    assert_eq!(msg_action(2, "out", "err\n"), Err("err\n".to_string()));
    assert_eq!(validate_command("/tmp/x.kdl"), vec!["validate", "-c", "/tmp/x.kdl"]);
    assert_eq!(
        msg_action_command(&["spawn".to_string(), "--".to_string(), "foot".to_string()]),
        vec!["msg", "action", "spawn", "--", "foot"]
    );
    assert_eq!(gestures_probe_outcome(Ok(())), (true, String::new()));
    assert_eq!(gestures_probe_outcome(Err("bad".into())), (false, "bad".to_string()));
}

#[test]
fn a_save_is_confirmed_by_the_compositor_or_the_disk() {
    assert_eq!(confirmation(Some(false), true, false), Confirmation::Confirmed);
    assert_eq!(confirmation(Some(true), true, true), Confirmation::Rejected);
    assert_eq!(confirmation(None, false, false), Confirmation::NoNiri);
    assert_eq!(confirmation(None, true, true), Confirmation::ValidatedDisk);
    assert_eq!(
        confirmation(None, true, false),
        Confirmation::Unknown("event stream silent; validate unavailable".to_string())
    );
    assert!(needs_disk_check(None, true));
    assert!(!needs_disk_check(None, false));
    assert!(!needs_disk_check(Some(false), true));
}

#[test]
fn config_loaded_events_are_read() {
    assert_eq!(parse_config_loaded(r#"{"ConfigLoaded":{"failed":false}}"#), Some(false));
    assert_eq!(parse_config_loaded(r#"{"ConfigLoaded":{"failed":true}}"#), Some(true));
    assert_eq!(parse_config_loaded(r#"{"WorkspacesChanged":{}}"#), None);
    assert_eq!(parse_config_loaded("not json"), None);
}
