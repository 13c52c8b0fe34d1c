use niri_tablet_easysetup::catalog::{find, Args};
use niri_tablet_easysetup::editing::{action_display, arg_presets, command_value, custom_kdl_value};
use niri_tablet_easysetup::model::ActionValue;

#[test]
fn display_labels() {
    assert_eq!(action_display(&ActionValue::Unbound), "Unbound");
    assert_eq!(action_display(&ActionValue::Raw { kdl: "x".into() }), "Custom KDL");
    assert_eq!(action_display(&ActionValue::simple("close-window")), "Close window");
    assert_eq!(
        action_display(&ActionValue::spawn(&["foot".into(), "-e".into(), "htop".into()])),
        "Run: foot -e htop"
    );
    assert_eq!(action_display(&ActionValue::spawn_sh("a && b")), "Run: a && b");
    assert_eq!(action_display(&ActionValue::simple("my-action")), "my-action");
}

#[test]
fn command_editor_values() {
    assert_eq!(command_value("   ", "x", false), None);
    assert_eq!(command_value(" ls ~ ", "", true), Some(ActionValue::spawn_sh("ls ~")));
    assert_eq!(
        command_value("foot", "-e 'h top' \"\"", false),
        Some(ActionValue::spawn(&["foot".into(), "-e".into(), "h top".into()]))
    );
    assert_eq!(
        command_value("foot", "\"unterminated", false),
        Some(ActionValue::spawn(&["foot".into()]))
    );
}

#[test]
fn custom_kdl_values() {
    assert_eq!(
        custom_kdl_value("spawn \"foot\" \"-e\" \"htop\""),
        Ok(ActionValue::spawn(&["foot".into(), "-e".into(), "htop".into()]))
    );
    assert_eq!(
        custom_kdl_value("a; b"),
        Ok(ActionValue::Raw { kdl: "x {\na; b\n}".into() })
    );
    assert_eq!(custom_kdl_value(""), Err("Write exactly one action node.".to_string()));
    assert_eq!(custom_kdl_value("a { b; }"), Err("Write exactly one action node.".to_string()));
    assert_eq!(custom_kdl_value("\"oops"), Err("line 2: unterminated string".to_string()));
}

#[test]
fn argument_presets() {
    let (words, placeholder, initial) = arg_presets(Args::SizeChange);
    assert_eq!(words, vec!["+10%", "-10%", "50%", "100%"]);
    assert_eq!(placeholder, "size change, e.g. +10%");
    assert_eq!(initial, "+10%");
    let (words, _, initial) = arg_presets(find("switch-layout").unwrap().args);
    assert_eq!(words, vec!["next", "prev"]);
    assert_eq!(initial, "next");
    let (words, placeholder, initial) = arg_presets(Args::NoArg);
    assert!(words.is_empty() && placeholder.is_empty() && initial.is_empty());
}
