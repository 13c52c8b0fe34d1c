use niri_tablet_easysetup::catalog::{entries, find, msg_words, to_action, Args, Category};
use niri_tablet_easysetup::kdl::parse_document;
use niri_tablet_easysetup::model::ActionValue;

fn render_node_text(v: &ActionValue) -> String {
    match v {
        ActionValue::Node(n) => n.to_kdl().render(0),
        _ => panic!("catalog entries are always nodes"),
    }
}

#[test]
fn names_are_unique() {
    let mut names: Vec<&str> = entries().iter().map(|e| e.name).collect();
    names.sort_unstable();
    let n = names.len();
    names.dedup();
    assert_eq!(names.len(), n, "duplicate catalog names");
}

#[test]
fn fixed_args_all_have_words() {
    for e in entries() {
        if let Args::Fixed(words) = e.args {
            assert!(!words.is_empty(), "{} has empty fixed args", e.name);
        }
    }
}

#[test]
fn every_action_renders_as_one_valid_node() {
    for e in entries() {
        let arg = match e.args {
            Args::SizeChange => Some("+10%"),
            Args::WorkspaceRef => Some("2"),
            Args::Fixed(w) => Some(w[0]),
            Args::NoArg => None,
        };
        let v = to_action(&e, arg);
        // Render through a gestures file and parse it back.
        let text = format!(
            "gestures {{\n    touchscreen-swipe {{\n        tap {{ {} }}\n    }}\n}}\n",
            render_node_text(&v)
        );
        let doc = parse_document(&text).expect(e.name);
        let tap = doc[0].children[0].children[0].children[0].clone();
        assert_eq!(tap.name, e.name, "round trip failed for {}", e.name);
    }
}

#[test]
fn msg_words_for_spawn_uses_dash_dash() {
    let v = ActionValue::spawn(&["foot".into(), "-e".into(), "htop".into()]);
    assert_eq!(
        msg_words(&v).unwrap(),
        vec!["spawn".to_string(), "--".into(), "foot".into(), "-e".into(), "htop".into()]
    );
}

#[test]
fn msg_words_skip_what_cannot_be_tested() {
    assert_eq!(msg_words(&ActionValue::simple("quit")), None);
    assert_eq!(msg_words(&ActionValue::simple("suspend")), None);
    assert_eq!(msg_words(&ActionValue::Unbound), None);
    assert_eq!(msg_words(&ActionValue::Raw { kdl: "x".into() }), None);
    assert_eq!(
        msg_words(&ActionValue::simple("toggle-overview")).unwrap(),
        vec!["toggle-overview".to_string()]
    );
    assert_eq!(
        msg_words(&ActionValue::spawn_sh("a && b")).unwrap(),
        vec!["spawn-sh".to_string(), "--".into(), "a && b".into()]
    );
}

#[test]
fn find_and_labels() {
    let e = find("set-column-width").unwrap();
    assert_eq!(e.label, "Set column width");
    assert_eq!(e.category.label(), "Columns");
    assert!(find("no-such-action").is_none());
    assert_eq!(Category::Overview.label(), "Overview & layout");
    assert_eq!(find("quit").unwrap().test_note, Some("would exit the running niri session"));
    assert_eq!(entries().len(), 77);
}

#[test]
fn to_action_uses_defaults_for_blank_arguments() {
    let e = find("set-window-width").unwrap();
    let v = to_action(&e, Some("   "));
    assert_eq!(render_node_text(&v), "set-window-width +10%;");
    let v = to_action(&e, Some("50%"));
    assert_eq!(render_node_text(&v), "set-window-width \"50%\";");
    let w = find("focus-workspace").unwrap();
    assert_eq!(render_node_text(&to_action(&w, None)), "focus-workspace 2;");
    assert_eq!(render_node_text(&to_action(&w, Some("web"))), "focus-workspace web;");
    let l = find("switch-layout").unwrap();
    assert_eq!(render_node_text(&to_action(&l, None)), "switch-layout next;");
    let c = find("close-window").unwrap();
    assert_eq!(to_action(&c, Some("ignored")), ActionValue::simple("close-window"));
}

#[test]
fn finding_each_name_gives_back_its_entry() {
    for e in entries() {
        let found = find(e.name).unwrap();
        assert_eq!(found.name, e.name);
        assert_eq!(found.label, e.label);
    }
    assert!(find("tap").is_none());
}
