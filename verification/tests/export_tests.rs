use niri_tablet_easysetup::export::{from_kdl_text, from_scheme, to_scheme, Scheme, APP, SCHEMA};
use niri_tablet_easysetup::model::{shipped_default, ActionValue, GestureModel, Options, Slot, SHIPPED_DEFAULT};

fn empty_options() -> Options {
    GestureModel::default().options
}

#[test]
fn kdl_import_takes_gestures_fragment() {
    let m = from_kdl_text(SHIPPED_DEFAULT).unwrap();
    assert_eq!(m.get(Slot::Tap), &ActionValue::simple("maximize-column"));
    assert!(from_kdl_text("input {\n}\n").is_err());
}

#[test]
fn json_round_trip() {
    let m = shipped_default();
    let back = from_scheme(to_scheme(&m)).unwrap();
    assert_eq!(back.ignored_keys, Vec::<String>::new());
    assert_eq!(back.model.slots, m.slots);
    assert_eq!(back.model.options, m.options);
}

#[test]
fn rejects_future_schema() {
    let s = Scheme {
        schema: 99,
        app: "x".into(),
        app_version: String::new(),
        slots: Vec::new(),
        options: empty_options(),
    };
    assert!(from_scheme(s).is_err());
}

#[test]
fn ignores_unknown_slot_keys() {
    let s = Scheme {
        schema: 1,
        app: "x".into(),
        app_version: String::new(),
        slots: vec![
            ("tap".to_string(), ActionValue::simple("close-window")),
            ("telepathy-mode".to_string(), ActionValue::Unbound),
        ],
        options: empty_options(),
    };
    let imp = from_scheme(s).unwrap();
    assert_eq!(imp.ignored_keys, vec!["telepathy-mode".to_string()]);
    assert_eq!(imp.model.get(Slot::Tap), &ActionValue::simple("close-window"));
}

#[test]
fn newer_schema_message_and_kdl_import_errors() {
    let s = Scheme { schema: 2, app: "x".into(), app_version: String::new(), slots: Vec::new(), options: empty_options() };
    match from_scheme(s) {
        Err(e) => assert_eq!(
            e,
            "scheme schema 2 is newer than this app understands (1); update niri-tablet-easysetup"
        ),
        Ok(_) => panic!("newer schema accepted"),
    }
    assert_eq!(from_kdl_text("input {\n}\n").unwrap_err(), "no gestures block found in that file");
    assert_eq!(from_kdl_text("}").unwrap_err(), "line 1: unexpected `}`");
}

#[test]
fn scheme_lists_every_slot_by_export_key() {
    let m = shipped_default();
    let s = to_scheme(&m);
    assert_eq!(s.schema, SCHEMA);
    assert_eq!(s.app, APP);
    assert_eq!(s.slots.len(), 16);
    assert_eq!(s.slots[0].0, "tap");
    assert_eq!(s.slots[1].0, "tap-4");
    assert_eq!(s.slots[4].0, "hold-left");
    assert_eq!(s.slots[10].0, "edge-left");
    assert_eq!(s.slots[15].0, "corner-bottom-right");
    for (k, v) in &s.slots {
        let slot = Slot::from_export_key(k).unwrap();
        assert_eq!(slot.export_key(), k);
        assert_eq!(m.get(slot), v);
    }
    assert_eq!(Slot::from_export_key("left"), None);
}

#[test]
fn export_keys_read_back_and_differ() {
    for s in Slot::ALL {
        assert_eq!(Slot::from_export_key(s.export_key()), Some(s));
        for t in Slot::ALL {
            if s != t {
                assert_ne!(s.export_key(), t.export_key());
            }
        }
    }
    assert_eq!(Slot::Tap.export_key(), "tap");
    assert_eq!(Slot::HoldLeft.export_key(), "hold-left");
    assert_eq!(Slot::EdgeBottom.export_key(), "edge-bottom");
    assert_eq!(Slot::CornerTopLeft.export_key(), "corner-top-left");
    assert_eq!(Slot::from_export_key("telepathy-mode"), None);
}
