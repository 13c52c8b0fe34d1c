use niri_tablet_easysetup::discovery::{Discovery, Source};
use niri_tablet_easysetup::model::{shipped_default, GestureModel, Slot, ActionValue};
use niri_tablet_easysetup::store::{
    backup_path, extract_inline, load, save, save_step, with_include_line, SaveError, SaveEvent, SavePlan, SaveStep,
    Saved, EXTRACTED_INCLUDE_LINE,
    FIRST_RUN_INCLUDE,
};

#[test]
fn include_line_is_appended_after_the_config() {
    let cfg = "// my config\nspawn-at-startup \"waybar\"";
    let out = with_include_line(cfg, FIRST_RUN_INCLUDE);
    assert_eq!(out, "// my config\nspawn-at-startup \"waybar\"\n\ninclude \"./cfg/gestures.kdl\"\n");
    assert_eq!(with_include_line("a\n", "x"), "a\n\ninclude \"x\"\n");
}

#[test]
fn extraction_replaces_only_the_gestures_node() {
    let cfg = "// my config\ninput {\n    keyboard {\n        xkb {\n            layout \"pt,us\"\n        }\n    }\n}\n\ngestures {\n    debug-log\n}\n";
    let out = extract_inline(cfg).unwrap();
    assert!(!out.contains("debug-log"), "gestures node not removed:\n{out}");
    assert!(out.contains("layout \"pt,us\""), "input block damaged:\n{out}");
    assert!(out.contains(EXTRACTED_INCLUDE_LINE));
    assert_eq!(extract_inline("input {}\n"), None);
    let model = GestureModel::parse_file_text(cfg).unwrap().unwrap();
    assert!(model.to_file_text().contains("debug-log"));
}

#[test]
fn first_run_text_has_bare_fingers() {
    let text = shipped_default().to_file_text();
    assert!(text.contains("maximize-column"));
    assert!(!text.contains("fingers \"3\""), "fingers must be a bare number");
    assert!(text.contains("fingers 3;"));
}

#[test]
fn save_goes_where_the_discovery_points() {
    let managed = Discovery { config_path: Some("/c/config.kdl".into()), source: Source::ManagedFile("/c/g.kdl".into()) };
    assert_eq!(save(&managed, None).unwrap(), SavePlan::Replace { path: "/c/g.kdl".into() });
    let inline = Discovery { config_path: Some("/c/config.kdl".into()), source: Source::Inline("/c/config.kdl".into()) };
    assert_eq!(
        save(&inline, Some("/c/cfg/gestures.kdl")).unwrap(),
        SavePlan::Extract { config: "/c/config.kdl".into(), target: "/c/cfg/gestures.kdl".into() }
    );
    assert!(matches!(save(&inline, None), Err(SaveError::NoConfig)));
    let fresh = Discovery { config_path: Some("/c/config.kdl".into()), source: Source::NotFound };
    assert_eq!(
        save(&fresh, Some("/c/cfg/gestures.kdl")).unwrap(),
        SavePlan::FirstRun { config: "/c/config.kdl".into(), target: "/c/cfg/gestures.kdl".into() }
    );
    match save(&fresh, None) {
        Err(e) => assert_eq!(e.message(), "could not determine a config directory"),
        Ok(_) => panic!("no target"),
    }
    let none = Discovery { config_path: None, source: Source::NotFound };
    match save(&none, Some("/x")) {
        Err(e) => assert_eq!(e.message(), "no niri config found to add an include to"),
        Ok(_) => panic!("no config"),
    }
    assert_eq!(SaveError::ValidateFailed("bad".into()).message(), "niri rejected the new config:\nbad");
    assert_eq!(backup_path("/c/config.kdl"), "/c/config.kdl.easysetup.bak");
}

#[test]
fn load_reports_what_it_could_not_read() {
    let src = Source::ManagedFile("/c/g.kdl".into());
    let (m, w) = load(&src, Err("denied".into()));
    assert_eq!(m, GestureModel::default());
    assert_eq!(w, vec!["could not read /c/g.kdl: denied".to_string()]);
    let (_, w) = load(&src, Ok("input {}".into()));
    assert_eq!(w, vec!["/c/g.kdl has no gestures node; starting from an empty scheme".to_string()]);
    let (_, w) = load(&src, Ok("}".into()));
    assert_eq!(
        w,
        vec!["could not parse /c/g.kdl (line 1: unexpected `}`); showing an empty scheme until it's fixed".to_string()]
    );
    let (m, w) = load(&src, Ok("gestures { touchscreen-swipe { tap { close-window; }; }; }".into()));
    assert!(w.is_empty());
    assert_eq!(m.get(Slot::Tap), &ActionValue::simple("close-window"));
    let inline = Source::Inline("/c/config.kdl".into());
    let (_, w) = load(&inline, Ok("input {}".into()));
    assert_eq!(w, vec!["could not parse the gestures block in /c/config.kdl; showing an empty scheme".to_string()]);
    let (m, w) = load(&Source::NotFound, Err("unused".into()));
    assert!(w.is_empty());
    assert_eq!(m, GestureModel::default());
}

#[test]
fn extraction_keeps_a_sibling_on_the_same_line() {
    let out = extract_inline("gestures { } foo;\n").unwrap();
    assert_eq!(out, format!("{} foo;\n", EXTRACTED_INCLUDE_LINE));
}

#[test]
fn save_writes_only_after_validation_passes() {
    assert!(matches!(save_step(SaveEvent::Requested), SaveStep::Validate));
    let rejected = save_step(SaveEvent::Validated(
        Err(SaveError::ValidateFailed("bad".into())),
        Ok(SavePlan::Replace { path: "/c/g.kdl".into() }),
    ));
    assert!(matches!(rejected, SaveStep::Done(Err(SaveError::ValidateFailed(ref m))) if m == "bad"));
    let accepted = save_step(SaveEvent::Validated(Ok(()), Ok(SavePlan::Replace { path: "/c/g.kdl".into() })));
    assert!(matches!(accepted, SaveStep::Write(SavePlan::Replace { ref path }) if path == "/c/g.kdl"));
    let no_config = save_step(SaveEvent::Validated(Ok(()), Err(SaveError::NoConfig)));
    assert!(matches!(no_config, SaveStep::Done(Err(SaveError::NoConfig))));
    let written = save_step(SaveEvent::Written(Ok("/c/g.kdl".into())));
    assert!(matches!(written, SaveStep::Done(Ok(Saved::Written { ref path })) if path == "/c/g.kdl"));
    let failed = save_step(SaveEvent::Written(Err(SaveError::Io("disk full".into()))));
    assert!(matches!(failed, SaveStep::Done(Err(SaveError::Io(ref m))) if m == "disk full"));
}
