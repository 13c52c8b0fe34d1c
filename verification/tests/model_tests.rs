use niri_tablet_easysetup::kdl::{parse_document, Node};
use niri_tablet_easysetup::model::{
    shipped_default, ActionNode, ActionValue, GestureModel, HorizontalSwipe, JsonArg, Options,
    ShowTouchPoints, Slot, SHIPPED_DEFAULT,
};

#[test]
fn shipped_default_parses_with_expected_slots() {
    let m = shipped_default();
    assert_eq!(m.get(Slot::Tap), &ActionValue::simple("maximize-column"));
    assert_eq!(m.get(Slot::TapMore), &ActionValue::simple("toggle-overview"));
    assert_eq!(m.get(Slot::SwipeMoreDown), &ActionValue::simple("close-window"));
    assert_eq!(m.get(Slot::SwipeMoreUp), &ActionValue::simple("fullscreen-window"));
    assert_eq!(m.get(Slot::EdgeBottom), &ActionValue::spawn_sh("~/.local/bin/niri-osk.sh"));
    assert_eq!(m.get(Slot::CornerTopLeft), &ActionValue::Unbound);
    assert_eq!(m.options.fingers, Some(3));
    assert_eq!(m.options.horizontal_swipe, HorizontalSwipe::ResizeColumn);
    assert_eq!(m.options.show_touch_points, ShowTouchPoints::Gestures);
    assert!(m.warnings.is_empty(), "{:?}", m.warnings);
}

#[test]
fn round_trip_shipped_default() {
    let m = shipped_default();
    let text = m.to_file_text();
    let back = GestureModel::parse_file_text(&text).unwrap().expect("gestures node");
    assert_eq!(m.slots, back.slots);
    assert_eq!(m.options, back.options);
    assert!(back.passthrough.is_empty());
    // Render is stable across round trips.
    assert_eq!(text, back.to_file_text());
}

#[test]
fn preserves_unmodeled_nodes_and_local_edits() {
    // Shape of a real file (pre-rename): local spawn-sh edits under the
    // legacy names plus an unmodeled hot-corners node that must survive a
    // save while the names migrate.
    let src = r#"gestures {
    show-touch-points "gestures"
    touchscreen-swipe {
        fingers 3
        horizontal-swipe "resize-column"
        tap          { maximize-column; }
        tap-4        { spawn-sh "noctalia msg panel-toggle launcher"; }
        swipe-4-down { close-window; }
        swipe-4-up   { spawn-sh "~/.local/bin/niri-osk.sh"; }
        hold {
            left { move-column-left; }
            right { move-column-right; }
            up { move-window-to-workspace-up; }
            down { move-window-to-workspace-down; }
        }
    }
    touchscreen-edge-swipe {
        bottom { spawn-sh "~/.local/bin/niri-osk.sh"; }
        top { toggle-overview; }
        left { focus-column-left; }
        right { focus-column-right; }
    }
    hot-corners {
        off
        top-left
    }
}
"#;
    let m = GestureModel::parse_file_text(src).unwrap().expect("gestures node");
    assert_eq!(
        m.get(Slot::TapMore).label().as_deref(),
        Some("spawn-sh noctalia msg panel-toggle launcher")
    );
    assert_eq!(m.passthrough.len(), 1);
    // Legacy names migrate on save; they never reach passthrough.
    let text = m.to_file_text();
    assert!(text.contains("hot-corners"), "passthrough node lost:\n{text}");
    assert!(text.contains("tap-more"), "{text}");
    assert!(!text.contains("tap-4"), "legacy name survived:\n{text}");
    let back = GestureModel::parse_file_text(&text).unwrap().unwrap();
    assert_eq!(m.slots, back.slots);
    assert_eq!(m.passthrough, back.passthrough);
    assert!(back.warnings.is_empty(), "{:?}", back.warnings);
}

#[test]
fn legacy_four_finger_names_migrate() {
    let src = "gestures {\n    touchscreen-swipe {\n        tap-4 { toggle-overview; }\n        swipe-4-up { close-window; }\n        swipe-4-down { fullscreen-window; }\n    }\n}\n";
    let m = GestureModel::parse_file_text(src).unwrap().unwrap();
    assert_eq!(m.get(Slot::TapMore), &ActionValue::simple("toggle-overview"));
    assert_eq!(m.get(Slot::SwipeMoreUp), &ActionValue::simple("close-window"));
    assert_eq!(m.get(Slot::SwipeMoreDown), &ActionValue::simple("fullscreen-window"));
    assert_eq!(m.warnings.len(), 3);
    assert!(m.passthrough.is_empty());
}

#[test]
fn new_name_wins_over_legacy() {
    let src = "gestures {\n    touchscreen-swipe {\n        tap-4 { toggle-overview; }\n        tap-more { close-window; }\n    }\n}\n";
    let m = GestureModel::parse_file_text(src).unwrap().unwrap();
    assert_eq!(m.get(Slot::TapMore), &ActionValue::simple("close-window"));
}

#[test]
fn out_of_range_fingers_resets() {
    let src = "gestures {\n    touchscreen-swipe {\n        fingers 5\n    }\n}\n";
    let m = GestureModel::parse_file_text(src).unwrap().unwrap();
    assert_eq!(m.options.fingers, None);
    assert_eq!(m.warnings.len(), 1);
}

#[test]
fn spawn_with_args_round_trips() {
    let src = r#"gestures {
    touchscreen-corner-swipe {
        bottom-left { spawn "wofi" "--show" "drun"; }
    }
}
"#;
    let m = GestureModel::parse_file_text(src).unwrap().unwrap();
    assert_eq!(
        m.get(Slot::CornerBottomLeft),
        &ActionValue::spawn(&["wofi".to_string(), "--show".to_string(), "drun".to_string()])
    );
    let text = m.to_file_text();
    assert!(text.contains(r#"spawn "wofi" "--show" "drun";"#), "{text}");
}

#[test]
fn empty_and_raw_slots() {
    let src = "gestures {\n    touchscreen-swipe {\n        tap { maximize-column; quit skip-confirmation=true; }\n    }\n}\n";
    let m = GestureModel::parse_file_text(src).unwrap().unwrap();
    assert!(matches!(m.get(Slot::Tap), ActionValue::Raw { .. }));
    // Round trip keeps it verbatim inside the slot.
    let text = m.to_file_text();
    assert!(text.contains("quit skip-confirmation=true"), "{text}");
}

#[test]
fn new_name_wins_whichever_comes_first() {
    let src = "gestures {\n    touchscreen-swipe {\n        swipe-more-up { close-window; }\n        swipe-4-up { toggle-overview; }\n    }\n}\n";
    let m = GestureModel::parse_file_text(src).unwrap().unwrap();
    assert_eq!(m.get(Slot::SwipeMoreUp), &ActionValue::simple("close-window"));
    assert_eq!(
        m.warnings,
        vec!["swipe-4-up was renamed swipe-more-up; saving writes the new name".to_string()]
    );
}

#[test]
fn reading_reports_bad_values() {
    let r = GestureModel::parse_file_text("gestures {\n    show-touch-points\n}\n");
    assert_eq!(r, Err("show-touch-points needs a value".to_string()));
    let r = GestureModel::parse_file_text("gestures {\n    show-touch-points \"some\"\n}\n");
    assert_eq!(r, Err("unknown show-touch-points value \"some\"".to_string()));
    let r = GestureModel::parse_file_text("gestures {\n    touchscreen-swipe { fingers \"x\"; }\n}\n");
    assert_eq!(r, Err("fingers needs a number".to_string()));
    let r = GestureModel::parse_file_text("gestures {\n    touchscreen-swipe { horizontal-swipe \"tilt\"; }\n}\n");
    assert_eq!(r, Err("unknown horizontal-swipe value \"tilt\"".to_string()));
    let r = GestureModel::parse_file_text("gestures {\n    touchscreen-swipe { horizontal-swipe; }\n}\n");
    assert_eq!(r, Err("horizontal-swipe needs a value".to_string()));
    let r = GestureModel::parse_file_text("gestures { tap {");
    assert_eq!(r, Err("line 9999: unexpected end of file, missing `}`".to_string()));
    let r = GestureModel::parse_file_text("input { }\n");
    assert_eq!(r, Ok(None));
}

#[test]
fn fingers_warning_text_and_accepted_forms() {
    let m = GestureModel::parse_file_text("gestures {\n    touchscreen-swipe { fingers 7; }\n}\n").unwrap().unwrap();
    assert_eq!(
        m.warnings,
        vec!["fingers 7 is not valid (3 or 4); using the default 3 until you save".to_string()]
    );
    let m = GestureModel::parse_file_text("gestures {\n    touchscreen-swipe { fingers \"+004\"; }\n}\n").unwrap().unwrap();
    assert_eq!(m.options.fingers, Some(4));
    let r = GestureModel::parse_file_text("gestures {\n    touchscreen-swipe { fingers 256; }\n}\n");
    assert_eq!(r, Err("fingers needs a number".to_string()));
    let r = GestureModel::parse_file_text("gestures {\n    touchscreen-swipe { fingers -3; }\n}\n");
    assert_eq!(r, Err("fingers needs a number".to_string()));
}

#[test]
fn options_and_hold_write_and_read_back() {
    let mut m = GestureModel::default();
    m.options = Options {
        off: true,
        fingers: Some(4),
        horizontal_swipe: HorizontalSwipe::ResizeColumn,
        show_touch_points: ShowTouchPoints::All,
        debug_log: true,
    };
    m.set(Slot::HoldUp, ActionValue::simple("move-window-to-workspace-up"));
    m.set(Slot::CornerTopRight, ActionValue::spawn_sh("foot"));
    let text = m.to_file_text();
    assert_eq!(
        text,
        "// Managed by niri-tablet-easysetup. Edits here are overwritten when\n\
         // you save from the app; keep custom nodes out of it or import them\n\
         // back. niri reloads this file live (no re-login needed).\n\
         gestures {\n    show-touch-points \"all\";\n    debug-log;\n    touchscreen-swipe {\n        off;\n        fingers 4;\n        horizontal-swipe \"resize-column\";\n        hold {\n            up { move-window-to-workspace-up; }\n        }\n    }\n    touchscreen-corner-swipe {\n        top-right { spawn-sh \"foot\"; }\n    }\n}\n"
    );
    let back = GestureModel::parse_file_text(&text).unwrap().unwrap();
    assert_eq!(back, m);
}

#[test]
fn empty_model_writes_the_swipe_block_only() {
    let m = GestureModel::default();
    let g = m.to_gestures_node();
    assert_eq!(g.render(0), "gestures { touchscreen-swipe; }");
}

#[test]
fn raw_slots_are_written_as_parsed() {
    let mut m = GestureModel::default();
    m.set(Slot::Tap, ActionValue::Raw { kdl: "tap { a; b; }".into() });
    m.set(Slot::TapMore, ActionValue::Raw { kdl: "tap \"unterminated }".into() });
    let g = m.to_gestures_node();
    let ts = g.find("touchscreen-swipe").unwrap();
    let tap = ts.find("tap").unwrap();
    assert_eq!(tap.children[0].name, "__easysetup_raw__");
    assert_eq!(tap.children[0].children.len(), 2);
    let more = ts.find("tap-more").unwrap();
    assert_eq!(more.children[0].name, "__easysetup_broken_raw__");
}

#[test]
fn action_nodes_convert_both_ways() {
    let doc = parse_document("spawn \"foot\" 3 mode=\"x\";").unwrap();
    let a = ActionNode::from_kdl(&doc[0]);
    assert_eq!(a.name, "spawn");
    assert_eq!(a.args, vec![JsonArg::Str("foot".into()), JsonArg::Word("3".into())]);
    assert_eq!(a.label(), "spawn foot 3 mode=x");
    let back: Node = a.to_kdl();
    assert_eq!(back, doc[0]);
    assert_eq!(ActionValue::Unbound.label(), None);
    assert_eq!(ActionValue::Raw { kdl: "x".into() }.label().as_deref(), Some("(custom KDL)"));
}

#[test]
fn slot_names() {
    assert_eq!(Slot::ALL.len(), 16);
    assert_eq!(Slot::HoldLeft.id(), "left");
    assert_eq!(Slot::EdgeLeft.id(), "left");
    assert_eq!(Slot::CornerBottomRight.id(), "bottom-right");
    assert_eq!(Slot::TapMore.friendly_name(), "extra-finger tap");
    assert_eq!(Slot::Tap.description(), "Quick tap with the base finger count");
    for (i, s) in Slot::ALL.iter().enumerate() {
        assert_eq!(s.index(), i);
    }
}

#[test]
fn shipped_default_text_has_one_gestures_node() {
    let doc = parse_document(SHIPPED_DEFAULT).unwrap();
    assert_eq!(doc.len(), 1);
    assert_eq!(doc[0].name, "gestures");
}

#[test]
fn set_then_get_gives_the_value_back() {
    let mut m = GestureModel::default();
    m.set(Slot::EdgeLeft, ActionValue::simple("focus-column-left"));
    assert_eq!(m.get(Slot::EdgeLeft), &ActionValue::simple("focus-column-left"));
    assert_eq!(m.get(Slot::EdgeRight), &ActionValue::Unbound);
    m.set(Slot::EdgeLeft, ActionValue::Unbound);
    assert_eq!(m, GestureModel::default());
    let copy = m.clone();
    assert_eq!(copy, m);
}

#[test]
fn unmodeled_nodes_stay_in_their_block() {
    let src = "gestures {\n    touchscreen-swipe {\n        swipe-more-left { focus-column-left; }\n        hold {\n            sideways { x; }\n        }\n    }\n    touchscreen-edge-swipe {\n        middle { y; }\n    }\n    touchscreen-corner-swipe {\n        center { z; }\n    }\n}\n";
    let g0 = parse_document(src).unwrap().remove(0);
    let m = GestureModel::from_gestures_node(&g0).unwrap();
    assert_eq!(m.swipe_kept.len(), 1);
    assert_eq!(m.hold_kept.len(), 1);
    assert_eq!(m.edge_kept.len(), 1);
    assert_eq!(m.corner_kept.len(), 1);
    assert!(m.passthrough.is_empty());
    let g = m.to_gestures_node();
    assert!(g.find("swipe-more-left").is_none());
    let ts = g.find("touchscreen-swipe").unwrap();
    let kept = ts.find("swipe-more-left").unwrap();
    assert_eq!(kept.children[0].name, "focus-column-left");
    assert!(ts.find("hold").unwrap().find("sideways").is_some());
    assert!(g.find("touchscreen-edge-swipe").unwrap().find("middle").is_some());
    assert!(g.find("touchscreen-corner-swipe").unwrap().find("center").is_some());
    let back = GestureModel::parse_file_text(&m.to_file_text()).unwrap().unwrap();
    assert_eq!(back, m);
}

#[test]
fn raw_wrapper_arguments_survive_a_save() {
    let mut m = GestureModel::default();
    m.set(Slot::Tap, ActionValue::Raw { kdl: "tap \"x\" { a; }".into() });
    let g = m.to_gestures_node();
    let tap = g.find("touchscreen-swipe").unwrap().find("tap").unwrap();
    let kept = &tap.children[0];
    assert_eq!(kept.name, "__easysetup_raw__");
    assert_eq!(kept.args, vec![niri_tablet_easysetup::kdl::Arg::Str("x".into())]);
    assert_eq!(kept.children[0].name, "a");
}
