use niri_tablet_easysetup::discovery::{
    choose_source, direct_includes, expand_include, text_has_gestures, Discovery, IncludeWalk, Notice, Source,
};
use niri_tablet_easysetup::kdl::find_top_level_node_span;

#[test]
fn tilde_and_optional_expansion() {
    let hits = direct_includes("include \"~/.config/niri/cfg/gestures.kdl\"\ninclude \"missing.kdl\" optional=true\n");
    assert_eq!(hits.len(), 2);
    assert!(hits[0].contains("gestures.kdl"));
    let home = "/home/tester";
    let expanded = expand_include(&hits[0], "/etc/niri/config.kdl", Some(home));
    assert_eq!(expanded, "/home/tester/.config/niri/cfg/gestures.kdl");
}

#[test]
fn detects_inline_gestures() {
    let text = "// hi\ngestures {\n    debug-log\n}\n";
    assert_eq!(text_has_gestures(text), Ok(true));
    assert!(find_top_level_node_span(text, "gestures").is_some());
}

#[test]
fn include_targets_expand_like_niri() {
    assert_eq!(expand_include("cfg/g.kdl", "/etc/niri/config.kdl", None), "/etc/niri/cfg/g.kdl");
    assert_eq!(expand_include("/abs/g.kdl", "/etc/niri/config.kdl", Some("/home/u")), "/abs/g.kdl");
    assert_eq!(expand_include("~//x.kdl", "/etc/niri/config.kdl", Some("/home/u")), "/home/u/x.kdl");
    assert_eq!(expand_include("~/x.kdl", "/etc/niri/config.kdl", None), "/etc/niri/~/x.kdl");
    assert_eq!(expand_include("x.kdl", "config.kdl", None), "x.kdl");
    assert_eq!(direct_includes("include {"), Vec::<String>::new());
    assert_eq!(text_has_gestures("input {}"), Ok(false));
    assert_eq!(text_has_gestures("}"), Err("line 1: unexpected `}`".to_string()));
}

#[test]
fn notices_follow_the_discovery() {
    let d = Discovery { config_path: None, source: Source::NotFound };
    assert_eq!(d.notices(), vec![Notice::NoConfigFile, Notice::FirstRun]);
    let d = Discovery {
        config_path: Some("/c/config.kdl".into()),
        source: Source::ManagedFileAmbiguous("/c/a.kdl".into(), vec!["/c/b.kdl".into()]),
    };
    assert_eq!(
        d.notices(),
        vec![Notice::AmbiguousFiles("/c/a.kdl".into(), vec!["/c/b.kdl".into()])]
    );
}

#[test]
fn managed_file_is_chosen_from_the_candidates() {
    let cfg = "/c/config.kdl";
    assert_eq!(choose_source(cfg, &vec!["/c/cfg/g.kdl".into()], None), Source::ManagedFile("/c/cfg/g.kdl".into()));
    assert_eq!(choose_source(cfg, &vec![cfg.into()], None), Source::Inline(cfg.into()));
    assert_eq!(
        choose_source(cfg, &vec!["/c/a.kdl".into(), "/c/b.kdl".into(), cfg.into()], None),
        Source::ManagedFileAmbiguous("/c/a.kdl".into(), vec!["/c/b.kdl".into(), cfg.into()])
    );
    assert_eq!(choose_source(cfg, &vec![], Some("gestures {\n    tap { $ }\n}\n")), Source::Inline(cfg.into()));
    assert_eq!(choose_source(cfg, &vec![], Some("input {}\n")), Source::NotFound);
    assert_eq!(choose_source(cfg, &vec![], None), Source::NotFound);
}

#[test]
fn include_walk_visits_each_file_once_in_order() {
    let mut w = IncludeWalk::new("/c/config.kdl", "/c/config.kdl");
    assert_eq!(w.next_file(), Some(("/c/config.kdl".to_string(), 0)));
    assert!(w.take_include("/c/a.kdl".into(), "/c/a.kdl".into(), 0));
    assert!(w.take_include("/c/b.kdl".into(), "/c/b.kdl".into(), 0));
    assert!(!w.take_include("/c/./a.kdl".into(), "/c/a.kdl".into(), 0));
    assert!(!w.take_include("/c/config.kdl".into(), "/c/config.kdl".into(), 0));
    assert_eq!(w.next_file(), Some(("/c/a.kdl".to_string(), 1)));
    assert_eq!(w.next_file(), Some(("/c/b.kdl".to_string(), 1)));
    assert_eq!(w.next_file(), None);
    assert_eq!(w.found, vec!["/c/a.kdl".to_string(), "/c/b.kdl".to_string()]);
    let mut deep = IncludeWalk::new("/c/config.kdl", "/c/config.kdl");
    deep.queue = vec![("/c/too-deep.kdl".into(), 17), ("/c/ok.kdl".into(), 16)];
    assert_eq!(deep.next_file(), Some(("/c/ok.kdl".to_string(), 16)));
}

#[test]
fn finds_managed_include() {
    // config.kdl includes ./cfg/gestures.kdl, which holds the gestures node.
    let cfg = "/tmp/t/niri/config.kdl";
    let cfg_text = "include \"./cfg/gestures.kdl\"\n";
    let gestures_text = "gestures { touchscreen-swipe { tap { maximize-column; } } }\n";
    let mut walk = IncludeWalk::new(cfg, cfg);
    while let Some((path, depth)) = walk.next_file() {
        let text = if path == cfg { cfg_text } else { gestures_text };
        for raw in direct_includes(text) {
            let expanded = expand_include(&raw, &path, Some("/home/u"));
            let canonical = std::path::Path::new(&expanded).components().collect::<std::path::PathBuf>();
            walk.take_include(expanded, canonical.to_string_lossy().into_owned(), depth);
        }
    }
    assert_eq!(walk.found.len(), 1);
    assert_eq!(
        std::path::Path::new(&walk.found[0]),
        std::path::Path::new("/tmp/t/niri/cfg/gestures.kdl")
    );
    let mut with_gestures: Vec<String> = Vec::new();
    for p in walk.found.iter().cloned().chain(std::iter::once(cfg.to_string())) {
        let text = if p == cfg { cfg_text } else { gestures_text };
        if text_has_gestures(text) == Ok(true) {
            with_gestures.push(p);
        }
    }
    assert_eq!(choose_source(cfg, &with_gestures, None), Source::ManagedFile(walk.found[0].clone()));
}

#[test]
fn relative_targets_join_after_a_slash() {
    assert_eq!(expand_include("a/b.kdl", "/x/cfg/config.kdl", None), "/x/cfg/a/b.kdl");
    assert_eq!(expand_include("~/g.kdl", "/x/config.kdl", Some("/home/me")), "/home/me/g.kdl");
}
