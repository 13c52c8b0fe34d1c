use niri_tablet_easysetup::apps::{
    argv_from_words, collect_apps, current_desktops, entry_from, exec_to_argv, first_of_each_app, latest_per_id,
    parse_desktop, shown_on, sort_by_name, split_list, AppEntry,
};

fn app(id: &str, name: &str, argv: &[&str]) -> AppEntry {
    AppEntry {
        id: id.to_string(),
        name: name.to_string(),
        argv: argv.iter().map(|s| s.to_string()).collect(),
        icon: None,
    }
}

fn ids(v: &[AppEntry]) -> Vec<&str> {
    v.iter().map(|a| a.id.as_str()).collect()
}

#[test]
fn exec_field_codes_stripped() {
    let argv = exec_to_argv("fuzzel --log /tmp/f %f").unwrap();
    assert_eq!(argv, vec!["fuzzel", "--log", "/tmp/f"]);
    assert!(exec_to_argv("%f").is_none());
    // Quoted arg with spaces.
    let argv = exec_to_argv("env FOO=\"a b\" foot").unwrap();
    assert_eq!(argv, vec!["env", "FOO=a b", "foot"]);
}

#[test]
fn parses_a_real_shaped_entry() {
    let text = "[Desktop Entry]\nType=Application\nName=Foot Terminal\nName[pt]=Terminal\nExec=foot -e %u\nIcon=foot\nTerminal=false\n\n[Other Group]\nName=Ignored\n";
    let e = parse_desktop(text);
    assert_eq!(e.name.as_deref(), Some("Foot Terminal"));
    assert_eq!(e.icon.as_deref(), Some("foot"));
    assert!(!e.terminal);
}

#[test]
fn nodelay_hidden_and_onlyshowin_filter() {
    let mut e = parse_desktop("[Desktop Entry]\nName=X\nExec=x\nNoDisplay=true\n");
    assert!(e.no_display);
    e = parse_desktop("[Desktop Entry]\nName=X\nExec=x\nOnlyShowIn=GNOME;\n");
    assert_eq!(e.only_show_in.as_deref(), Some(&["GNOME".to_string()][..]));
}

#[test]
fn lists_and_flags() {
    assert_eq!(split_list(" GNOME ; KDE;;"), vec!["GNOME".to_string(), "KDE".to_string()]);
    assert_eq!(split_list(""), Vec::<String>::new());
    assert_eq!(current_desktops("niri:GNOME"), vec!["niri".to_string(), "GNOME".to_string()]);
    let e = parse_desktop("# c\n[Desktop Entry]\n  Hidden = true\nHidden=TRUE\nTerminal=yes\nNotShowIn=KDE\nTryExec=foot\n");
    assert!(e.hidden);
    assert!(!e.terminal);
    assert_eq!(e.not_show_in, Some(vec!["KDE".to_string()]));
    assert_eq!(e.try_exec.as_deref(), Some("foot"));
    let e = parse_desktop("Name=Outside\n[Desktop Entry]\nNoDisplay=True\r\n");
    assert_eq!(e.name, None);
    assert!(e.no_display);
}

#[test]
fn shown_on_follows_the_desktop_lists() {
    let desktops = vec!["niri".to_string()];
    let e = parse_desktop("[Desktop Entry]\nName=X\nExec=x\nOnlyShowIn=GNOME;\n");
    assert!(!shown_on(&e, &desktops));
    let e = parse_desktop("[Desktop Entry]\nName=X\nExec=x\nOnlyShowIn=GNOME;niri;\n");
    assert!(shown_on(&e, &desktops));
    let e = parse_desktop("[Desktop Entry]\nName=X\nExec=x\nNotShowIn=niri\n");
    assert!(!shown_on(&e, &desktops));
    let e = parse_desktop("[Desktop Entry]\nName=X\nExec=x\nTerminal=true\n");
    assert!(!shown_on(&e, &desktops));
    let e = parse_desktop("[Desktop Entry]\nName=X\nExec=x\n");
    assert!(shown_on(&e, &desktops));
}

#[test]
fn entries_need_a_name_and_a_usable_exec() {
    let e = parse_desktop("[Desktop Entry]\nName=Foot\nExec=foot %U\nIcon=foot\n");
    let app = entry_from("foot.desktop".to_string(), &e).unwrap();
    assert_eq!(app.id, "foot.desktop");
    assert_eq!(app.name, "Foot");
    assert_eq!(app.argv, vec!["foot".to_string()]);
    assert_eq!(app.icon.as_deref(), Some("foot"));
    let e = parse_desktop("[Desktop Entry]\nName=Foot\nExec=\"foot\n");
    assert!(entry_from("x".to_string(), &e).is_none());
    let e = parse_desktop("[Desktop Entry]\nExec=foot\n");
    assert!(entry_from("x".to_string(), &e).is_none());
    assert_eq!(argv_from_words(vec!["%f".to_string()]), None);
}

#[test]
fn later_entries_replace_earlier_ones_by_id() {
    let found = vec![
        app("b.desktop", "B system", &["b"]),
        app("a.desktop", "A", &["a"]),
        app("b.desktop", "B user", &["b", "--user"]),
    ];
    let by_id = latest_per_id(&found);
    assert_eq!(ids(&by_id), vec!["a.desktop", "b.desktop"]);
    assert_eq!(by_id[1].name, "B user");
    assert!(latest_per_id(&Vec::new()).is_empty());
}

#[test]
fn the_same_app_is_listed_once() {
    let v = vec![
        app("org.foot.desktop", "Foot", &["foot"]),
        app("foot.desktop", "Foot", &["foot"]),
        app("foot-server.desktop", "Foot", &["foot", "--server"]),
    ];
    let kept = first_of_each_app(&v);
    assert_eq!(ids(&kept), vec!["org.foot.desktop", "foot-server.desktop"]);
}

#[test]
fn apps_sort_by_name_ignoring_case_and_keep_ties_in_order() {
    let v = vec![
        app("1", "zed", &["zed"]),
        app("2", "Alacritty", &["alacritty"]),
        app("3", "ALACRITTY", &["alacritty", "-e"]),
        app("4", "btop", &["btop"]),
    ];
    let sorted = sort_by_name(&v);
    assert_eq!(ids(&sorted), vec!["2", "3", "4", "1"]);
}

#[test]
fn scan_results_are_deduplicated_and_sorted() {
    let found = vec![
        app("zz.desktop", "Firefox", &["firefox"]),
        app("foot.desktop", "foot", &["foot"]),
        app("aa.desktop", "Firefox", &["firefox"]),
        app("foot.desktop", "Foot (user)", &["foot"]),
    ];
    let apps = collect_apps(&found);
    // By id: aa, foot (user's), zz; zz launches the same as aa and goes.
    assert_eq!(ids(&apps), vec!["aa.desktop", "foot.desktop"]);
    assert_eq!(apps[1].name, "Foot (user)");
}
