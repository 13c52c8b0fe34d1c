use niri_tablet_easysetup::kdl::{find_top_level, find_top_level_node_span, lex, parse_document, quote, Arg, Node, Tok};

#[test]
fn parses_shipped_shapes() {
    let src = r#"
// comment
gestures {
    show-touch-points "gestures"
    // debug-log
    touchscreen-swipe {
        fingers 3
        horizontal-swipe "resize-column"
        tap { maximize-column; }
        hold {
            left { move-column-left; }
        }
    }
    touchscreen-edge-swipe {
        bottom { spawn-sh "~/.local/bin/niri-osk.sh"; }
    }
}
"#;
    let doc = parse_document(src).unwrap();
    let g = find_top_level(&doc, "gestures").unwrap();
    assert_eq!(
        g.find("show-touch-points").unwrap().args[0],
        Arg::Str("gestures".into())
    );
    let ts = g.find("touchscreen-swipe").unwrap();
    assert_eq!(ts.find("fingers").unwrap().args[0], Arg::Word("3".into()));
    let tap = ts.find("tap").unwrap();
    assert_eq!(tap.children.len(), 1);
    assert_eq!(tap.children[0].name, "maximize-column");
    let hold = ts.find("hold").unwrap();
    assert_eq!(hold.find("left").unwrap().children[0].name, "move-column-left");
    let edge = g.find("touchscreen-edge-swipe").unwrap();
    let bottom = edge.find("bottom").unwrap();
    assert_eq!(
        bottom.children[0].args[0],
        Arg::Str("~/.local/bin/niri-osk.sh".into())
    );
}

#[test]
fn parses_props_and_multiline_nodes() {
    let src = "include \"cfg/gestures.kdl\" optional=true\ntap\n{\n  quit skip-confirmation=true\n}\n";
    let doc = parse_document(src).unwrap();
    let inc = &doc[0];
    assert_eq!(inc.name, "include");
    assert_eq!(inc.args[0], Arg::Str("cfg/gestures.kdl".into()));
    assert_eq!(inc.props[0].0, "optional");
    let tap = &doc[1];
    assert_eq!(tap.name, "tap");
    let quit = &tap.children[0];
    assert_eq!(quit.props[0], ("skip-confirmation".into(), Arg::Word("true".into())));
}

#[test]
fn strings_with_escapes_round_trip() {
    let src = "bottom { spawn-sh \"echo \\\"hi\\\\there\\\"\"; }";
    let doc = parse_document(src).unwrap();
    let s = match &doc[0].children[0].args[0] {
        Arg::Str(s) => s.clone(),
        other => panic!("{other:?}"),
    };
    assert_eq!(s, "echo \"hi\\there\"");
    assert_eq!(Node::render(&doc[0], 0), src);
}

#[test]
fn render_is_stable() {
    // Canonical form: leaf-only children inline, `;` after every leaf.
    let src = "gestures {\n    show-touch-points \"gestures\";\n    touchscreen-swipe {\n        fingers 3;\n        tap { maximize-column; }\n    }\n}\n";
    let doc = parse_document(src).unwrap();
    let rendered: String = doc.iter().map(|n| n.render(0)).collect::<Vec<_>>().join("\n") + "\n";
    assert_eq!(rendered, src);
    // And the shipped style (no trailing `;` on some lines) parses to the
    // same document.
    let shipped_style = "gestures {\n    show-touch-points \"gestures\"\n    touchscreen-swipe {\n        fingers 3\n        tap { maximize-column; }\n    }\n}\n";
    let doc2 = parse_document(shipped_style).unwrap();
    assert_eq!(doc, doc2);
}

#[test]
fn errors_on_garbage() {
    assert!(parse_document("gestures { tap {").is_err());
    assert!(parse_document("foo \"unterminated").is_err());
    assert!(parse_document("}").is_err());
}

#[test]
fn finds_top_level_span_ignoring_nested_and_strings() {
    let src = "// intro comment\nspawn-at-startup \"waybar\"\n\n// gestures live here\ngestures {\n    touchscreen-swipe {\n        tap { maximize-column; }\n    }\n    // } in comment\n    bottom { spawn-sh \"}\"; }\n}\n\ninclude \"x.kdl\"\n";
    let (start, end) = find_top_level_node_span(src, "gestures").unwrap();
    let cut = &src[start..end];
    assert!(cut.starts_with("gestures {"), "{cut:?}");
    assert!(cut.trim_end().ends_with('}'), "{cut:?}");
    // The cut is a standalone gestures node (string/comment braces like "}"
    // and "// }" must not confuse the scanner).
    let cut_doc = parse_document(cut).expect("cut parses standalone");
    assert!(find_top_level(&cut_doc, "gestures").is_some());
    // Cutting it out leaves the rest intact.
    let remainder = format!("{}{}", &src[..start], &src[end..]);
    assert!(remainder.contains("intro comment"));
    assert!(remainder.contains("include \"x.kdl\""));
    let rem_doc = parse_document(&remainder).expect("remainder parses");
    assert!(find_top_level(&rem_doc, "gestures").is_none());
}

#[test]
fn span_scanner_ignores_siblings_with_same_prefix() {
    let src = "gestures-export \"x\"\ngestures { tap { maximize-column; } }\n";
    let (start, _) = find_top_level_node_span(src, "gestures").unwrap();
    assert!(src[start..].starts_with("gestures {"));
}

#[test]
fn parse_errors_say_where() {
    assert_eq!(parse_document("}").unwrap_err().to_text(), "line 1: unexpected `}`");
    assert_eq!(
        parse_document("a\nfoo \"unterminated").unwrap_err().to_text(),
        "line 2: unterminated string"
    );
    assert_eq!(
        parse_document("gestures { tap {").unwrap_err().to_text(),
        "line 9999: unexpected end of file, missing `}`"
    );
    assert_eq!(
        parse_document("a \"x\\q\"").unwrap_err().to_text(),
        "line 1: unknown escape \\q in string"
    );
    assert_eq!(
        parse_document("a\n\n$").unwrap_err().to_text(),
        "line 3: unexpected character `$`"
    );
    assert_eq!(
        parse_document("= x").unwrap_err().to_text(),
        "line 1: expected a node name, found Equals"
    );
    assert_eq!(
        parse_document("\"s\" x").unwrap_err().to_text(),
        "line 1: expected a node name, found Str(\"s\")"
    );
    assert_eq!(
        parse_document("a k=").unwrap_err().to_text(),
        "line 1: property `k` has no value"
    );
}

#[test]
fn render_then_parse_gives_the_same_nodes() {
    let mut inner = Node::new("spawn");
    inner.args.push(Arg::Str("say \"hi\"\n\tthere\\".into()));
    inner.args.push(Arg::Word("42".into()));
    inner.props.push(("mode".into(), Arg::Str("x y".into())));
    let mut tap = Node::new("tap");
    tap.children.push(inner);
    let mut block = Node::new("touchscreen-swipe");
    block.children.push(tap);
    block.children.push(Node::new("off"));
    let mut g = Node::new("gestures");
    g.children.push(block);
    let text = g.render(0);
    let doc = parse_document(&text).unwrap();
    assert_eq!(doc, vec![g]);
}

#[test]
fn render_forms_and_quoting() {
    let n = Node::new("tap").arg_str("a\"b");
    assert_eq!(n.render(1), "    tap \"a\\\"b\";");
    assert_eq!(quote("x\\y\n"), "\"x\\\\y\\n\"");
    assert_eq!(Arg::Word("3".into()).render(), "3");
    assert_eq!(Arg::Str("3".into()).render(), "\"3\"");
    assert_eq!(Arg::Str("3".into()).text(), "3");
}

#[test]
fn user_text_is_bare_only_when_kdl_allows_it() {
    assert_eq!(Arg::from_user_text("+10%"), Arg::Word("+10%".into()));
    assert_eq!(Arg::from_user_text("50%"), Arg::Str("50%".into()));
    assert_eq!(Arg::from_user_text("2"), Arg::Word("2".into()));
    assert_eq!(Arg::from_user_text("1.5e3"), Arg::Word("1.5e3".into()));
    assert_eq!(Arg::from_user_text("next"), Arg::Word("next".into()));
    assert_eq!(Arg::from_user_text("my name"), Arg::Str("my name".into()));
    assert_eq!(Arg::from_user_text(""), Arg::Str("".into()));
}

#[test]
fn comment_lines_before_a_node_are_skipped() {
    let text = "// one\n// two\ngestures { debug-log; }\n";
    let doc = parse_document(text).unwrap();
    assert_eq!(doc.len(), 1);
    assert_eq!(doc[0].name, "gestures");
    assert_eq!(doc[0].children[0].name, "debug-log");
}

#[test]
fn span_ends_after_the_closing_brace() {
    let src = "gestures { } foo;\n";
    assert_eq!(find_top_level_node_span(src, "gestures"), Some((0, 12)));
    assert_eq!(find_top_level_node_span("gestures { a; };  // note\nb;\n", "gestures"), Some((0, 16)));
}

#[test]
fn user_text_starting_with_a_slash_is_quoted() {
    assert_eq!(Arg::from_user_text("/tmp/x"), Arg::Str("/tmp/x".into()));
    assert_eq!(Arg::from_user_text("a/b"), Arg::Word("a/b".into()));
    let a = Arg::from_user_text("/tmp/x");
    let doc = parse_document(&format!("n {};", a.render())).unwrap();
    assert_eq!(doc[0].args, vec![a]);
}

#[test]
fn quoted_text_lexes_back_as_one_string() {
    let text = "a\"b\\c\nd\te\rf";
    let q = quote(text);
    assert_eq!(quote("a\"b\\c\nd"), "\"a\\\"b\\\\c\\nd\"");
    assert!(q.starts_with('"') && q.ends_with('"'));
    assert!(!q.contains('\n') && !q.contains('\r') && !q.contains('\t'));
    assert_eq!(lex(&q).unwrap(), vec![(Tok::Str(text.to_string()), q.chars().count())]);
}

#[test]
fn parsed_nodes_render_back_at_any_depth_and_indent() {
    let src = "gestures {\n    touchscreen-swipe fingers=3 {\n        tap \"x y\" 2 { spawn \"foot\"; }\n    }\n}\n";
    let doc = parse_document(src).unwrap();
    let swipe = &doc[0].children[0];
    let tap = &swipe.children[0];
    for node in [&doc[0], swipe, tap, &tap.children[0]] {
        for indent in [0usize, 1, 3] {
            assert_eq!(parse_document(&node.render(indent)).unwrap(), vec![node.clone()]);
        }
    }
}

#[test]
fn lexing_an_escaped_quote_keeps_it_in_the_string() {
    assert_eq!(
        lex("a \"x\\\"y\"").unwrap(),
        vec![(Tok::Word("a".into()), 1), (Tok::Str("x\"y".into()), 8)]
    );
}

#[test]
fn slashes_inside_a_string_are_text_and_a_comment_outside() {
    assert_eq!(
        lex("a \"x//y\" // z\nb").unwrap(),
        vec![
            (Tok::Word("a".into()), 1),
            (Tok::Str("x//y".into()), 8),
            (Tok::Newline, 13),
            (Tok::Word("b".into()), 15),
        ]
    );
    assert_eq!(lex("{ ;=}").unwrap(), vec![(Tok::LBrace, 0), (Tok::Semi, 2), (Tok::Equals, 3), (Tok::RBrace, 4)]);
}
