//! What the editors make of the user's input, and how a slot's action reads
//! in the list of gestures.

use vstd::prelude::*;
use crate::catalog::{Args, catalog, find, find_entry};
use crate::kdl::{ArgV, NodeV, parse_document_spec};
use crate::model::{ActionNode, ActionNodeV, ActionValue, ActionValueV, action_label, action_of, strings_view};
use crate::text::{owned, push_str, trim};

verus! {

// ---------------------------------------------------------------------------
// How an action reads.
// ---------------------------------------------------------------------------

/// The argument texts joined with single spaces.
pub open spec fn joined_texts(args: Seq<ArgV>) -> Seq<char>
    decreases args.len(),
{
    if args.len() == 0 {
        seq![]
    } else if args.len() == 1 {
        args[0].text()
    } else {
        joined_texts(args.drop_last()) + seq![' '] + args.last().text()
    }
}

/// Human label for what a slot currently does: the catalog's label for a
/// known action, `Run: <command>` for spawns, the action's own label otherwise.
pub open spec fn display_text(v: ActionValueV) -> Seq<char> {
    match v {
        ActionValueV::Unbound => "Unbound"@,
        ActionValueV::Raw(_) => "Custom KDL"@,
        ActionValueV::Node(a) => match find_entry(catalog(), a.name) {
            Some(e) => e.label@,
            None => if a.name == "spawn"@ {
                "Run: "@ + joined_texts(a.args)
            } else if a.name == "spawn-sh"@ {
                "Run: "@ + if a.args.len() > 0 { a.args[0].text() } else { seq![] }
            } else {
                action_label(a)
            },
        },
    }
}

/// Human label for what a slot currently does.
pub fn action_display(value: &ActionValue) -> (r: String)
    ensures
        r@ == display_text(value.view()),
{
    match value {
        ActionValue::Unbound => owned("Unbound"),
        ActionValue::Raw { .. } => owned("Custom KDL"),
        ActionValue::Node(n) => {
            match find(n.name.as_str()) {
                Some(entry) => owned(entry.label),
                None => {
                    let ghost a = n.view();
                    if crate::text::str_eq(n.name.as_str(), "spawn") {
                        let mut r = owned("Run: ");
                        let mut i: usize = 0;
                        while i < n.args.len()
                            invariant
                                a == n.view(),
                                i <= n.args@.len(),
                                r@ == "Run: "@ + joined_texts(a.args.take(i as int)),
                            decreases n.args@.len() - i,
                        {
                            assert(a.args.take(i + 1).drop_last() =~= a.args.take(i as int));
                            assert(a.args.take(i + 1).last() == a.args[i as int]);
                            if i > 0 {
                                crate::text::push_char(&mut r, ' ');
                            } else {
                                assert(a.args.take(0) =~= Seq::<ArgV>::empty());
                                assert(a.args.take(1) =~= seq![a.args[0]]);
                            }
                            push_str(&mut r, n.args[i].text());
                            i = i + 1;
                        }
                        assert(a.args.take(n.args@.len() as int) =~= a.args);
                        r
                    } else if crate::text::str_eq(n.name.as_str(), "spawn-sh") {
                        let mut r = owned("Run: ");
                        if n.args.len() > 0 {
                            push_str(&mut r, n.args[0].text());
                        } else {
                            assert(r@ == "Run: "@ + Seq::<char>::empty());
                        }
                        r
                    } else {
                        n.label()
                    }
                },
            }
        },
    }
}

// ---------------------------------------------------------------------------
// The command editor.
// ---------------------------------------------------------------------------

/// The words of an argument line that are not empty, as `shlex` splits it
/// (nothing when it cannot split it).
pub open spec fn argument_words(args: Seq<char>) -> Seq<Seq<char>> {
    match crate::apps::shlex_words(args) {
        Some(ws) => non_empty_words(ws),
        None => seq![],
    }
}

pub open spec fn non_empty_words(ws: Seq<Seq<char>>) -> Seq<Seq<char>>
    decreases ws.len(),
{
    if ws.len() == 0 {
        seq![]
    } else {
        let rest = non_empty_words(ws.drop_last());
        if ws.last().len() == 0 { rest } else { rest.push(ws.last()) }
    }
}

/// What the command editor makes of a program (or, for a shell command, a
/// command line) and an argument line: nothing for a blank program.
pub open spec fn command_action(program: Seq<char>, args: Seq<char>, shell: bool) -> Option<ActionValueV> {
    let p = trim(program);
    if p.len() == 0 {
        None
    } else if shell {
        Some(ActionValueV::Node(ActionNodeV { name: "spawn-sh"@, args: seq![ArgV::Str(p)], props: seq![] }))
    } else {
        let argv = seq![p] + argument_words(args);
        Some(
            ActionValueV::Node(
                ActionNodeV { name: "spawn"@, args: Seq::new(argv.len(), |i: int| ArgV::Str(argv[i])), props: seq![] },
            ),
        )
    }
}

/// The action the command editor produces.
pub fn command_value(program: &str, args: &str, shell: bool) -> (r: Option<ActionValue>)
    ensures
        match command_action(program@, args@, shell) {
            Some(v) => r is Some && r->0.view() == v,
            None => r is None,
        },
{
    let p = crate::text::trimmed(program);
    if p.as_str().is_empty() {
        return None;
    }
    if shell {
        return Some(ActionValue::spawn_sh(p.as_str()));
    }
    let mut argv: Vec<String> = Vec::new();
    argv.push(p);
    let ghost head = strings_view(argv@);
    assert(head =~= seq![trim(program@)]);
    let words: Vec<String> = match crate::apps::shlex_split(args) {
        Some(ws) => ws,
        None => Vec::new(),
    };
    let ghost wv = strings_view(words@);
    assert(match crate::apps::shlex_words(args@) {
        Some(ws) => ws == wv,
        None => wv == Seq::<Seq<char>>::empty(),
    });
    assert(non_empty_words(Seq::<Seq<char>>::empty()) == Seq::<Seq<char>>::empty());
    assert(argument_words(args@) == non_empty_words(wv));
    let mut i: usize = 0;
    assert(wv.take(0) =~= Seq::<Seq<char>>::empty());
    assert(head + Seq::<Seq<char>>::empty() =~= head);
    while i < words.len()
        invariant
            wv == strings_view(words@),
            i <= words@.len(),
            strings_view(argv@) == head + non_empty_words(wv.take(i as int)),
        decreases words@.len() - i,
    {
        assert(wv.take(i + 1).drop_last() =~= wv.take(i as int));
        assert(wv.take(i + 1).last() == words@[i as int]@);
        if !words[i].as_str().is_empty() {
            let ghost before = strings_view(argv@);
            argv.push(words[i].clone());
            assert(strings_view(argv@) =~= before.push(words@[i as int]@));
        }
        i = i + 1;
    }
    assert(wv.take(words@.len() as int) =~= wv);
    assert(strings_view(argv@) == seq![trim(program@)] + argument_words(args@));
    let v = ActionValue::spawn(argv.as_slice());
    assert(Seq::new(argv@.len(), |j: int| ArgV::Str(argv@[j]@)) =~= Seq::new(
        strings_view(argv@).len(),
        |j: int| ArgV::Str(strings_view(argv@)[j]),
    ));
    Some(v)
}

proof fn lemma_non_empty_words(ws: Seq<Seq<char>>)
    ensures
        forall|i: int| 0 <= i < non_empty_words(ws).len() ==> (#[trigger] non_empty_words(ws)[i]).len() > 0,
        non_empty_words(ws).len() <= ws.len(),
    decreases ws.len(),
{
    if ws.len() > 0 {
        lemma_non_empty_words(ws.drop_last());
        let rest = non_empty_words(ws.drop_last());
        if ws.last().len() != 0 {
            assert forall|i: int| 0 <= i < rest.push(ws.last()).len() implies (#[trigger] rest.push(ws.last())[i]).len()
                > 0 by {
                if i < rest.len() {
                    assert(rest.push(ws.last())[i] == rest[i]);
                }
            }
        }
    }
}

/// The command editor: a blank program gives nothing; a shell command is
/// `spawn-sh` with the trimmed command line as its one quoted argument;
/// otherwise `spawn` with the trimmed program first, then each non-empty
/// word of the argument line, all quoted.
pub proof fn law_command_value(program: Seq<char>, args: Seq<char>, shell: bool)
    ensures
        trim(program).len() == 0 <==> command_action(program, args, shell) is None,
        trim(program).len() > 0 && shell ==> command_action(program, args, shell) == Some(
            ActionValueV::Node(ActionNodeV { name: "spawn-sh"@, args: seq![ArgV::Str(trim(program))], props: seq![] }),
        ),
        trim(program).len() > 0 && !shell ==> {
            &&& command_action(program, args, shell) matches Some(ActionValueV::Node(a))
            &&& a.name == "spawn"@
            &&& a.props.len() == 0
            &&& a.args.len() == 1 + argument_words(args).len()
            &&& a.args[0] == ArgV::Str(trim(program))
            &&& forall|i: int|
                0 <= i < argument_words(args).len() ==> a.args[1 + i] == ArgV::Str(#[trigger] argument_words(args)[i])
                    && argument_words(args)[i].len() > 0
        },
{
    match crate::apps::shlex_words(args) {
        Some(ws) => lemma_non_empty_words(ws),
        None => {},
    }
    if trim(program).len() > 0 && !shell {
        let argv = seq![trim(program)] + argument_words(args);
        assert forall|i: int| 0 <= i < argument_words(args).len() implies argv[1 + i] == #[trigger] argument_words(
            args,
        )[i] by {}
    }
}

/// The custom KDL editor: text holding one childless node becomes that
/// node's action, with its name, arguments and properties as written.
pub proof fn law_custom_kdl_single_node(text: Seq<char>, doc: Seq<NodeV>)
    requires
        parse_document_spec(kdl_wrapper(text)) == Ok::<Seq<NodeV>, crate::kdl::ErrV>(doc),
        doc.len() > 0,
        doc[0].children.len() == 1,
        doc[0].children[0].children.len() == 0,
    ensures
        custom_action(text) == Ok::<ActionValueV, Seq<char>>(
            ActionValueV::Node(
                ActionNodeV {
                    name: doc[0].children[0].name,
                    args: doc[0].children[0].args,
                    props: doc[0].children[0].props,
                },
            ),
        ),
{
}

// ---------------------------------------------------------------------------
// The custom KDL editor.
// ---------------------------------------------------------------------------

/// The text typed into the custom KDL editor, wrapped in a parent node so
/// the parser accepts it.
pub open spec fn kdl_wrapper(text: Seq<char>) -> Seq<char> {
    "x {\n"@ + text + "\n}\n"@
}

/// What the custom KDL editor makes of its text: one childless action node
/// becomes that action, several nodes are kept verbatim (niri validate will
/// judge them), anything else is refused with a message.
pub open spec fn custom_action(text: Seq<char>) -> Result<ActionValueV, Seq<char>> {
    match parse_document_spec(kdl_wrapper(text)) {
        Err(e) => Err(crate::model::parse_error_text(e)),
        Ok(doc) => {
            let kids = if doc.len() > 0 { doc[0].children } else { Seq::<NodeV>::empty() };
            if kids.len() == 1 && kids[0].children.len() == 0 {
                Ok(ActionValueV::Node(action_of(kids[0])))
            } else if kids.len() > 1 {
                Ok(ActionValueV::Raw(trim(kdl_wrapper(text))))
            } else {
                Err("Write exactly one action node."@)
            }
        },
    }
}

/// The action the custom KDL editor produces, or why it cannot.
pub fn custom_kdl_value(text: &str) -> (r: Result<ActionValue, String>)
    ensures
        match r {
            Ok(v) => custom_action(text@) == Ok::<ActionValueV, Seq<char>>(v.view()),
            Err(e) => custom_action(text@) == Err::<ActionValueV, Seq<char>>(e@),
        },
{
    let mut wrapper = owned("x {\n");
    push_str(&mut wrapper, text);
    push_str(&mut wrapper, "\n}\n");
    match crate::kdl::parse_document(wrapper.as_str()) {
        Err(e) => Err(e.to_text()),
        Ok(doc) => {
            let ghost dv = crate::kdl::nodes_view(doc@);
            if doc.len() == 0 {
                return Err(owned("Write exactly one action node."));
            }
            let first = &doc[0];
            assert(first.view() == dv[0]);
            let n = first.children.len();
            assert(dv[0].children.len() == n);
            if n == 1 && first.children[0].children.len() == 0 {
                assert(dv[0].children[0] == first.children@[0].view());
                Ok(ActionValue::Node(Box::new(ActionNode::from_kdl(&first.children[0]))))
            } else if n > 1 {
                Ok(ActionValue::Raw { kdl: crate::text::trimmed(wrapper.as_str()) })
            } else {
                if n == 1 {
                    assert(dv[0].children[0] == first.children@[0].view());
                }
                Err(owned("Write exactly one action node."))
            }
        },
    }
}

// ---------------------------------------------------------------------------
// The argument editor.
// ---------------------------------------------------------------------------

/// Quick choices, placeholder text and initial text of the argument editor.
pub open spec fn arg_presets_of(a: Args) -> (Seq<Seq<char>>, Seq<char>, Seq<char>) {
    match a {
        Args::SizeChange => (seq!["+10%"@, "-10%"@, "50%"@, "100%"@], "size change, e.g. +10%"@, "+10%"@),
        Args::WorkspaceRef => (seq!["2"@, "3"@, "4"@], "workspace number or \"name\""@, "2"@),
        Args::Fixed(words) => (Seq::new(words@.len(), |i: int| words@[i]@), "choose one"@, words@[0]@),
        Args::NoArg => (seq![], ""@, seq![]),
    }
}

pub open spec fn strs_view(v: Seq<&'static str>) -> Seq<Seq<char>> {
    Seq::new(v.len(), |i: int| v[i]@)
}

/// Quick choices, placeholder and initial text for an entry's argument.
pub fn arg_presets(a: Args) -> (r: (Vec<&'static str>, &'static str, String))
    requires
        crate::catalog::fixed_nonempty(a),
    ensures
        strs_view(r.0@) == arg_presets_of(a).0,
        r.1@ == arg_presets_of(a).1,
        r.2@ == arg_presets_of(a).2,
{
    match a {
        Args::SizeChange => {
            let v: Vec<&'static str> = vec!["+10%", "-10%", "50%", "100%"];
            assert(strs_view(v@) =~= seq!["+10%"@, "-10%"@, "50%"@, "100%"@]);
            (v, "size change, e.g. +10%", owned("+10%"))
        },
        Args::WorkspaceRef => {
            let v: Vec<&'static str> = vec!["2", "3", "4"];
            assert(strs_view(v@) =~= seq!["2"@, "3"@, "4"@]);
            (v, "workspace number or \"name\"", owned("2"))
        },
        Args::Fixed(words) => {
            let mut v: Vec<&'static str> = Vec::new();
            let mut i: usize = 0;
            while i < words.len()
                invariant
                    i <= words@.len(),
                    v@ == words@.take(i as int),
                decreases words@.len() - i,
            {
                v.push(words[i]);
                assert(words@.take(i + 1) =~= words@.take(i as int).push(words@[i as int]));
                i = i + 1;
            }
            assert(words@.take(words@.len() as int) =~= words@);
            assert(strs_view(v@) =~= Seq::new(words@.len(), |j: int| words@[j]@));
            (v, "choose one", owned(words[0]))
        },
        Args::NoArg => {
            let v: Vec<&'static str> = Vec::new();
            assert(strs_view(v@) =~= Seq::<Seq<char>>::empty());
            (v, "", String::new())
        },
    }
}

} // verus!
