//! A small, tolerant KDL reader/writer covering just the shapes that appear in
//! niri gesture configs: nodes with optional `prop=value` properties, string
//! or bare-word arguments, `//` comments, and `{ ... }` child blocks.
//!
//! This is deliberately not a general KDL implementation. Anything it cannot
//! understand makes `parse_document` fail; callers treat that as "show a
//! banner, refuse to rewrite the file". Unmodeled but well-formed nodes are
//! round-tripped structurally (comments inside them are not preserved).

use vstd::prelude::*;
use crate::text::{is_ascii_alnum, is_ascii_alpha, ascii_alpha, is_ascii_digit, is_unicode_whitespace, ascii_alnum, ascii_digit, unicode_whitespace, chars_of, owned, push_char, push_str, str_eq, string_from_range};

verus! {

/// A scalar value. `Str` was quoted in the source (and is re-quoted on
/// render); `Word` was bare (numbers, `true`, identifiers) and is rendered
/// verbatim.
#[derive(Clone, PartialEq, Debug)]
pub enum Arg {
    Str(String),
    Word(String),
}

/// The mathematical value of an [`Arg`].
pub enum ArgV {
    Str(Seq<char>),
    Word(Seq<char>),
}

impl ArgV {
    pub open spec fn text(self) -> Seq<char> {
        match self {
            ArgV::Str(s) => s,
            ArgV::Word(s) => s,
        }
    }
}

impl Arg {
    pub open spec fn view(&self) -> ArgV {
        match self {
            Arg::Str(s) => ArgV::Str(s@),
            Arg::Word(s) => ArgV::Word(s@),
        }
    }

    /// Unquoted content, for display.
    pub fn text(&self) -> (r: &str)
        ensures
            r@ == self.view().text(),
    {
        match self {
            Arg::Str(s) => s.as_str(),
            Arg::Word(s) => s.as_str(),
        }
    }

    /// KDL source form: quoted+escaped, or verbatim.
    pub fn render(&self) -> (r: String)
        ensures
            r@ == render_arg(self.view()),
    {
        match self {
            Arg::Word(w) => w.clone(),
            Arg::Str(s) => quote(s.as_str()),
        }
    }

    /// Best-effort constructor for user-typed text: bare when it is a valid
    /// bare token (number/bool/plain identifier), quoted otherwise.
    pub fn from_user_text(text: &str) -> (a: Arg)
        ensures
            a.view() == (if bare_token(text@) { ArgV::Word(text@) } else { ArgV::Str(text@) }),
    {
        if is_bare_token(text) {
            Arg::Word(owned(text))
        } else {
            Arg::Str(owned(text))
        }
    }

    /// A copy with the same value.
    pub fn duplicate(&self) -> (r: Arg)
        ensures
            r.view() == self.view(),
    {
        match self {
            Arg::Str(s) => Arg::Str(s.clone()),
            Arg::Word(s) => Arg::Word(s.clone()),
        }
    }
}

/// Characters KDL accepts in an unquoted token here.
pub open spec fn is_bare_char(c: char) -> bool {
    is_ascii_alnum(c) || c == '-' || c == '_' || c == '.' || c == '+' || c == '%' || c == '/'
}

/// First index at or after `i` that is not an ASCII digit.
pub open spec fn digits_end(s: Seq<char>, i: int) -> int
    decreases s.len() - i,
{
    if i < 0 || i >= s.len() || !is_ascii_digit(s[i]) {
        i
    } else {
        digits_end(s, i + 1)
    }
}

/// The floating-point literal grammar of `f64`'s `FromStr`, for texts that
/// begin with a digit: `Digit+ ('.' Digit*)? (('e'|'E') Sign? Digit+)?`.
pub open spec fn float_literal_from_digit(s: Seq<char>) -> bool {
    let k1 = digits_end(s, 0);
    let k2 = if k1 < s.len() && s[k1] == '.' { digits_end(s, k1 + 1) } else { k1 };
    ||| k2 == s.len()
    ||| {
        &&& k2 < s.len()
        &&& (s[k2] == 'e' || s[k2] == 'E')
        &&& {
            let k3 = if k2 + 1 < s.len() && (s[k2 + 1] == '+' || s[k2 + 1] == '-') { k2 + 2 } else { k2 + 1 };
            &&& k3 < s.len()
            &&& digits_end(s, k3) == s.len()
        }
    }
}

/// True for things KDL accepts unquoted: numbers, booleans, identifiers.
/// A `/` may continue such a token but not start it (it would read as the
/// start of a comment).
pub open spec fn bare_token(s: Seq<char>) -> bool {
    &&& s.len() > 0
    &&& forall|i: int| 0 <= i < s.len() ==> is_bare_char(#[trigger] s[i])
    &&& s[0] != '/'
    &&& (!is_ascii_digit(s[0]) || float_literal_from_digit(s))
}

fn bare_char(c: char) -> (b: bool)
    ensures
        b == is_bare_char(c),
{
    ascii_alnum(c) || c == '-' || c == '_' || c == '.' || c == '+' || c == '%' || c == '/'
}

fn digits_end_exec(s: &Vec<char>, i: usize) -> (k: usize)
    requires
        i <= s@.len(),
    ensures
        k as int == digits_end(s@, i as int),
        i <= k <= s@.len(),
    decreases s@.len() - i,
{
    if i >= s.len() || !ascii_digit(s[i]) {
        i
    } else {
        digits_end_exec(s, i + 1)
    }
}

fn float_literal_exec(s: &Vec<char>) -> (b: bool)
    ensures
        b == float_literal_from_digit(s@),
{
    let k1 = digits_end_exec(s, 0);
    let k2 = if k1 < s.len() && s[k1] == '.' { digits_end_exec(s, k1 + 1) } else { k1 };
    if k2 == s.len() {
        return true;
    }
    if !(s[k2] == 'e' || s[k2] == 'E') {
        return false;
    }
    let k3 = if k2 + 1 < s.len() && (s[k2 + 1] == '+' || s[k2 + 1] == '-') { k2 + 2 } else { k2 + 1 };
    k3 < s.len() && digits_end_exec(s, k3) == s.len()
}

/// True for things KDL accepts unquoted: numbers, booleans, identifiers.
fn is_bare_token(s: &str) -> (b: bool)
    ensures
        b == bare_token(s@),
{
    let cs = chars_of(s);
    if cs.len() == 0 {
        return false;
    }
    let mut i: usize = 0;
    while i < cs.len()
        invariant
            cs@ == s@,
            i <= cs@.len(),
            forall|j: int| 0 <= j < i ==> is_bare_char(#[trigger] cs@[j]),
        decreases cs@.len() - i,
    {
        if !bare_char(cs[i]) {
            return false;
        }
        i = i + 1;
    }
    cs[0] != '/' && (!ascii_digit(cs[0]) || float_literal_exec(&cs))
}

/// The escape sequence `quote` writes for one character.
pub open spec fn escape_char(c: char) -> Seq<char> {
    if c == '"' {
        seq!['\\', '"']
    } else if c == '\\' {
        seq!['\\', '\\']
    } else if c == '\n' {
        seq!['\\', 'n']
    } else if c == '\t' {
        seq!['\\', 't']
    } else if c == '\r' {
        seq!['\\', 'r']
    } else {
        seq![c]
    }
}

pub open spec fn escape(s: Seq<char>) -> Seq<char>
    decreases s.len(),
{
    if s.len() == 0 {
        seq![]
    } else {
        escape(s.drop_last()) + escape_char(s.last())
    }
}

/// `s` as a KDL string literal.
pub open spec fn quoted(s: Seq<char>) -> Seq<char> {
    seq!['"'] + escape(s) + seq!['"']
}

pub open spec fn render_arg(a: ArgV) -> Seq<char> {
    match a {
        ArgV::Word(w) => w,
        ArgV::Str(s) => quoted(s),
    }
}

pub fn quote(s: &str) -> (out: String)
    ensures
        out@ == quoted(s@),
{
    let cs = chars_of(s);
    let mut out = String::new();
    push_char(&mut out, '"');
    let mut i: usize = 0;
    while i < cs.len()
        invariant
            cs@ == s@,
            i <= cs@.len(),
            out@ == seq!['"'] + escape(cs@.take(i as int)),
        decreases cs@.len() - i,
    {
        let c = cs[i];
        if c == '"' {
            push_char(&mut out, '\\');
            push_char(&mut out, '"');
        } else if c == '\\' {
            push_char(&mut out, '\\');
            push_char(&mut out, '\\');
        } else if c == '\n' {
            push_char(&mut out, '\\');
            push_char(&mut out, 'n');
        } else if c == '\t' {
            push_char(&mut out, '\\');
            push_char(&mut out, 't');
        } else if c == '\r' {
            push_char(&mut out, '\\');
            push_char(&mut out, 'r');
        } else {
            push_char(&mut out, c);
        }
        assert(cs@.take(i + 1).drop_last() == cs@.take(i as int));
        i = i + 1;
    }
    assert(cs@.take(cs@.len() as int) == cs@);
    push_char(&mut out, '"');
    out
}


/// One KDL node: `name prop=value* arg* { children }`.
#[derive(PartialEq, Debug)]
pub struct Node {
    pub name: String,
    pub props: Vec<(String, Arg)>,
    pub args: Vec<Arg>,
    pub children: Vec<Node>,
}

/// The mathematical value of a [`Node`].
pub struct NodeV {
    pub name: Seq<char>,
    pub props: Seq<(Seq<char>, ArgV)>,
    pub args: Seq<ArgV>,
    pub children: Seq<NodeV>,
}

pub open spec fn args_view(args: Seq<Arg>) -> Seq<ArgV> {
    Seq::new(args.len(), |i: int| args[i].view())
}

pub open spec fn props_view(props: Seq<(String, Arg)>) -> Seq<(Seq<char>, ArgV)> {
    Seq::new(props.len(), |i: int| (props[i].0@, props[i].1.view()))
}

/// The values of a list of nodes.
pub open spec fn nodes_view(nodes: Seq<Node>) -> Seq<NodeV> {
    Seq::new(nodes.len(), |i: int| nodes[i].view())
}

impl Node {
    pub open spec fn view(&self) -> NodeV
        decreases self,
    {
        NodeV {
            name: self.name@,
            props: props_view(self.props@),
            args: args_view(self.args@),
            children: Seq::new(
                self.children.len() as nat,
                |i: int|
                    {
                        if 0 <= i < self.children.len() {
                            proof {
                                assert(decreases_to!(self => self.children@[i]));
                            }
                            self.children@[i].view()
                        } else {
                            arbitrary()
                        }
                    },
            ),
        }
    }

    pub fn new(name: &str) -> (n: Node)
        ensures
            n.view() == (NodeV { name: name@, props: seq![], args: seq![], children: seq![] }),
    {
        let n = Node { name: owned(name), props: Vec::new(), args: Vec::new(), children: Vec::new() };
        assert(n.view().props =~= seq![]);
        assert(n.view().args =~= seq![]);
        assert(n.view().children =~= seq![]);
        n
    }

    /// Appends a quoted string argument.
    pub fn arg_str(self, s: &str) -> (n: Node)
        ensures
            n.view() == (NodeV { args: self.view().args.push(ArgV::Str(s@)), ..self.view() }),
    {
        let mut n = self;
        n.args.push(Arg::Str(owned(s)));
        assert(n.view().args =~= self.view().args.push(ArgV::Str(s@)));
        assert(n.view().children =~= self.view().children);
        n
    }

    /// The first child with the given name.
    pub fn find(&self, name: &str) -> (r: Option<&Node>)
        ensures
            match r {
                Some(c) => exists|i: int|
                    0 <= i < self.children@.len() && first_named(nodes_view(self.children@), name@) == Some(i)
                        && *c == self.children@[i],
                None => first_named(nodes_view(self.children@), name@) is None,
            },
    {
        find_top_level(self.children.as_slice(), name)
    }

    /// A copy with the same value.
    pub fn duplicate(&self) -> (r: Node)
        ensures
            r.view() == self.view(),
        decreases self,
    {
        let mut kids: Vec<Node> = Vec::new();
        let mut i: usize = 0;
        while i < self.children.len()
            invariant
                i <= self.children.len(),
                kids@.len() == i,
                forall|j: int| 0 <= j < i ==> (#[trigger] kids@[j]).view() == self.children@[j].view(),
            decreases self.children.len() - i,
        {
            proof {
                assert(decreases_to!(self => self.children@[i as int]));
            }
            let k = self.children[i].duplicate();
            kids.push(k);
            i = i + 1;
        }
        let mut props: Vec<(String, Arg)> = Vec::new();
        let mut i: usize = 0;
        while i < self.props.len()
            invariant
                i <= self.props.len(),
                props@.len() == i,
                forall|j: int| 0 <= j < i ==> (#[trigger] props@[j]).0@ == self.props@[j].0@
                    && props@[j].1.view() == self.props@[j].1.view(),
            decreases self.props.len() - i,
        {
            props.push((self.props[i].0.clone(), self.props[i].1.duplicate()));
            i = i + 1;
        }
        let args = duplicate_args(&self.args);
        let r = Node { name: self.name.clone(), props, args, children: kids };
        assert(r.view().props =~= self.view().props);
        assert(r.view().children =~= self.view().children);
        r
    }
}

impl Clone for Node {
    fn clone(&self) -> (r: Node)
        ensures
            r.view() == self.view(),
    {
        self.duplicate()
    }
}

pub fn duplicate_args(args: &Vec<Arg>) -> (r: Vec<Arg>)
    ensures
        args_view(r@) == args_view(args@),
{
    let mut out: Vec<Arg> = Vec::new();
    let mut i: usize = 0;
    while i < args.len()
        invariant
            i <= args.len(),
            out@.len() == i,
            forall|j: int| 0 <= j < i ==> (#[trigger] out@[j]).view() == args@[j].view(),
        decreases args.len() - i,
    {
        out.push(args[i].duplicate());
        i = i + 1;
    }
    assert(args_view(out@) =~= args_view(args@));
    out
}

/// Index of the first node named `name`.
pub open spec fn first_named(nodes: Seq<NodeV>, name: Seq<char>) -> Option<int> {
    if exists|i: int| 0 <= i < nodes.len() && (#[trigger] nodes[i]).name == name {
        let i = choose|i: int|
            0 <= i < nodes.len() && (#[trigger] nodes[i]).name == name && forall|j: int|
                0 <= j < i ==> (#[trigger] nodes[j]).name != name;
        Some(i)
    } else {
        None
    }
}

pub proof fn lemma_first_named(nodes: Seq<NodeV>, name: Seq<char>, i: int)
    requires
        0 <= i < nodes.len(),
        nodes[i].name == name,
        forall|j: int| 0 <= j < i ==> (#[trigger] nodes[j]).name != name,
    ensures
        first_named(nodes, name) == Some(i),
{
    let k = choose|k: int|
        0 <= k < nodes.len() && (#[trigger] nodes[k]).name == name && forall|j: int|
            0 <= j < k ==> (#[trigger] nodes[j]).name != name;
    assert(nodes[i].name == name);
    if k < i {
        assert(nodes[k].name != name);
    }
    if i < k {
        assert(nodes[i].name != name);
    }
}

/// Convenience: find the first top-level node with the given name.
pub fn find_top_level<'a>(nodes: &'a [Node], name: &str) -> (r: Option<&'a Node>)
    ensures
        match r {
            Some(c) => exists|i: int|
                0 <= i < nodes@.len() && first_named(nodes_view(nodes@), name@) == Some(i) && *c == nodes@[i],
            None => first_named(nodes_view(nodes@), name@) is None,
        },
{
    let ghost v = nodes_view(nodes@);
    let mut i: usize = 0;
    while i < nodes.len()
        invariant
            i <= nodes@.len(),
            v == nodes_view(nodes@),
            forall|j: int| 0 <= j < i ==> (#[trigger] v[j]).name != name@,
        decreases nodes@.len() - i,
    {
        if str_eq(nodes[i].name.as_str(), name) {
            proof {
                lemma_first_named(v, name@, i as int);
            }
            return Some(&nodes[i]);
        }
        i = i + 1;
    }
    None
}

/// Four spaces per indent level.
pub open spec fn pad(indent: nat) -> Seq<char> {
    Seq::new(4 * indent, |i: int| ' ')
}

/// The indent used for children: one more, saturating at `usize::MAX`.
pub open spec fn child_indent(indent: nat) -> nat {
    if indent < usize::MAX {
        indent + 1
    } else {
        indent
    }
}

pub open spec fn props_text(ps: Seq<(Seq<char>, ArgV)>) -> Seq<char>
    decreases ps.len(),
{
    if ps.len() == 0 {
        seq![]
    } else {
        props_text(ps.drop_last()) + seq![' '] + ps.last().0 + seq!['='] + render_arg(ps.last().1)
    }
}

pub open spec fn args_text(args: Seq<ArgV>) -> Seq<char>
    decreases args.len(),
{
    if args.len() == 0 {
        seq![]
    } else {
        args_text(args.drop_last()) + seq![' '] + render_arg(args.last())
    }
}

/// Indent, name, properties and arguments: everything before `;` or `{`.
pub open spec fn header(n: NodeV, indent: nat) -> Seq<char> {
    pad(indent) + n.name + props_text(n.props) + args_text(n.args)
}

/// Number of leading whitespace characters.
pub open spec fn leading_ws(s: Seq<char>) -> nat
    decreases s.len(),
{
    if s.len() > 0 && is_unicode_whitespace(s[0]) {
        1 + leading_ws(s.drop_first())
    } else {
        0
    }
}

/// `s` without its leading whitespace (`str::trim_start`).
pub open spec fn trim_start(s: Seq<char>) -> Seq<char> {
    s.skip(leading_ws(s) as int)
}

/// `parts` joined with `sep` between consecutive elements.
pub open spec fn join(parts: Seq<Seq<char>>, sep: Seq<char>) -> Seq<char>
    decreases parts.len(),
{
    if parts.len() == 0 {
        seq![]
    } else if parts.len() == 1 {
        parts[0]
    } else {
        join(parts.drop_last(), sep) + sep + parts.last()
    }
}

pub open spec fn all_leaves(cs: Seq<NodeV>) -> bool {
    forall|i: int| 0 <= i < cs.len() ==> (#[trigger] cs[i]).children.len() == 0
}

/// How a childless child is written inside an inline `{ ... }` block.
pub open spec fn leaf_line(c: NodeV) -> Seq<char> {
    trim_start(header(c, 0) + seq![';'])
}

/// The rendered form of a node at the given indent level. Childless nodes
/// end with `;`; leaf-only children go on one line (`tap { maximize-column; }`),
/// anything deeper gets one child per line.
pub open spec fn render(n: NodeV, indent: nat) -> Seq<char>
    decreases n, 1nat,
{
    if n.children.len() == 0 {
        header(n, indent) + seq![';']
    } else if all_leaves(n.children) {
        header(n, indent) + seq![' ', '{', ' '] + join(inline_parts(n.children), seq![' ']) + seq![' ', '}']
    } else {
        header(n, indent) + seq![' ', '{', '\n'] + block_parts(n, indent).flatten() + pad(indent) + seq!['}']
    }
}

/// The leaf children of an inline block, one text each.
pub open spec fn inline_parts(cs: Seq<NodeV>) -> Seq<Seq<char>> {
    Seq::new(cs.len(), |i: int| leaf_line(cs[i]))
}

/// The children of a multi-line block, each rendered one level deeper and
/// followed by a newline.
pub open spec fn block_parts(n: NodeV, indent: nat) -> Seq<Seq<char>>
    decreases n, 0nat,
{
    Seq::new(
        n.children.len(),
        |i: int|
            {
                if 0 <= i < n.children.len() {
                    proof {
                        assert(decreases_to!(n => n.children[i]));
                    }
                    render(n.children[i], child_indent(indent)) + seq!['\n']
                } else {
                    seq![]
                }
            },
    )
}

fn trim_start_exec(s: &String) -> (r: String)
    ensures
        r@ == trim_start(s@),
{
    let cs = chars_of(s.as_str());
    let mut i: usize = 0;
    assert(cs@.skip(0) == cs@);
    while i < cs.len() && unicode_whitespace(cs[i])
        invariant
            cs@ == s@,
            i <= cs@.len(),
            leading_ws(cs@) == i + leading_ws(cs@.skip(i as int)),
        decreases cs@.len() - i,
    {
        assert(cs@.skip(i as int).drop_first() == cs@.skip(i + 1));
        i = i + 1;
    }
    assert(leading_ws(cs@.skip(i as int)) == 0);
    string_from_range(cs.as_slice(), i, cs.len())
}

proof fn lemma_flatten_push(parts: Seq<Seq<char>>, p: Seq<char>)
    ensures
        parts.push(p).flatten() == parts.flatten() + p,
{
    parts.lemma_flatten_push(p);
}

impl Node {
    /// Render this node (and children) at the given indent level.
    pub fn render(&self, indent: usize) -> (out: String)
        ensures
            out@ == render(self.view(), indent as nat),
        decreases self,
    {
        let mut line = String::new();
        let mut k: usize = 0;
        while k < indent
            invariant
                k <= indent,
                line@ == pad(k as nat),
            decreases indent - k,
        {
            push_str(&mut line, "    ");
            proof {
                reveal_strlit("    ");
            }
            assert(line@ =~= pad((k + 1) as nat));
            k = k + 1;
        }
        push_str(&mut line, self.name.as_str());
        let ghost v = self.view();
        let mut i: usize = 0;
        while i < self.props.len()
            invariant
                i <= self.props.len(),
                v == self.view(),
                line@ == pad(indent as nat) + v.name + props_text(v.props.take(i as int)),
            decreases self.props.len() - i,
        {
            push_char(&mut line, ' ');
            push_str(&mut line, self.props[i].0.as_str());
            push_char(&mut line, '=');
            let r = self.props[i].1.render();
            push_str(&mut line, r.as_str());
            assert(v.props.take(i + 1).drop_last() == v.props.take(i as int));
            i = i + 1;
        }
        assert(v.props.take(self.props.len() as int) == v.props);
        let mut i: usize = 0;
        while i < self.args.len()
            invariant
                i <= self.args.len(),
                v == self.view(),
                line@ == pad(indent as nat) + v.name + props_text(v.props) + args_text(v.args.take(i as int)),
            decreases self.args.len() - i,
        {
            push_char(&mut line, ' ');
            let r = self.args[i].render();
            push_str(&mut line, r.as_str());
            assert(v.args.take(i + 1).drop_last() == v.args.take(i as int));
            i = i + 1;
        }
        assert(v.args.take(self.args.len() as int) == v.args);
        assert(line@ == header(v, indent as nat));
        if self.children.len() == 0 {
            push_char(&mut line, ';');
            return line;
        }
        let mut all_leaf = true;
        let mut i: usize = 0;
        while i < self.children.len()
            invariant
                i <= self.children.len(),
                v == self.view(),
                all_leaf == forall|j: int| 0 <= j < i ==> (#[trigger] v.children[j]).children.len() == 0,
            decreases self.children.len() - i,
        {
            assert(v.children[i as int] == self.children@[i as int].view());
            if self.children[i].children.len() != 0 {
                all_leaf = false;
            }
            i = i + 1;
        }
        if all_leaf {
            let ghost parts = inline_parts(v.children);
            push_str(&mut line, " { ");
            proof {
                reveal_strlit(" { ");
            }
            let ghost before = line@;
            let mut i: usize = 0;
            while i < self.children.len()
                invariant
                    i <= self.children.len(),
                    v == self.view(),
                    all_leaves(v.children),
                    parts == inline_parts(v.children),
                    line@ == before + join(parts.take(i as int), seq![' ']),
                decreases self.children.len() - i,
            {
                proof {
                    assert(decreases_to!(self => self.children@[i as int]));
                }
                let r = self.children[i].render(0);
                assert(v.children[i as int].children.len() == 0);
                let t = trim_start_exec(&r);
                if i > 0 {
                    push_char(&mut line, ' ');
                }
                push_str(&mut line, t.as_str());
                assert(parts.take(i + 1).drop_last() == parts.take(i as int));
                i = i + 1;
            }
            assert(parts.take(self.children.len() as int) == parts);
            push_str(&mut line, " }");
            proof {
                reveal_strlit(" }");
            }
            assert(line@ =~= render(v, indent as nat));
            line
        } else {
            let ci: usize = if indent < usize::MAX { indent + 1 } else { indent };
            let ghost parts = block_parts(v, indent as nat);
            push_str(&mut line, " {\n");
            proof {
                reveal_strlit(" {\n");
            }
            let ghost before = line@;
            let mut i: usize = 0;
            while i < self.children.len()
                invariant
                    i <= self.children.len(),
                    v == self.view(),
                    ci == child_indent(indent as nat),
                    parts.len() == v.children.len(),
                    forall|j: int| 0 <= j < v.children.len() ==> #[trigger] parts[j] == render(v.children[j], child_indent(indent as nat)) + seq!['\n'],
                    line@ == before + parts.take(i as int).flatten(),
                decreases self.children.len() - i,
            {
                proof {
                    assert(decreases_to!(self => self.children@[i as int]));
                }
                let r = self.children[i].render(ci);
                push_str(&mut line, r.as_str());
                push_char(&mut line, '\n');
                proof {
                    assert(parts.take(i + 1) == parts.take(i as int).push(parts[i as int]));
                    lemma_flatten_push(parts.take(i as int), parts[i as int]);
                }
                i = i + 1;
            }
            assert(parts.take(self.children.len() as int) == parts);
            let mut k: usize = 0;
            let ghost before2 = line@;
            while k < indent
                invariant
                    k <= indent,
                    line@ == before2 + pad(k as nat),
                decreases indent - k,
            {
                push_str(&mut line, "    ");
                proof {
                    reveal_strlit("    ");
                }
                assert(line@ =~= before2 + pad((k + 1) as nat));
                k = k + 1;
            }
            push_char(&mut line, '}');
            assert(line@ =~= render(v, indent as nat));
            line
        }
    }
}


/// A parse failure: what went wrong and (roughly) where.
#[derive(Debug, Clone, PartialEq)]
pub struct ParseError {
    pub msg: String,
    pub line: usize,
}

/// The value of a [`ParseError`].
pub struct ErrV {
    pub msg: Seq<char>,
    pub line: nat,
}

impl ParseError {
    pub open spec fn view(&self) -> ErrV {
        ErrV { msg: self.msg@, line: self.line as nat }
    }

    /// `line N: message`, the way the error is shown to the user.
    pub fn to_text(&self) -> (r: String)
        ensures
            r@ == "line "@ + crate::text::decimal(self.line as nat) + ": "@ + self.msg@,
    {
        let mut r = owned("line ");
        let d = crate::text::decimal_string(self.line as u64);
        push_str(&mut r, d.as_str());
        push_str(&mut r, ": ");
        push_str(&mut r, self.msg.as_str());
        r
    }
}

/// One token of the small KDL subset.
#[derive(Clone, PartialEq, Debug)]
pub enum Tok {
    Word(String),
    Str(String),
    LBrace,
    RBrace,
    Semi,
    Equals,
    Newline,
}

pub enum TokV {
    Word(Seq<char>),
    Str(Seq<char>),
    LBrace,
    RBrace,
    Semi,
    Equals,
    Newline,
}

impl Tok {
    pub open spec fn view(&self) -> TokV {
        match self {
            Tok::Word(w) => TokV::Word(w@),
            Tok::Str(s) => TokV::Str(s@),
            Tok::LBrace => TokV::LBrace,
            Tok::RBrace => TokV::RBrace,
            Tok::Semi => TokV::Semi,
            Tok::Equals => TokV::Equals,
            Tok::Newline => TokV::Newline,
        }
    }
}

/// The tokens of a lexed sequence, without their offsets.
pub open spec fn toks_view(t: Seq<(Tok, usize)>) -> Seq<TokV> {
    Seq::new(t.len(), |i: int| t[i].0.view())
}

/// The offsets of a lexed sequence, in token order.
pub open spec fn tok_ends(t: Seq<(Tok, usize)>) -> Seq<nat> {
    Seq::new(t.len(), |i: int| t[i].1 as nat)
}

/// Characters that may start a bare word.
pub open spec fn is_word_start(c: char) -> bool {
    is_ascii_alnum(c) || c == '-' || c == '_' || c == '.' || c == '+' || c == '%' || c == '~' || c == '@'
        || c == ':' || c == '#'
}

/// Characters that may continue a bare word.
pub open spec fn is_word_char(c: char) -> bool {
    is_word_start(c) || c == '/'
}

/// The next line number, saturating at `usize::MAX`.
pub open spec fn next_line(line: nat) -> nat {
    if line < usize::MAX {
        line + 1
    } else {
        line
    }
}

pub open spec fn prepend(t: Seq<TokV>, r: Result<Seq<TokV>, ErrV>) -> Result<Seq<TokV>, ErrV> {
    match r {
        Ok(s) => Ok(t + s),
        Err(e) => Err(e),
    }
}

/// Lexing `b` from index `i`; `nl` says whether the last token emitted was a
/// newline (consecutive newlines collapse into one token), `line` is the
/// current 1-based line number.
pub open spec fn lex_at(b: Seq<char>, i: int, nl: bool, line: nat) -> Result<Seq<TokV>, ErrV>
    decreases b.len() - i, 0nat,
{
    if i < 0 || i >= b.len() {
        Ok(seq![])
    } else {
        let c = b[i];
        if c == ' ' || c == '\t' || c == '\r' {
            lex_at(b, i + 1, nl, line)
        } else if c == '\n' {
            prepend(if nl { seq![] } else { seq![TokV::Newline] }, lex_at(b, i + 1, true, next_line(line)))
        } else if c == '/' && i + 1 < b.len() && b[i + 1] == '/' {
            lex_comment(b, i + 2, nl, line)
        } else if c == '{' {
            prepend(seq![TokV::LBrace], lex_at(b, i + 1, false, line))
        } else if c == '}' {
            prepend(seq![TokV::RBrace], lex_at(b, i + 1, false, line))
        } else if c == ';' {
            prepend(seq![TokV::Semi], lex_at(b, i + 1, false, line))
        } else if c == '=' {
            prepend(seq![TokV::Equals], lex_at(b, i + 1, false, line))
        } else if c == '"' {
            lex_str(b, i + 1, seq![], line)
        } else if is_word_start(c) {
            lex_word(b, i + 1, seq![c], line)
        } else {
            Err(ErrV { msg: "unexpected character `"@ + seq![c] + "`"@, line })
        }
    }
}

/// Inside a `//` comment: skip to the end of the line.
pub open spec fn lex_comment(b: Seq<char>, i: int, nl: bool, line: nat) -> Result<Seq<TokV>, ErrV>
    decreases b.len() - i, 1nat,
{
    if 0 <= i < b.len() && b[i] != '\n' {
        lex_comment(b, i + 1, nl, line)
    } else {
        lex_at(b, i, nl, line)
    }
}

/// Inside a bare word whose characters so far are `w`.
pub open spec fn lex_word(b: Seq<char>, i: int, w: Seq<char>, line: nat) -> Result<Seq<TokV>, ErrV>
    decreases b.len() - i, 1nat,
{
    if 0 <= i < b.len() && is_word_char(b[i]) {
        lex_word(b, i + 1, w.push(b[i]), line)
    } else {
        prepend(seq![TokV::Word(w)], lex_at(b, i, false, line))
    }
}

/// Inside a quoted string whose decoded content so far is `acc`.
pub open spec fn lex_str(b: Seq<char>, i: int, acc: Seq<char>, line: nat) -> Result<Seq<TokV>, ErrV>
    decreases b.len() - i, 1nat,
{
    if i < 0 || i >= b.len() {
        Err(ErrV { msg: "unterminated string"@, line })
    } else {
        let c = b[i];
        if c == '"' {
            prepend(seq![TokV::Str(acc)], lex_at(b, i + 1, false, line))
        } else if c == '\n' {
            Err(ErrV { msg: "unterminated string"@, line })
        } else if c == '\\' {
            if i + 1 >= b.len() {
                Err(ErrV { msg: "unterminated escape in string"@, line })
            } else {
                let e = b[i + 1];
                if e == '"' {
                    lex_str(b, i + 2, acc.push('"'), line)
                } else if e == '\\' {
                    lex_str(b, i + 2, acc.push('\\'), line)
                } else if e == 'n' {
                    lex_str(b, i + 2, acc.push('\n'), line)
                } else if e == 't' {
                    lex_str(b, i + 2, acc.push('\t'), line)
                } else if e == 'r' {
                    lex_str(b, i + 2, acc.push('\r'), line)
                } else if e == 'u' {
                    lex_str(b, i + 2, acc + seq!['\\', 'u'], line)
                } else {
                    Err(ErrV { msg: "unknown escape \\"@ + seq![e] + " in string"@, line })
                }
            }
        } else {
            lex_str(b, i + 1, acc.push(c), line)
        }
    }
}

/// The tokens of a whole source text.
pub open spec fn lex_spec(src: Seq<char>) -> Result<Seq<TokV>, ErrV> {
    lex_at(src, 0, false, 1)
}

/// The char offset recorded with each token `lex_at` emits from index `i`,
/// in the same order: the token's own index for a newline, brace, `;` or
/// `=`, and the index just past a word or a string. Only the tokens before a
/// lexing error have one.
pub open spec fn ends_at(b: Seq<char>, i: int, nl: bool) -> Seq<nat>
    decreases b.len() - i, 0nat,
{
    if i < 0 || i >= b.len() {
        seq![]
    } else {
        let c = b[i];
        if c == ' ' || c == '\t' || c == '\r' {
            ends_at(b, i + 1, nl)
        } else if c == '\n' {
            (if nl { seq![] } else { seq![i as nat] }) + ends_at(b, i + 1, true)
        } else if c == '/' && i + 1 < b.len() && b[i + 1] == '/' {
            ends_comment(b, i + 2, nl)
        } else if c == '{' || c == '}' || c == ';' || c == '=' {
            seq![i as nat] + ends_at(b, i + 1, false)
        } else if c == '"' {
            ends_str(b, i + 1)
        } else if is_word_start(c) {
            ends_word(b, i + 1)
        } else {
            seq![]
        }
    }
}

pub open spec fn ends_comment(b: Seq<char>, i: int, nl: bool) -> Seq<nat>
    decreases b.len() - i, 1nat,
{
    if 0 <= i < b.len() && b[i] != '\n' {
        ends_comment(b, i + 1, nl)
    } else {
        ends_at(b, i, nl)
    }
}

pub open spec fn ends_word(b: Seq<char>, i: int) -> Seq<nat>
    decreases b.len() - i, 1nat,
{
    if 0 <= i < b.len() && is_word_char(b[i]) {
        ends_word(b, i + 1)
    } else {
        seq![i as nat] + ends_at(b, i, false)
    }
}

pub open spec fn ends_str(b: Seq<char>, i: int) -> Seq<nat>
    decreases b.len() - i, 1nat,
{
    if i < 0 || i >= b.len() {
        seq![]
    } else {
        let c = b[i];
        if c == '"' {
            seq![(i + 1) as nat] + ends_at(b, i + 1, false)
        } else if c == '\n' {
            seq![]
        } else if c == '\\' {
            if i + 1 < b.len() && (b[i + 1] == '"' || b[i + 1] == '\\' || b[i + 1] == 'n' || b[i + 1] == 't'
                || b[i + 1] == 'r' || b[i + 1] == 'u') {
                ends_str(b, i + 2)
            } else {
                seq![]
            }
        } else {
            ends_str(b, i + 1)
        }
    }
}

/// The offsets of the tokens of a whole source text.
pub open spec fn lex_ends(src: Seq<char>) -> Seq<nat> {
    ends_at(src, 0, false)
}

pub open spec fn last_is_newline(t: Seq<TokV>) -> bool {
    t.len() > 0 && t.last() is Newline
}

proof fn lemma_prepend_prepend(a: Seq<TokV>, b: Seq<TokV>, r: Result<Seq<TokV>, ErrV>)
    ensures
        prepend(a, prepend(b, r)) == prepend(a + b, r),
{
    match r {
        Ok(s) => {
            assert(a + (b + s) =~= (a + b) + s);
        },
        Err(_) => {},
    }
}

proof fn lemma_prepend_empty(r: Result<Seq<TokV>, ErrV>)
    ensures
        prepend(seq![], r) == r,
{
    match r {
        Ok(s) => {
            assert(seq![] + s =~= s);
        },
        Err(_) => {},
    }
}

fn err(msg: String, line: usize) -> (e: ParseError)
    ensures
        e.msg@ == msg@,
        e.line == line,
{
    ParseError { msg, line }
}

fn is_word_start_exec(c: char) -> (b: bool)
    ensures
        b == is_word_start(c),
{
    ascii_alnum(c) || c == '-' || c == '_' || c == '.' || c == '+' || c == '%' || c == '~' || c == '@'
        || c == ':' || c == '#'
}

fn is_word_char_exec(c: char) -> (b: bool)
    ensures
        b == is_word_char(c),
{
    is_word_start_exec(c) || c == '/'
}

fn push_tok(out: &mut Vec<(Tok, usize)>, t: Tok, end: usize)
    ensures
        toks_view(final(out)@) == toks_view(old(out)@).push(t.view()),
        tok_ends(final(out)@) == tok_ends(old(out)@).push(end as nat),
        final(out)@.len() == old(out)@.len() + 1,
{
    out.push((t, end));
    assert(toks_view(out@) =~= toks_view(old(out)@).push(t.view()));
    assert(tok_ends(out@) =~= tok_ends(old(out)@).push(end as nat));
}

fn last_newline(out: &Vec<(Tok, usize)>) -> (b: bool)
    ensures
        b == last_is_newline(toks_view(out@)),
{
    if out.len() == 0 {
        false
    } else {
        match &out[out.len() - 1].0 {
            Tok::Newline => true,
            _ => false,
        }
    }
}

pub open spec fn lex_matches(r: Result<Vec<(Tok, usize)>, ParseError>, s: Result<Seq<TokV>, ErrV>) -> bool {
    match r {
        Ok(t) => s == Ok::<Seq<TokV>, ErrV>(toks_view(t@)),
        Err(e) => s == Err::<Seq<TokV>, ErrV>(e.view()),
    }
}

/// Splits source text into tokens, each with its char offset: the index
/// just past a word or string, the token's own index otherwise.
pub fn lex(src: &str) -> (r: Result<Vec<(Tok, usize)>, ParseError>)
    ensures
        lex_matches(r, lex_spec(src@)),
        r matches Ok(t) ==> tok_ends(t@) == lex_ends(src@),
{
    let b = chars_of(src);
    let mut out: Vec<(Tok, usize)> = Vec::new();
    let mut i: usize = 0;
    let mut line: usize = 1;
    proof {
        lemma_prepend_empty(lex_spec(src@));
        assert(tok_ends(out@) + lex_ends(src@) =~= lex_ends(src@));
    }
    while i < b.len()
        invariant
            b@ == src@,
            i <= b@.len(),
            lex_spec(src@) == prepend(toks_view(out@), lex_at(b@, i as int, last_is_newline(toks_view(out@)), line as nat)),
            lex_ends(src@) == tok_ends(out@) + ends_at(b@, i as int, last_is_newline(toks_view(out@))),
        decreases b@.len() - i,
    {
        let c = b[i];
        let ghost nl = last_is_newline(toks_view(out@));
        if c == ' ' || c == '\t' || c == '\r' {
            i = i + 1;
        } else if c == '\n' {
            let ghost before = toks_view(out@);
            let ghost ends0 = tok_ends(out@);
            if !last_newline(&out) {
                push_tok(&mut out, Tok::Newline, i);
            }
            proof {
                if nl {
                    assert(ends0 + (seq![] + ends_at(b@, i + 1, true)) =~= tok_ends(out@) + ends_at(b@, i + 1, true));
                } else {
                    assert(ends0 + (seq![i as nat] + ends_at(b@, i + 1, true)) =~= tok_ends(out@) + ends_at(b@, i + 1, true));
                }
                lemma_prepend_prepend(before, if nl { seq![] } else { seq![TokV::Newline] },
                    lex_at(b@, i + 1, true, next_line(line as nat)));
                if nl {
                    assert(before + seq![] =~= before);
                } else {
                    assert(toks_view(out@) =~= before + seq![TokV::Newline]);
                }
                assert(last_is_newline(toks_view(out@)));
            }
            line = if line < usize::MAX { line + 1 } else { line };
            i = i + 1;
        } else if c == '/' && i + 1 < b.len() && b[i + 1] == '/' {
            i = i + 2;
            let ghost i_start = i;
            while i < b.len() && b[i] != '\n'
                invariant
                    b@ == src@,
                    i_start <= i <= b@.len(),
                    nl == last_is_newline(toks_view(out@)),
                    lex_spec(src@) == prepend(toks_view(out@), lex_comment(b@, i as int, nl, line as nat)),
                    lex_ends(src@) == tok_ends(out@) + ends_comment(b@, i as int, nl),
                decreases b@.len() - i,
            {
                i = i + 1;
            }
        } else if c == '{' || c == '}' || c == ';' || c == '=' {
            let ghost before = toks_view(out@);
            let t = if c == '{' { Tok::LBrace } else if c == '}' { Tok::RBrace } else if c == ';' { Tok::Semi } else { Tok::Equals };
            let ghost tv = t.view();
            let ghost ends0 = tok_ends(out@);
            push_tok(&mut out, t, i);
            proof {
                assert(ends0 + (seq![i as nat] + ends_at(b@, i + 1, false)) =~= tok_ends(out@) + ends_at(b@, i + 1, false));
                lemma_prepend_prepend(before, seq![tv], lex_at(b@, i + 1, false, line as nat));
                assert(toks_view(out@) =~= before + seq![tv]);
            }
            i = i + 1;
        } else if c == '"' {
            let ghost before = toks_view(out@);
            let ghost ends0 = tok_ends(out@);
            i = i + 1;
            let ghost i_start = i;
            let mut s: Vec<char> = Vec::new();
            loop
                invariant_except_break
                    before == toks_view(out@),
                    ends0 == tok_ends(out@),
                    lex_spec(src@) == prepend(before, lex_str(b@, i as int, s@, line as nat)),
                    lex_ends(src@) == ends0 + ends_str(b@, i as int),
                invariant
                    b@ == src@,
                    i_start <= i <= b@.len(),
                ensures
                    lex_spec(src@) == prepend(toks_view(out@), lex_at(b@, i as int, false, line as nat)),
                    lex_ends(src@) == tok_ends(out@) + ends_at(b@, i as int, false),
                    !last_is_newline(toks_view(out@)),
                decreases b@.len() - i,
            {
                if i >= b.len() {
                    return Err(err(owned("unterminated string"), line));
                }
                let c = b[i];
                if c == '"' {
                    let st = string_from_range(s.as_slice(), 0, s.len());
                    assert(s@.subrange(0, s@.len() as int) == s@);
                    push_tok(&mut out, Tok::Str(st), i + 1);
                    proof {
                        assert(ends0 + (seq![(i + 1) as nat] + ends_at(b@, i + 1, false)) =~= tok_ends(out@) + ends_at(
                            b@,
                            i + 1,
                            false,
                        ));
                        lemma_prepend_prepend(before, seq![TokV::Str(s@)], lex_at(b@, i + 1, false, line as nat));
                        assert(toks_view(out@) =~= before + seq![TokV::Str(s@)]);
                    }
                    i = i + 1;
                    break;
                }
                if c == '\n' {
                    return Err(err(owned("unterminated string"), line));
                }
                if c == '\\' {
                    if i + 1 >= b.len() {
                        return Err(err(owned("unterminated escape in string"), line));
                    }
                    let e = b[i + 1];
                    if e == '"' {
                        s.push('"');
                    } else if e == '\\' {
                        s.push('\\');
                    } else if e == 'n' {
                        s.push('\n');
                    } else if e == 't' {
                        s.push('\t');
                    } else if e == 'r' {
                        s.push('\r');
                    } else if e == 'u' {
                        let ghost s0 = s@;
                        s.push('\\');
                        s.push('u');
                        assert(s@ =~= s0 + seq!['\\', 'u']);
                    } else {
                        let mut m = owned("unknown escape \\");
                        push_char(&mut m, e);
                        push_str(&mut m, " in string");
                        assert(m@ =~= "unknown escape \\"@ + seq![e] + " in string"@);
                        return Err(err(m, line));
                    }
                    i = i + 2;
                } else {
                    s.push(c);
                    i = i + 1;
                }
            }
        } else if is_word_start_exec(c) {
            let ghost before = toks_view(out@);
            let ghost ends0 = tok_ends(out@);
            let mut w: Vec<char> = Vec::new();
            w.push(c);
            i = i + 1;
            let ghost i_start = i;
            while i < b.len() && is_word_char_exec(b[i])
                invariant
                    b@ == src@,
                    i_start <= i <= b@.len(),
                    before == toks_view(out@),
                    ends0 == tok_ends(out@),
                    lex_spec(src@) == prepend(before, lex_word(b@, i as int, w@, line as nat)),
                    lex_ends(src@) == ends0 + ends_word(b@, i as int),
                decreases b@.len() - i,
            {
                w.push(b[i]);
                i = i + 1;
            }
            let ws = string_from_range(w.as_slice(), 0, w.len());
            assert(w@.subrange(0, w@.len() as int) == w@);
            push_tok(&mut out, Tok::Word(ws), i);
            proof {
                assert(ends0 + (seq![i as nat] + ends_at(b@, i as int, false)) =~= tok_ends(out@) + ends_at(
                    b@,
                    i as int,
                    false,
                ));
                lemma_prepend_prepend(before, seq![TokV::Word(w@)], lex_at(b@, i as int, false, line as nat));
                assert(toks_view(out@) =~= before + seq![TokV::Word(w@)]);
            }
        } else {
            let mut m = owned("unexpected character `");
            push_char(&mut m, c);
            push_str(&mut m, "`");
            assert(m@ =~= "unexpected character `"@ + seq![c] + "`"@);
            return Err(err(m, line));
        }
    }
    proof {
        lemma_prepend_empty(lex_spec(src@));
        assert(toks_view(out@) + seq![] =~= toks_view(out@));
        assert(tok_ends(out@) + seq![] =~= tok_ends(out@));
    }
    Ok(out)
}


/// What `{:?}` prints for a string: std's `Debug` for `str` (quoted, with
/// escapes). The escaping rules are std's own and are not restated here.
pub uninterp spec fn str_debug(s: Seq<char>) -> Seq<char>;

/// std's `Debug` formatting of a string (`format!("{:?}", s)`); the result is
/// taken to be `str_debug` of the characters, nothing more is claimed.
#[verifier::external_body]
pub(crate) fn debug_text(s: &str) -> (r: String)
    ensures
        r@ == str_debug(s@),
{
    format!("{:?}", s)
}

/// How a token prints with `{:?}`.
pub open spec fn tok_debug(t: TokV) -> Seq<char> {
    match t {
        TokV::Word(w) => "Word("@ + str_debug(w) + ")"@,
        TokV::Str(s) => "Str("@ + str_debug(s) + ")"@,
        TokV::LBrace => "LBrace"@,
        TokV::RBrace => "RBrace"@,
        TokV::Semi => "Semi"@,
        TokV::Equals => "Equals"@,
        TokV::Newline => "Newline"@,
    }
}

fn tok_debug_exec(t: &Tok) -> (r: String)
    ensures
        r@ == tok_debug(t.view()),
{
    match t {
        Tok::Word(w) => {
            let mut r = owned("Word(");
            let d = debug_text(w.as_str());
            push_str(&mut r, d.as_str());
            push_str(&mut r, ")");
            r
        },
        Tok::Str(w) => {
            let mut r = owned("Str(");
            let d = debug_text(w.as_str());
            push_str(&mut r, d.as_str());
            push_str(&mut r, ")");
            r
        },
        Tok::LBrace => owned("LBrace"),
        Tok::RBrace => owned("RBrace"),
        Tok::Semi => owned("Semi"),
        Tok::Equals => owned("Equals"),
        Tok::Newline => owned("Newline"),
    }
}

pub open spec fn count_newlines(t: Seq<TokV>) -> nat
    decreases t.len(),
{
    if t.len() == 0 {
        0
    } else {
        count_newlines(t.drop_last()) + if t.last() is Newline { 1nat } else { 0nat }
    }
}

/// The line reported for an error at token `p`: one more than the newline
/// tokens before it, saturating at `usize::MAX`.
pub open spec fn tok_line(t: Seq<TokV>, p: int) -> nat {
    let c = 1 + count_newlines(t.take(p));
    if c <= usize::MAX {
        c
    } else {
        usize::MAX as nat
    }
}

pub open spec fn eof_error() -> ErrV {
    ErrV { msg: "unexpected end of file, missing `}`"@, line: 9999 }
}

/// Sibling nodes from token `pos` until the end (top level) or a `}` (inside
/// a block, consumed); `acc` holds the nodes read so far. On success, the
/// nodes and the position after them.
pub open spec fn pn_loop(t: Seq<TokV>, pos: int, in_block: bool, acc: Seq<NodeV>) -> Result<(Seq<NodeV>, int), ErrV>
    decreases t.len() - pos, 2nat,
{
    if pos < 0 || pos >= t.len() {
        if in_block {
            Err(eof_error())
        } else {
            Ok((acc, pos))
        }
    } else {
        match t[pos] {
            TokV::Newline => pn_loop(t, pos + 1, in_block, acc),
            TokV::Semi => pn_loop(t, pos + 1, in_block, acc),
            TokV::RBrace => {
                if in_block {
                    Ok((acc, pos + 1))
                } else {
                    Err(ErrV { msg: "unexpected `}`"@, line: tok_line(t, pos) })
                }
            },
            TokV::Word(_) => {
                match pnode(t, pos) {
                    Ok((n, q)) => {
                        if pos < q <= t.len() {
                            pn_loop(t, q, in_block, acc.push(n))
                        } else {
                            Err(eof_error())
                        }
                    },
                    Err(e) => Err(e),
                }
            },
            other => Err(ErrV { msg: "expected a node name, found "@ + tok_debug(other), line: tok_line(t, pos) }),
        }
    }
}

pub open spec fn empty_node(name: Seq<char>) -> NodeV {
    NodeV { name, props: seq![], args: seq![], children: seq![] }
}

/// One node starting at token `p`.
pub open spec fn pnode(t: Seq<TokV>, p: int) -> Result<(NodeV, int), ErrV>
    decreases t.len() - p, 1nat,
{
    if 0 <= p < t.len() && t[p] is Word {
        pnode_loop(t, p + 1, empty_node(t[p]->Word_0), tok_line(t, p))
    } else {
        Err(ErrV { msg: "expected a node name"@, line: tok_line(t, p) })
    }
}

pub open spec fn end_of_node_error(node: NodeV, line: nat) -> ErrV {
    ErrV { msg: "unexpected end of node `"@ + node.name + "`"@, line }
}

/// The rest of a node's header from token `p`: properties, arguments, then a
/// block, `;` or newline.
pub open spec fn pnode_loop(t: Seq<TokV>, p: int, node: NodeV, line: nat) -> Result<(NodeV, int), ErrV>
    decreases t.len() - p, 0nat,
{
    if p < 0 || p >= t.len() {
        Err(end_of_node_error(node, line))
    } else {
        match t[p] {
            TokV::Word(w) => {
                if p + 1 < t.len() && t[p + 1] is Equals {
                    if p + 2 < t.len() && t[p + 2] is Word {
                        pnode_loop(t, p + 3, NodeV { props: node.props.push((w, ArgV::Word(t[p + 2]->Word_0))), ..node }, line)
                    } else if p + 2 < t.len() && t[p + 2] is Str {
                        pnode_loop(t, p + 3, NodeV { props: node.props.push((w, ArgV::Str(t[p + 2]->Str_0))), ..node }, line)
                    } else {
                        Err(ErrV { msg: "property `"@ + w + "` has no value"@, line })
                    }
                } else {
                    pnode_loop(t, p + 1, NodeV { args: node.args.push(ArgV::Word(w)), ..node }, line)
                }
            },
            TokV::Str(s) => pnode_loop(t, p + 1, NodeV { args: node.args.push(ArgV::Str(s)), ..node }, line),
            TokV::LBrace => {
                match pn_loop(t, p + 1, true, seq![]) {
                    Ok((kids, q)) => Ok((NodeV { children: kids, ..node }, q)),
                    Err(e) => Err(e),
                }
            },
            TokV::Semi => Ok((node, p + 1)),
            TokV::Newline => pnode_nl(t, p + 1, node, line, p),
            _ => Err(end_of_node_error(node, line)),
        }
    }
}

/// After a newline that ends a node header at token `start`: a bare node
/// followed (across newlines) by `{` takes the block as its children.
pub open spec fn pnode_nl(t: Seq<TokV>, q: int, node: NodeV, line: nat, start: int) -> Result<(NodeV, int), ErrV>
    decreases t.len() - q, 0nat,
{
    if 0 <= q < t.len() && t[q] is Newline {
        pnode_nl(t, q + 1, node, line, start)
    } else if 0 <= q < t.len() && t[q] is LBrace && node.args.len() == 0 && node.props.len() == 0 {
        match pn_loop(t, q + 1, true, seq![]) {
            Ok((kids, r)) => Ok((NodeV { children: kids, ..node }, r)),
            Err(e) => Err(e),
        }
    } else {
        Ok((node, start + 1))
    }
}

/// The top-level nodes of a source text.
pub open spec fn parse_document_spec(src: Seq<char>) -> Result<Seq<NodeV>, ErrV> {
    match lex_spec(src) {
        Err(e) => Err(e),
        Ok(t) => match pn_loop(t, 0, false, seq![]) {
            Ok((nodes, _)) => Ok(nodes),
            Err(e) => Err(e),
        },
    }
}

fn line_at(toks: &Vec<(Tok, usize)>, pos: usize) -> (r: usize)
    requires
        pos <= toks@.len(),
    ensures
        r as nat == tok_line(toks_view(toks@), pos as int),
{
    let ghost t = toks_view(toks@);
    let mut c: usize = 1;
    let mut i: usize = 0;
    while i < pos
        invariant
            i <= pos <= toks@.len(),
            t == toks_view(toks@),
            c as nat == (if 1 + count_newlines(t.take(i as int)) <= usize::MAX { 1 + count_newlines(t.take(i as int)) } else { usize::MAX as nat }),
        decreases pos - i,
    {
        assert(t.take(i + 1).drop_last() == t.take(i as int));
        if let Tok::Newline = &toks[i].0 {
            if c < usize::MAX {
                c = c + 1;
            }
        }
        i = i + 1;
    }
    c
}

pub open spec fn nodes_matches(r: Result<(Vec<Node>, usize), ParseError>, s: Result<(Seq<NodeV>, int), ErrV>) -> bool {
    match r {
        Ok((v, q)) => s == Ok::<(Seq<NodeV>, int), ErrV>((nodes_view(v@), q as int)),
        Err(e) => s == Err::<(Seq<NodeV>, int), ErrV>(e.view()),
    }
}

pub open spec fn node_matches(r: Result<(Node, usize), ParseError>, s: Result<(NodeV, int), ErrV>) -> bool {
    match r {
        Ok((n, q)) => s == Ok::<(NodeV, int), ErrV>((n.view(), q as int)),
        Err(e) => s == Err::<(NodeV, int), ErrV>(e.view()),
    }
}

/// Parse sibling nodes until EOF (top) or `}` (inside a block, consumed).
fn parse_nodes(toks: &Vec<(Tok, usize)>, pos: usize, in_block: bool) -> (r: Result<(Vec<Node>, usize), ParseError>)
    requires
        pos <= toks@.len(),
    ensures
        nodes_matches(r, pn_loop(toks_view(toks@), pos as int, in_block, seq![])),
        r matches Ok((_, q)) ==> pos <= q <= toks@.len(),
    decreases toks@.len() - pos, 2nat,
{
    let ghost t = toks_view(toks@);
    let mut nodes: Vec<Node> = Vec::new();
    let mut p: usize = pos;
    assert(nodes_view(nodes@) =~= seq![]);
    loop
        invariant
            pos <= p <= toks@.len(),
            t == toks_view(toks@),
            pn_loop(t, pos as int, in_block, seq![]) == pn_loop(t, p as int, in_block, nodes_view(nodes@)),
        decreases toks@.len() - p,
    {
        if p >= toks.len() {
            if in_block {
                return Err(err(owned("unexpected end of file, missing `}`"), 9999));
            }
            return Ok((nodes, p));
        }
        match &toks[p].0 {
            Tok::Newline => {
                p = p + 1;
            },
            Tok::Semi => {
                p = p + 1;
            },
            Tok::RBrace => {
                if in_block {
                    return Ok((nodes, p + 1));
                }
                let line = line_at(toks, p);
                return Err(err(owned("unexpected `}`"), line));
            },
            Tok::Word(_) => {
                match parse_node(toks, p) {
                    Ok((n, q)) => {
                        let ghost nv = n.view();
                        let ghost before = nodes_view(nodes@);
                        nodes.push(n);
                        assert(nodes_view(nodes@) =~= before.push(nv));
                        p = q;
                    },
                    Err(e) => {
                        return Err(e);
                    },
                }
            },
            other => {
                let line = line_at(toks, p);
                let mut m = owned("expected a node name, found ");
                let d = tok_debug_exec(other);
                push_str(&mut m, d.as_str());
                return Err(err(m, line));
            },
        }
    }
}

pub(crate) fn node_with_props(node: &mut Node, k: String, v: Arg)
    ensures
        final(node).view() == (NodeV { props: old(node).view().props.push((k@, v.view())), ..old(node).view() }),
{
    let ghost old_v = node.view();
    node.props.push((k, v));
    assert(node.view().props =~= old_v.props.push((k@, v.view())));
    assert(node.view().args =~= old_v.args);
    assert(node.view().children =~= old_v.children);
}

pub(crate) fn node_with_arg(node: &mut Node, v: Arg)
    ensures
        final(node).view() == (NodeV { args: old(node).view().args.push(v.view()), ..old(node).view() }),
{
    let ghost old_v = node.view();
    node.args.push(v);
    assert(node.view().args =~= old_v.args.push(v.view()));
    assert(node.view().props =~= old_v.props);
    assert(node.view().children =~= old_v.children);
}

pub(crate) fn node_with_children(node: Node, kids: Vec<Node>) -> (r: Node)
    ensures
        r.view() == (NodeV { children: nodes_view(kids@), ..node.view() }),
{
    let ghost old_v = node.view();
    let mut n = node;
    n.children = kids;
    assert(n.view().children =~= nodes_view(kids@));
    assert(n.view().args =~= old_v.args);
    assert(n.view().props =~= old_v.props);
    n
}

fn is_newline_tok(t: &Tok) -> (b: bool)
    ensures
        b == (t.view() is Newline),
{
    match t {
        Tok::Newline => true,
        _ => false,
    }
}

fn parse_node(toks: &Vec<(Tok, usize)>, pos: usize) -> (r: Result<(Node, usize), ParseError>)
    requires
        pos <= toks@.len(),
    ensures
        node_matches(r, pnode(toks_view(toks@), pos as int)),
        r matches Ok((_, q)) ==> pos < q <= toks@.len(),
    decreases toks@.len() - pos, 1nat,
{
    let ghost t = toks_view(toks@);
    let line = line_at(toks, pos);
    if pos >= toks.len() {
        return Err(err(owned("expected a node name"), line));
    }
    let name = match &toks[pos].0 {
        Tok::Word(w) => w.clone(),
        _ => {
            return Err(err(owned("expected a node name"), line));
        },
    };
    let mut node = Node::new(name.as_str());
    let mut p: usize = pos + 1;
    loop
        invariant
            pos < p <= toks@.len(),
            t == toks_view(toks@),
            node.view().name == name@,
            node.view().children == Seq::<NodeV>::empty(),
            pnode(t, pos as int) == pnode_loop(t, p as int, node.view(), line as nat),
        decreases toks@.len() - p,
    {
        if p >= toks.len() {
            let mut m = owned("unexpected end of node `");
            push_str(&mut m, name.as_str());
            push_str(&mut m, "`");
            return Err(err(m, line));
        }
        match &toks[p].0 {
            Tok::Word(w) => {
                let is_prop = p + 1 < toks.len() && match &toks[p + 1].0 {
                    Tok::Equals => true,
                    _ => false,
                };
                if is_prop {
                    if p + 2 < toks.len() {
                        match &toks[p + 2].0 {
                            Tok::Word(v) => {
                                node_with_props(&mut node, w.clone(), Arg::Word(v.clone()));
                                p = p + 3;
                                continue;
                            },
                            Tok::Str(v) => {
                                node_with_props(&mut node, w.clone(), Arg::Str(v.clone()));
                                p = p + 3;
                                continue;
                            },
                            _ => {},
                        }
                    }
                    let mut m = owned("property `");
                    push_str(&mut m, w.as_str());
                    push_str(&mut m, "` has no value");
                    return Err(err(m, line));
                } else {
                    node_with_arg(&mut node, Arg::Word(w.clone()));
                    p = p + 1;
                }
            },
            Tok::Str(s) => {
                node_with_arg(&mut node, Arg::Str(s.clone()));
                p = p + 1;
            },
            Tok::LBrace => {
                match parse_nodes(toks, p + 1, true) {
                    Ok((kids, q)) => {
                        let n = node_with_children(node, kids);
                        return Ok((n, q));
                    },
                    Err(e) => {
                        return Err(e);
                    },
                }
            },
            Tok::Semi => {
                return Ok((node, p + 1));
            },
            Tok::Newline => {
                let mut peek: usize = p + 1;
                while peek < toks.len() && is_newline_tok(&toks[peek].0)
                    invariant
                        p < peek <= toks@.len(),
                        t == toks_view(toks@),
                        pnode(t, pos as int) == pnode_nl(t, peek as int, node.view(), line as nat, p as int),
                    decreases toks@.len() - peek,
                {
                    peek = peek + 1;
                }
                let opens = peek < toks.len() && match &toks[peek].0 {
                    Tok::LBrace => true,
                    _ => false,
                };
                if opens && node.args.len() == 0 && node.props.len() == 0 {
                    match parse_nodes(toks, peek + 1, true) {
                        Ok((kids, q)) => {
                            let n = node_with_children(node, kids);
                            return Ok((n, q));
                        },
                        Err(e) => {
                            return Err(e);
                        },
                    }
                }
                return Ok((node, p + 1));
            },
            _ => {
                let mut m = owned("unexpected end of node `");
                push_str(&mut m, name.as_str());
                push_str(&mut m, "`");
                return Err(err(m, line));
            },
        }
    }
}

pub open spec fn document_matches(r: Result<Vec<Node>, ParseError>, s: Result<Seq<NodeV>, ErrV>) -> bool {
    match r {
        Ok(v) => s == Ok::<Seq<NodeV>, ErrV>(nodes_view(v@)),
        Err(e) => s == Err::<Seq<NodeV>, ErrV>(e.view()),
    }
}

/// Parse a document into its top-level nodes.
pub fn parse_document(src: &str) -> (r: Result<Vec<Node>, ParseError>)
    ensures
        document_matches(r, parse_document_spec(src@)),
{
    let toks = match lex(src) {
        Ok(t) => t,
        Err(e) => {
            return Err(e);
        },
    };
    match parse_nodes(&toks, 0, false) {
        Ok((nodes, _)) => Ok(nodes),
        Err(e) => Err(e),
    }
}


/// Characters of a node name as the span scanner reads it.
pub open spec fn is_ident_char(c: char) -> bool {
    is_ascii_alnum(c) || c == '_' || c == '-'
}

/// First index at or after `j` that is not an identifier character.
pub open spec fn ident_end(b: Seq<char>, j: int) -> int
    decreases b.len() - j,
{
    if 0 <= j < b.len() && is_ident_char(b[j]) {
        ident_end(b, j + 1)
    } else {
        j
    }
}

/// First index at or after `k` that is not a space or tab.
pub open spec fn blanks_end(b: Seq<char>, k: int) -> int
    decreases b.len() - k,
{
    if 0 <= k < b.len() && (b[k] == ' ' || b[k] == '\t') {
        blanks_end(b, k + 1)
    } else {
        k
    }
}

/// Where a node whose block closes at `m` ends: just after the `}` and an
/// optional `;`.
pub open spec fn close_end(b: Seq<char>, m: int) -> int {
    let e = m + 1;
    if e < b.len() && b[e] == ';' { e + 1 } else { e }
}

/// Scanning a block for its matching `}` from index `m` at block depth `d`
/// (comments and strings skipped). The end of the node, if the block closes.
pub open spec fn match_at(b: Seq<char>, m: int, d: int) -> Option<int>
    decreases b.len() + 2 - m, 0nat,
{
    if m < 0 || m >= b.len() {
        None
    } else {
        let c = b[m];
        if c == '/' && m + 1 < b.len() && b[m + 1] == '/' {
            match_comment(b, m + 2, d)
        } else if c == '"' {
            match_str(b, m + 1, d)
        } else if c == '{' {
            match_at(b, m + 1, d + 1)
        } else if c == '}' {
            if d - 1 == 0 {
                Some(close_end(b, m))
            } else {
                match_at(b, m + 1, d - 1)
            }
        } else {
            match_at(b, m + 1, d)
        }
    }
}

pub open spec fn match_comment(b: Seq<char>, m: int, d: int) -> Option<int>
    decreases b.len() + 2 - m, 1nat,
{
    if 0 <= m < b.len() && b[m] != '\n' {
        match_comment(b, m + 1, d)
    } else if m <= b.len() + 1 {
        match_at(b, m + 1, d)
    } else {
        None
    }
}

pub open spec fn match_str(b: Seq<char>, m: int, d: int) -> Option<int>
    decreases b.len() + 2 - m, 1nat,
{
    if 0 <= m < b.len() && b[m] != '"' {
        if b[m] == '\\' {
            match_str(b, m + 2, d)
        } else {
            match_str(b, m + 1, d)
        }
    } else if m <= b.len() + 1 {
        match_at(b, m + 1, d)
    } else {
        None
    }
}

/// The top-level scan for a node header `name {` from index `i` at brace
/// depth `depth`: the char range of the first such node.
pub open spec fn span_at(b: Seq<char>, name: Seq<char>, i: int, depth: int) -> Option<(int, int)>
    decreases b.len() + 2 - i, 0nat,
{
    if i < 0 || i >= b.len() {
        None
    } else {
        let c = b[i];
        if c == '/' && i + 1 < b.len() && b[i + 1] == '/' {
            span_comment(b, name, i + 2, depth)
        } else if c == '"' {
            span_str(b, name, i + 1, depth)
        } else if c == '{' {
            span_at(b, name, i + 1, depth + 1)
        } else if c == '}' {
            span_at(b, name, i + 1, depth - 1)
        } else if depth == 0 && (is_ascii_alpha(c) || c == '_') {
            let j = ident_end(b, i + 1);
            let k = blanks_end(b, j);
            if b.subrange(i, j) == name && k < b.len() && b[k] == '{' {
                match match_at(b, k, 0) {
                    Some(e) => Some((i, e)),
                    None => if i < j <= b.len() { span_at(b, name, j, depth) } else { None },
                }
            } else if i < j <= b.len() {
                span_at(b, name, j, depth)
            } else {
                None
            }
        } else {
            span_at(b, name, i + 1, depth)
        }
    }
}

pub open spec fn span_comment(b: Seq<char>, name: Seq<char>, i: int, depth: int) -> Option<(int, int)>
    decreases b.len() + 2 - i, 1nat,
{
    if 0 <= i < b.len() && b[i] != '\n' {
        span_comment(b, name, i + 1, depth)
    } else if i <= b.len() + 2 {
        span_at(b, name, i, depth)
    } else {
        None
    }
}

pub open spec fn span_str(b: Seq<char>, name: Seq<char>, i: int, depth: int) -> Option<(int, int)>
    decreases b.len() + 2 - i, 1nat,
{
    if 0 <= i < b.len() && b[i] != '"' {
        if b[i] == '\\' {
            span_str(b, name, i + 2, depth)
        } else {
            span_str(b, name, i + 1, depth)
        }
    } else if i <= b.len() + 1 {
        span_at(b, name, i + 1, depth)
    } else {
        None
    }
}

/// The UTF-8 width of one character.
pub open spec fn utf8_width(c: char) -> nat {
    vstd::utf8::encode_scalar(c as u32).len()
}

/// Byte offset of character index `k` in text `s` (the text's byte length
/// when `k` is past the end).
pub open spec fn byte_offset(s: Seq<char>, k: int) -> nat {
    if k <= s.len() {
        vstd::utf8::encode_utf8(s.take(k)).len()
    } else {
        vstd::utf8::encode_utf8(s).len()
    }
}

proof fn lemma_encode_utf8_concat(a: Seq<char>, b: Seq<char>)
    ensures
        vstd::utf8::encode_utf8(a + b) == vstd::utf8::encode_utf8(a) + vstd::utf8::encode_utf8(b),
    decreases a.len(),
{
    if a.len() == 0 {
        assert(a + b =~= b);
        assert(vstd::utf8::encode_utf8(a) =~= seq![]);
        assert(seq![] + vstd::utf8::encode_utf8(b) =~= vstd::utf8::encode_utf8(b));
    } else {
        assert((a + b).drop_first() =~= a.drop_first() + b);
        lemma_encode_utf8_concat(a.drop_first(), b);
        assert((a + b)[0] == a[0]);
        let e0 = vstd::utf8::encode_scalar(a[0] as u32);
        assert(e0 + (vstd::utf8::encode_utf8(a.drop_first()) + vstd::utf8::encode_utf8(b))
            =~= (e0 + vstd::utf8::encode_utf8(a.drop_first())) + vstd::utf8::encode_utf8(b));
    }
}

proof fn lemma_encode_single(c: char)
    ensures
        vstd::utf8::encode_utf8(seq![c]) == vstd::utf8::encode_scalar(c as u32),
{
    let s = seq![c];
    assert(s.drop_first() =~= Seq::<char>::empty());
    assert(vstd::utf8::encode_utf8(s.drop_first()) =~= seq![]);
    assert(vstd::utf8::encode_scalar(c as u32) + seq![] =~= vstd::utf8::encode_scalar(c as u32));
}

fn utf8_width_exec(c: char) -> (w: usize)
    ensures
        w as nat == utf8_width(c),
        1 <= w <= 4,
{
    proof {
        vstd::utf8::char_is_scalar(c);
    }
    let u = c as u32;
    if u <= 0x7f {
        1
    } else if u <= 0x7ff {
        2
    } else if u <= 0xffff {
        3
    } else {
        4
    }
}

/// Byte offset of character index `k` (`src.len()` when past the end).
fn char_to_byte(src: &str, b: &Vec<char>, k: usize) -> (r: usize)
    requires
        b@ == src@,
        vstd::utf8::encode_utf8(src@).len() <= usize::MAX,
    ensures
        r as nat == byte_offset(src@, k as int),
{
    let n = if k < b.len() { k } else { b.len() };
    let mut total: usize = 0;
    let mut i: usize = 0;
    proof {
        assert(b@.take(0) =~= Seq::<char>::empty());
        assert(vstd::utf8::encode_utf8(b@.take(0)) =~= seq![]);
    }
    while i < n
        invariant
            b@ == src@,
            i <= n <= b@.len(),
            total as nat == vstd::utf8::encode_utf8(b@.take(i as int)).len(),
            vstd::utf8::encode_utf8(src@).len() <= usize::MAX,
        decreases n - i,
    {
        let w = utf8_width_exec(b[i]);
        proof {
            assert(b@.take(i + 1) =~= b@.take(i as int) + seq![b@[i as int]]);
            lemma_encode_utf8_concat(b@.take(i as int), seq![b@[i as int]]);
            lemma_encode_single(b@[i as int]);
            assert(b@ =~= b@.take(i + 1) + b@.skip(i + 1));
            lemma_encode_utf8_concat(b@.take(i + 1), b@.skip(i + 1));
        }
        total = total + w;
        i = i + 1;
    }
    proof {
        if k > b.len() {
            assert(b@.take(b@.len() as int) =~= b@);
        }
    }
    total
}

fn ident_char_exec(c: char) -> (r: bool)
    ensures
        r == is_ident_char(c),
{
    ascii_alnum(c) || c == '_' || c == '-'
}

/// Matching a block opened at `k` for its closing brace.
fn match_block(b: &Vec<char>, k: usize) -> (r: Option<usize>)
    requires
        k < b@.len(),
        b@[k as int] == '{',
    ensures
        match r {
            Some(e) => match_at(b@, k as int, 0) == Some(e as int) && e <= b@.len(),
            None => match_at(b@, k as int, 0) is None,
        },
{
    let mut d: usize = 0;
    let mut m: usize = k;
    while m < b.len()
        invariant
            k <= m <= b@.len(),
            k < b@.len(),
            b@[k as int] == '{',
            d <= m,
            m > k ==> d >= 1,
            match_at(b@, k as int, 0) == match_at(b@, m as int, d as int),
        decreases b@.len() - m,
    {
        let c = b[m];
        let ghost m0 = m;
        if c == '/' && m + 1 < b.len() && b[m + 1] == '/' {
            m = m + 2;
            while m < b.len() && b[m] != '\n'
                invariant
                    k < m <= b@.len(),
                    m0 < m,
                    d <= m,
                    d >= 1,
                    match_at(b@, k as int, 0) == match_comment(b@, m as int, d as int),
                decreases b@.len() - m,
            {
                m = m + 1;
            }
            if m >= b.len() {
                assert(match_at(b@, m + 1, d as int) is None);
                return None;
            }
        } else if c == '"' {
            m = m + 1;
            while m < b.len() && b[m] != '"'
                invariant
                    k < m <= b@.len(),
                    m0 < m,
                    d <= m,
                    d >= 1,
                    match_at(b@, k as int, 0) == match_str(b@, m as int, d as int),
                decreases b@.len() - m,
            {
                if b[m] == '\\' {
                    if m + 1 >= b.len() {
                        assert(match_str(b@, m as int, d as int) == match_str(b@, m + 2, d as int));
                        assert(match_str(b@, m + 2, d as int) == match_at(b@, m + 3, d as int));
                        assert(match_at(b@, m + 3, d as int) is None);
                        return None;
                    }
                    m = m + 1;
                }
                m = m + 1;
            }
            if m >= b.len() {
                assert(match_at(b@, m + 1, d as int) is None);
                return None;
            }
        } else if c == '{' {
            d = d + 1;
        } else if c == '}' {
            if d == 1 {
                let mut end = m + 1;
                if end < b.len() && b[end] == ';' {
                    end = end + 1;
                }
                return Some(end);
            }
            d = d - 1;
        }
        m = m + 1;
    }
    None
}


fn subrange_eq(b: &Vec<char>, start: usize, end: usize, nm: &Vec<char>) -> (r: bool)
    requires
        start <= end <= b@.len(),
    ensures
        r == (b@.subrange(start as int, end as int) == nm@),
{
    if end - start != nm.len() {
        return false;
    }
    let mut x: usize = 0;
    while x < nm.len()
        invariant
            start <= end <= b@.len(),
            end - start == nm@.len(),
            x <= nm@.len(),
            forall|y: int| 0 <= y < x ==> b@[start + y] == nm@[y],
        decreases nm@.len() - x,
    {
        if b[start + x] != nm[x] {
            assert(b@.subrange(start as int, end as int)[x as int] != nm@[x as int]);
            return false;
        }
        x = x + 1;
    }
    assert(b@.subrange(start as int, end as int) =~= nm@);
    true
}

/// The text ends at `e` with a block's closing `}`, or with `};`.
pub open spec fn closes_at(b: Seq<char>, e: int) -> bool {
    1 <= e <= b.len() && (b[e - 1] == '}' || (2 <= e && b[e - 1] == ';' && b[e - 2] == '}'))
}

proof fn lemma_ident_end(b: Seq<char>, j: int)
    requires
        0 <= j <= b.len(),
    ensures
        j <= ident_end(b, j) <= b.len(),
    decreases b.len() - j,
{
    if j < b.len() && is_ident_char(b[j]) {
        lemma_ident_end(b, j + 1);
    }
}

proof fn lemma_blanks_end(b: Seq<char>, k: int)
    ensures
        k <= blanks_end(b, k),
        k <= b.len() ==> blanks_end(b, k) <= b.len(),
    decreases b.len() - k,
{
    if 0 <= k < b.len() && (b[k] == ' ' || b[k] == '\t') {
        lemma_blanks_end(b, k + 1);
    }
}

proof fn lemma_match_at(b: Seq<char>, m: int, d: int)
    ensures
        match_at(b, m, d) matches Some(e) ==> 0 <= m < e && closes_at(b, e),
    decreases b.len() + 2 - m, 0nat,
{
    if 0 <= m < b.len() {
        let c = b[m];
        if c == '/' && m + 1 < b.len() && b[m + 1] == '/' {
            lemma_match_comment(b, m + 2, d);
        } else if c == '"' {
            lemma_match_str(b, m + 1, d);
        } else if c == '{' {
            lemma_match_at(b, m + 1, d + 1);
        } else if c == '}' {
            if d - 1 != 0 {
                lemma_match_at(b, m + 1, d - 1);
            }
        } else {
            lemma_match_at(b, m + 1, d);
        }
    }
}

proof fn lemma_match_comment(b: Seq<char>, m: int, d: int)
    ensures
        match_comment(b, m, d) matches Some(e) ==> m < e && closes_at(b, e),
    decreases b.len() + 2 - m, 1nat,
{
    if 0 <= m < b.len() && b[m] != '\n' {
        lemma_match_comment(b, m + 1, d);
    } else if m <= b.len() + 1 {
        lemma_match_at(b, m + 1, d);
    }
}

proof fn lemma_match_str(b: Seq<char>, m: int, d: int)
    ensures
        match_str(b, m, d) matches Some(e) ==> m < e && closes_at(b, e),
    decreases b.len() + 2 - m, 1nat,
{
    if 0 <= m < b.len() && b[m] != '"' {
        if b[m] == '\\' {
            lemma_match_str(b, m + 2, d);
        } else {
            lemma_match_str(b, m + 1, d);
        }
    } else if m <= b.len() + 1 {
        lemma_match_at(b, m + 1, d);
    }
}

/// The range `(s, e)` is a node named `name` with a block: it starts with
/// the name, whole (no identifier character follows it), then spaces or
/// tabs and the block's `{`, and it ends with the block's `}` (or `};`).
pub open spec fn named_block_at(b: Seq<char>, name: Seq<char>, s: int, e: int) -> bool {
    &&& 0 <= s
    &&& s + name.len() < e
    &&& b.subrange(s, s + name.len()) == name
    &&& !is_ident_char(b[s + name.len()])
    &&& blanks_end(b, s + name.len()) < e
    &&& b[blanks_end(b, s + name.len())] == '{'
    &&& closes_at(b, e)
}

proof fn lemma_span_at(b: Seq<char>, name: Seq<char>, i: int, depth: int)
    ensures
        span_at(b, name, i, depth) matches Some((s, e)) ==> i <= s && named_block_at(b, name, s, e),
    decreases b.len() + 2 - i, 0nat,
{
    if 0 <= i < b.len() {
        let c = b[i];
        if c == '/' && i + 1 < b.len() && b[i + 1] == '/' {
            lemma_span_comment(b, name, i + 2, depth);
        } else if c == '"' {
            lemma_span_str(b, name, i + 1, depth);
        } else if c == '{' {
            lemma_span_at(b, name, i + 1, depth + 1);
        } else if c == '}' {
            lemma_span_at(b, name, i + 1, depth - 1);
        } else if depth == 0 && (is_ascii_alpha(c) || c == '_') {
            let j = ident_end(b, i + 1);
            lemma_ident_end(b, i + 1);
            let k = blanks_end(b, j);
            lemma_blanks_end(b, j);
            if i < j <= b.len() {
                lemma_span_at(b, name, j, depth);
            }
            if b.subrange(i, j) == name && k < b.len() && b[k] == '{' {
                lemma_match_at(b, k, 0);
                if let Some(e) = match_at(b, k, 0) {
                    assert(name.len() == j - i);
                    assert(j == i + name.len());
                    if j < b.len() {
                        assert(!is_ident_char(b[j]));
                    }
                    assert(j < b.len()) by {
                        if j == b.len() {
                            assert(blanks_end(b, j) == j);
                        }
                    }
                }
            }
        } else {
            lemma_span_at(b, name, i + 1, depth);
        }
    }
}

proof fn lemma_span_comment(b: Seq<char>, name: Seq<char>, i: int, depth: int)
    ensures
        span_comment(b, name, i, depth) matches Some((s, e)) ==> i <= s && named_block_at(b, name, s, e),
    decreases b.len() + 2 - i, 1nat,
{
    if 0 <= i < b.len() && b[i] != '\n' {
        lemma_span_comment(b, name, i + 1, depth);
    } else if i <= b.len() + 2 {
        lemma_span_at(b, name, i, depth);
    }
}

proof fn lemma_span_str(b: Seq<char>, name: Seq<char>, i: int, depth: int)
    ensures
        span_str(b, name, i, depth) matches Some((s, e)) ==> i <= s && named_block_at(b, name, s, e),
    decreases b.len() + 2 - i, 1nat,
{
    if 0 <= i < b.len() && b[i] != '"' {
        if b[i] == '\\' {
            lemma_span_str(b, name, i + 2, depth);
        } else {
            lemma_span_str(b, name, i + 1, depth);
        }
    } else if i <= b.len() + 1 {
        lemma_span_at(b, name, i + 1, depth);
    }
}

/// What the span scanner finds is a node of that name with a block: the
/// range starts with the whole name, followed by the block's `{`, and ends
/// with its closing `}` or `};`.
pub proof fn law_span_is_a_named_block(b: Seq<char>, name: Seq<char>)
    ensures
        span_at(b, name, 0, 0) matches Some((s, e)) ==> named_block_at(b, name, s, e),
{
    lemma_span_at(b, name, 0, 0);
}

/// The byte range of the node that `span_at` finds, if any.
pub open spec fn span_bytes(src: Seq<char>, name: Seq<char>) -> Option<(nat, nat)> {
    match span_at(src, name, 0, 0) {
        Some((s, e)) => Some((byte_offset(src, s), byte_offset(src, e))),
        None => None,
    }
}

/// Find the source span (byte range) of the first top-level node with the
/// given name, so it can be cut out of the file without touching anything
/// else (comments included). The range starts at the node name and ends just
/// after the closing `}` and an optional `;`. The block must open on the
/// same line as the name.
///
/// This is a small independent scanner: brace-depth + string + `//` comment
/// aware, like the lexer, but offset-reporting.
pub fn find_top_level_node_span(src: &str, name: &str) -> (r: Option<(usize, usize)>)
    ensures
        match r {
            Some((s, e)) => span_bytes(src@, name@) == Some((s as nat, e as nat)),
            None => span_bytes(src@, name@) is None,
        },
{
    let byte_len = src.as_bytes().len();
    assert(vstd::utf8::encode_utf8(src@).len() == byte_len);
    match find_top_level_node_chars(src, name) {
        Some((s, e)) => {
            let b = chars_of(src);
            Some((char_to_byte(src, &b, s), char_to_byte(src, &b, e)))
        },
        None => None,
    }
}

/// The character range of the first top-level node with the given name (see
/// [`find_top_level_node_span`], which reports the same range in bytes).
pub fn find_top_level_node_chars(src: &str, name: &str) -> (r: Option<(usize, usize)>)
    ensures
        match r {
            Some((s, e)) => span_at(src@, name@, 0, 0) == Some((s as int, e as int)) && s <= src@.len() && e <= src@.len(),
            None => span_at(src@, name@, 0, 0) is None,
        },
{
    let b = chars_of(src);
    let nm = chars_of(name);
    let mut i: usize = 0;
    let mut opens: usize = 0;
    let mut closes: usize = 0;
    while i < b.len()
        invariant
            b@ == src@,
            nm@ == name@,
            i <= b@.len(),
            opens + closes <= i,
            span_at(b@, nm@, 0, 0) == span_at(b@, nm@, i as int, opens - closes),
        decreases b@.len() - i,
    {
        let c = b[i];
        let ghost i0 = i;
        let ghost depth = opens - closes;
        if c == '/' && i + 1 < b.len() && b[i + 1] == '/' {
            i = i + 2;
            while i < b.len() && b[i] != '\n'
                invariant
                    i0 < i <= b@.len(),
                    span_at(b@, nm@, 0, 0) == span_comment(b@, nm@, i as int, depth),
                decreases b@.len() - i,
            {
                i = i + 1;
            }
        } else if c == '"' {
            i = i + 1;
            while i < b.len() && b[i] != '"'
                invariant
                    b@ == src@,
                    nm@ == name@,
                    i0 < i <= b@.len(),
                    span_at(b@, nm@, 0, 0) == span_str(b@, nm@, i as int, depth),
                decreases b@.len() - i,
            {
                if b[i] == '\\' {
                    if i + 1 >= b.len() {
                        assert(span_str(b@, nm@, i as int, depth) == span_str(b@, nm@, i + 2, depth));
                        assert(span_str(b@, nm@, i + 2, depth) == span_at(b@, nm@, i + 3, depth));
                        assert(span_at(b@, nm@, i + 3, depth) is None);
                        return None;
                    }
                    i = i + 1;
                }
                i = i + 1;
            }
            if i >= b.len() {
                assert(span_at(b@, nm@, i + 1, depth) is None);
                return None;
            }
            i = i + 1;
        } else if c == '{' {
            opens = opens + 1;
            i = i + 1;
        } else if c == '}' {
            closes = closes + 1;
            i = i + 1;
        } else if opens == closes && (ascii_alpha(c) || c == '_') {
            let start = i;
            let mut j = i + 1;
            while j < b.len() && ident_char_exec(b[j])
                invariant
                    start < j <= b@.len(),
                    ident_end(b@, start + 1) == ident_end(b@, j as int),
                decreases b@.len() - j,
            {
                j = j + 1;
            }
            if subrange_eq(&b, start, j, &nm) {
                let mut k = j;
                while k < b.len() && (b[k] == ' ' || b[k] == '\t')
                    invariant
                        j <= k <= b@.len(),
                        blanks_end(b@, j as int) == blanks_end(b@, k as int),
                    decreases b@.len() - k,
                {
                    k = k + 1;
                }
                if k < b.len() && b[k] == '{' {
                    match match_block(&b, k) {
                        Some(e) => {
                            return Some((start, e));
                        },
                        None => {},
                    }
                }
            }
            i = j;
        } else {
            i = i + 1;
        }
    }
    None
}

} // verus!
