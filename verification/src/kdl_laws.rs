//! The round-trip law of the KDL subset: rendering well-formed nodes and
//! parsing the text back gives the same nodes.

use vstd::prelude::*;
use crate::kdl::{
    ArgV, NodeV, TokV, ErrV, lex_at, lex_word, lex_str, lex_comment, prepend, is_word_start, is_word_char, escape,
    escape_char, quoted, render_arg, props_text, args_text, header, pad, render, all_leaves, join,
    inline_parts, block_parts, leaf_line, trim_start, leading_ws, child_indent, next_line,
    pn_loop, pnode, pnode_loop, empty_node, tok_line, lex_spec, parse_document_spec, ends_at, ends_str, lex_ends,
};
use crate::text::is_unicode_whitespace;

verus! {

/// `p` occurs in `s` at index `i`.
pub open spec fn at(s: Seq<char>, i: int, p: Seq<char>) -> bool {
    &&& 0 <= i
    &&& i + p.len() <= s.len()
    &&& forall|j: int| 0 <= j < p.len() ==> s[i + j] == p[j]
}

proof fn lemma_at_split(s: Seq<char>, i: int, a: Seq<char>, b: Seq<char>)
    requires
        at(s, i, a + b),
    ensures
        at(s, i, a),
        at(s, i + a.len(), b),
{
    assert forall|j: int| 0 <= j < a.len() implies s[i + j] == a[j] by {
        assert((a + b)[j] == a[j]);
    }
    assert forall|j: int| 0 <= j < b.len() implies s[i + a.len() + j] == b[j] by {
        assert((a + b)[a.len() + j] == b[j]);
    }
}

/// A bare word the lexer reads back as one word token.
pub open spec fn valid_word(w: Seq<char>) -> bool {
    &&& w.len() > 0
    &&& is_word_start(w[0])
    &&& forall|i: int| 0 <= i < w.len() ==> is_word_char(#[trigger] w[i])
}

/// The text at `i` cannot continue a word: end of text or a non-word char.
pub open spec fn word_boundary(s: Seq<char>, i: int) -> bool {
    i >= s.len() || !is_word_char(s[i])
}

proof fn lemma_lex_spaces(s: Seq<char>, i: int, k: int, nl: bool, line: nat)
    requires
        0 <= i,
        0 <= k,
        i + k <= s.len(),
        forall|j: int| i <= j < i + k ==> s[j] == ' ',
    ensures
        lex_at(s, i, nl, line) == lex_at(s, i + k, nl, line),
    decreases k,
{
    if k > 0 {
        lemma_lex_spaces(s, i + 1, k - 1, nl, line);
    }
}

proof fn lemma_lex_word_rest(s: Seq<char>, i: int, w: Seq<char>, k: int, line: nat)
    requires
        valid_word(w),
        at(s, i, w),
        1 <= k <= w.len(),
        word_boundary(s, i + w.len()),
    ensures
        lex_word(s, i + k, w.take(k), line) == prepend(seq![TokV::Word(w)], lex_at(s, i + w.len(), false, line)),
    decreases w.len() - k,
{
    if k < w.len() {
        assert(s[i + k] == w[k]);
        assert(is_word_char(w[k]));
        assert(w.take(k).push(s[i + k]) =~= w.take(k + 1));
        lemma_lex_word_rest(s, i, w, k + 1, line);
    } else {
        assert(w.take(k) =~= w);
    }
}

proof fn lemma_lex_word(s: Seq<char>, i: int, w: Seq<char>, nl: bool, line: nat)
    requires
        valid_word(w),
        at(s, i, w),
        word_boundary(s, i + w.len()),
    ensures
        lex_at(s, i, nl, line) == prepend(seq![TokV::Word(w)], lex_at(s, i + w.len(), false, line)),
{
    assert(s[i] == w[0]);
    assert(seq![w[0]] =~= w.take(1));
    lemma_lex_word_rest(s, i, w, 1, line);
}

proof fn lemma_escape_concat(a: Seq<char>, b: Seq<char>)
    ensures
        escape(a + b) == escape(a) + escape(b),
    decreases b.len(),
{
    if b.len() == 0 {
        assert(a + b =~= a);
        assert(escape(b) =~= seq![]);
        assert(escape(a) + seq![] =~= escape(a));
    } else {
        assert((a + b).drop_last() =~= a + b.drop_last());
        assert((a + b).last() == b.last());
        lemma_escape_concat(a, b.drop_last());
        assert(escape(a) + (escape(b.drop_last()) + escape_char(b.last())) =~= (escape(a) + escape(
            b.drop_last(),
        )) + escape_char(b.last()));
    }
}

proof fn lemma_lex_str_rest(s: Seq<char>, i: int, x: Seq<char>, k: int, line: nat)
    requires
        at(s, i, quoted(x)),
        0 <= k <= x.len(),
    ensures
        lex_str(s, i + 1 + escape(x.take(k)).len(), x.take(k), line) == prepend(
            seq![TokV::Str(x)],
            lex_at(s, i + quoted(x).len(), false, line),
        ),
    decreases x.len() - k,
{
    let q = quoted(x);
    assert(q == seq!['"'] + escape(x) + seq!['"']);
    lemma_at_split(s, i, seq!['"'] + escape(x), seq!['"']);
    lemma_at_split(s, i, seq!['"'], escape(x));
    lemma_escape_concat(x.take(k), x.skip(k));
    assert(x.take(k) + x.skip(k) =~= x);
    let e0 = escape(x.take(k));
    let j = i + 1 + e0.len();
    if k == x.len() {
        assert(x.take(k) =~= x);
        assert(s[j] == '"') by {
            assert(q[q.len() - 1] == '"');
        }
    } else {
        let c = x[k];
        assert(x.take(k + 1).drop_last() =~= x.take(k));
        assert(x.take(k + 1).last() == c);
        assert(escape(x.take(k + 1)) == e0 + escape_char(c));
        lemma_escape_concat(x.take(k + 1), x.skip(k + 1));
        assert(x.take(k + 1) + x.skip(k + 1) =~= x);
        let ec = escape_char(c);
        assert(escape(x) == e0 + ec + escape(x.skip(k + 1)));
        lemma_at_split(s, i + 1, e0 + ec, escape(x.skip(k + 1)));
        lemma_at_split(s, i + 1, e0, ec);
        assert(forall|m: int| 0 <= m < ec.len() ==> s[j + m] == ec[m]);
        lemma_lex_str_rest(s, i, x, k + 1, line);
        if c == '"' {
            assert(s[j] == '\\' && s[j + 1] == '"');
            assert(x.take(k).push('"') =~= x.take(k + 1));
        } else if c == '\\' {
            assert(s[j] == '\\' && s[j + 1] == '\\');
            assert(x.take(k).push('\\') =~= x.take(k + 1));
        } else if c == '\n' {
            assert(s[j] == '\\' && s[j + 1] == 'n');
            assert(x.take(k).push('\n') =~= x.take(k + 1));
        } else if c == '\t' {
            assert(s[j] == '\\' && s[j + 1] == 't');
            assert(x.take(k).push('\t') =~= x.take(k + 1));
        } else if c == '\r' {
            assert(s[j] == '\\' && s[j + 1] == 'r');
            assert(x.take(k).push('\r') =~= x.take(k + 1));
        } else {
            assert(ec == seq![c]);
            assert(s[j + 0] == ec[0]);
            assert(s[j] == c);
            assert(x.take(k).push(c) =~= x.take(k + 1));
        }
    }
}

proof fn lemma_lex_quoted(s: Seq<char>, i: int, x: Seq<char>, nl: bool, line: nat)
    requires
        at(s, i, quoted(x)),
    ensures
        lex_at(s, i, nl, line) == prepend(seq![TokV::Str(x)], lex_at(s, i + quoted(x).len(), false, line)),
{
    assert(s[i] == quoted(x)[0]);
    assert(x.take(0) =~= seq![]);
    assert(escape(seq![]) =~= seq![]);
    lemma_lex_str_rest(s, i, x, 0, line);
}


pub open spec fn valid_arg(a: ArgV) -> bool {
    match a {
        ArgV::Word(w) => valid_word(w),
        ArgV::Str(_) => true,
    }
}

/// Every name, property key and bare argument of the node (and of all its
/// descendants) is a word the lexer reads back whole.
pub open spec fn valid_node(n: NodeV) -> bool
    decreases n,
{
    &&& valid_word(n.name)
    &&& forall|i: int| 0 <= i < n.props.len() ==> valid_word(#[trigger] n.props[i].0) && valid_arg(n.props[i].1)
    &&& forall|i: int| 0 <= i < n.args.len() ==> valid_arg(#[trigger] n.args[i])
    &&& forall|i: int| 0 <= i < n.children.len() ==> valid_node(#[trigger] n.children[i])
}

pub open spec fn arg_tok(a: ArgV) -> TokV {
    match a {
        ArgV::Word(w) => TokV::Word(w),
        ArgV::Str(s) => TokV::Str(s),
    }
}

pub open spec fn props_toks(ps: Seq<(Seq<char>, ArgV)>) -> Seq<TokV>
    decreases ps.len(),
{
    if ps.len() == 0 {
        seq![]
    } else {
        props_toks(ps.drop_last()) + seq![TokV::Word(ps.last().0), TokV::Equals, arg_tok(ps.last().1)]
    }
}

pub open spec fn args_toks(args: Seq<ArgV>) -> Seq<TokV>
    decreases args.len(),
{
    if args.len() == 0 {
        seq![]
    } else {
        args_toks(args.drop_last()) + seq![arg_tok(args.last())]
    }
}

pub open spec fn header_toks(n: NodeV) -> Seq<TokV> {
    seq![TokV::Word(n.name)] + props_toks(n.props) + args_toks(n.args)
}

/// The tokens the lexer produces for a rendered node.
pub open spec fn node_toks(n: NodeV) -> Seq<TokV>
    decreases n, 1nat,
{
    if n.children.len() == 0 {
        header_toks(n) + seq![TokV::Semi]
    } else if all_leaves(n.children) {
        header_toks(n) + seq![TokV::LBrace] + leaf_toks(n.children).flatten() + seq![TokV::RBrace]
    } else {
        header_toks(n) + seq![TokV::LBrace, TokV::Newline] + block_toks(n).flatten() + seq![TokV::RBrace]
    }
}

pub open spec fn leaf_toks(cs: Seq<NodeV>) -> Seq<Seq<TokV>> {
    Seq::new(cs.len(), |i: int| header_toks(cs[i]) + seq![TokV::Semi])
}

pub open spec fn block_toks(n: NodeV) -> Seq<Seq<TokV>>
    decreases n, 0nat,
{
    Seq::new(
        n.children.len(),
        |i: int|
            {
                if 0 <= i < n.children.len() {
                    proof {
                        assert(decreases_to!(n => n.children[i]));
                    }
                    node_toks(n.children[i]) + seq![TokV::Newline]
                } else {
                    seq![]
                }
            },
    )
}

proof fn lemma_prepend_assoc(a: Seq<TokV>, b: Seq<TokV>, r: Result<Seq<TokV>, ErrV>)
    ensures
        prepend(a, prepend(b, r)) == prepend(a + b, r),
{
    match r {
        Ok(x) => {
            assert(a + (b + x) =~= (a + b) + x);
        },
        Err(_) => {},
    }
}

proof fn lemma_prepend_nil(r: Result<Seq<TokV>, ErrV>)
    ensures
        prepend(seq![], r) == r,
{
    match r {
        Ok(x) => {
            assert(seq![] + x =~= x);
        },
        Err(_) => {},
    }
}

proof fn lemma_lex_arg(s: Seq<char>, i: int, a: ArgV, nl: bool, line: nat)
    requires
        valid_arg(a),
        at(s, i, render_arg(a)),
        word_boundary(s, i + render_arg(a).len()),
    ensures
        lex_at(s, i, nl, line) == prepend(seq![arg_tok(a)], lex_at(s, i + render_arg(a).len(), false, line)),
{
    match a {
        ArgV::Word(w) => lemma_lex_word(s, i, w, nl, line),
        ArgV::Str(x) => lemma_lex_quoted(s, i, x, nl, line),
    }
}

proof fn lemma_lex_props(s: Seq<char>, i: int, ps: Seq<(Seq<char>, ArgV)>, line: nat)
    requires
        forall|k: int| 0 <= k < ps.len() ==> valid_word(#[trigger] ps[k].0) && valid_arg(ps[k].1),
        at(s, i, props_text(ps)),
        word_boundary(s, i + props_text(ps).len()),
    ensures
        lex_at(s, i, false, line) == prepend(props_toks(ps), lex_at(s, i + props_text(ps).len(), false, line)),
    decreases ps.len(),
{
    if ps.len() == 0 {
        lemma_prepend_nil(lex_at(s, i, false, line));
    } else {
        let dl = ps.drop_last();
        let (k, v) = ps.last();
        let t0 = props_text(dl);
        let piece = seq![' '] + k + seq!['='] + render_arg(v);
        assert(props_text(ps) == t0 + piece);
        lemma_at_split(s, i, t0, piece);
        let j = i + t0.len();
        assert(s[j] == ' ') by {
            assert(piece[0] == ' ');
        }
        assert(forall|m: int| 0 <= m < dl.len() ==> dl[m] == ps[m]);
        lemma_lex_props(s, i, dl, line);
        lemma_lex_spaces(s, j, 1, false, line);
        assert(seq![' '] + k + seq!['='] + render_arg(v) =~= seq![' '] + (k + seq!['='] + render_arg(v)));
        lemma_at_split(s, j, seq![' '], k + seq!['='] + render_arg(v));
        assert(k + seq!['='] + render_arg(v) =~= k + (seq!['='] + render_arg(v)));
        lemma_at_split(s, j + 1, k, seq!['='] + render_arg(v));
        lemma_at_split(s, j + 1 + k.len(), seq!['='], render_arg(v));
        assert(valid_word(k) && valid_arg(v)) by {
            assert(ps[ps.len() - 1] == ps.last());
        }
        assert(s[j + 1 + k.len()] == '=') by {
            assert(seq!['='][0] == '=');
        }
        lemma_lex_word(s, j + 1, k, false, line);
        let jv = j + 2 + k.len();
        assert(piece.len() == 2 + k.len() + render_arg(v).len());
        lemma_lex_arg(s, jv, v, false, line);
        let rest = lex_at(s, jv + render_arg(v).len(), false, line);
        lemma_prepend_assoc(seq![TokV::Equals], seq![arg_tok(v)], rest);
        lemma_prepend_assoc(seq![TokV::Word(k)], seq![TokV::Equals] + seq![arg_tok(v)], rest);
        lemma_prepend_assoc(props_toks(dl), seq![TokV::Word(k)] + (seq![TokV::Equals] + seq![arg_tok(v)]), rest);
        assert(seq![TokV::Word(k)] + (seq![TokV::Equals] + seq![arg_tok(v)]) =~= seq![TokV::Word(k), TokV::Equals, arg_tok(v)]);
    }
}

proof fn lemma_lex_args(s: Seq<char>, i: int, args: Seq<ArgV>, line: nat)
    requires
        forall|k: int| 0 <= k < args.len() ==> valid_arg(#[trigger] args[k]),
        at(s, i, args_text(args)),
        word_boundary(s, i + args_text(args).len()),
    ensures
        lex_at(s, i, false, line) == prepend(args_toks(args), lex_at(s, i + args_text(args).len(), false, line)),
    decreases args.len(),
{
    if args.len() == 0 {
        lemma_prepend_nil(lex_at(s, i, false, line));
    } else {
        let dl = args.drop_last();
        let a = args.last();
        let t0 = args_text(dl);
        let piece = seq![' '] + render_arg(a);
        assert(args_text(args) == t0 + piece);
        lemma_at_split(s, i, t0, piece);
        let j = i + t0.len();
        assert(s[j] == ' ') by {
            assert(piece[0] == ' ');
        }
        assert(forall|m: int| 0 <= m < dl.len() ==> dl[m] == args[m]);
        lemma_lex_args(s, i, dl, line);
        lemma_lex_spaces(s, j, 1, false, line);
        lemma_at_split(s, j, seq![' '], render_arg(a));
        assert(valid_arg(a)) by {
            assert(args[args.len() - 1] == a);
        }
        lemma_lex_arg(s, j + 1, a, false, line);
        lemma_prepend_assoc(args_toks(dl), seq![arg_tok(a)], lex_at(s, j + 1 + render_arg(a).len(), false, line));
    }
}

proof fn lemma_header_start(n: NodeV, ind: nat)
    requires
        valid_word(n.name),
    ensures
        header(n, ind) == pad(ind) + n.name + (props_text(n.props) + args_text(n.args)),
        header(n, ind).len() == pad(ind).len() + n.name.len() + props_text(n.props).len() + args_text(n.args).len(),
{
    assert(pad(ind) + n.name + props_text(n.props) + args_text(n.args) =~= pad(ind) + n.name + (props_text(n.props) + args_text(n.args)));
}

proof fn lemma_text_starts_with_space(ps: Seq<(Seq<char>, ArgV)>, args: Seq<ArgV>)
    ensures
        props_text(ps).len() > 0 ==> props_text(ps)[0] == ' ',
        args_text(args).len() > 0 ==> args_text(args)[0] == ' ',
    decreases ps.len() + args.len(),
{
    if ps.len() > 0 {
        lemma_text_starts_with_space(ps.drop_last(), args);
    }
    if args.len() > 0 {
        lemma_text_starts_with_space(ps, args.drop_last());
    }
}

proof fn lemma_lex_header(s: Seq<char>, i: int, n: NodeV, ind: nat, nl: bool, line: nat)
    requires
        valid_node(n),
        at(s, i, header(n, ind)),
        word_boundary(s, i + header(n, ind).len()),
    ensures
        lex_at(s, i, nl, line) == prepend(header_toks(n), lex_at(s, i + header(n, ind).len(), false, line)),
{
    let p = pad(ind);
    let pt = props_text(n.props);
    let at_ = args_text(n.args);
    lemma_header_start(n, ind);
    assert(header(n, ind) == p + n.name + pt + at_);
    lemma_at_split(s, i, p + n.name + pt, at_);
    lemma_at_split(s, i, p + n.name, pt);
    lemma_at_split(s, i, p, n.name);
    assert forall|m: int| i <= m < i + p.len() implies s[m] == ' ' by {
        assert(s[i + (m - i)] == p[m - i]);
    }
    lemma_lex_spaces(s, i, p.len() as int, nl, line);
    let j = i + p.len();
    lemma_text_starts_with_space(n.props, n.args);
    let je = j + n.name.len();
    assert(word_boundary(s, je)) by {
        if pt.len() > 0 {
            assert(s[je + 0] == pt[0]);
        } else if at_.len() > 0 {
            assert(s[je + 0] == at_[0]);
        }
    }
    lemma_lex_word(s, j, n.name, nl, line);
    assert(word_boundary(s, je + pt.len())) by {
        if at_.len() > 0 {
            assert(s[je + pt.len() + 0] == at_[0]);
        }
    }
    lemma_lex_props(s, je, n.props, line);
    lemma_lex_args(s, je + pt.len(), n.args, line);
    let rest = lex_at(s, i + header(n, ind).len(), false, line);
    lemma_prepend_assoc(props_toks(n.props), args_toks(n.args), rest);
    lemma_prepend_assoc(seq![TokV::Word(n.name)], props_toks(n.props) + args_toks(n.args), rest);
    assert(seq![TokV::Word(n.name)] + (props_toks(n.props) + args_toks(n.args)) =~= header_toks(n));
}


proof fn lemma_lex_char(s: Seq<char>, i: int, nl: bool, line: nat)
    requires
        0 <= i < s.len(),
        s[i] == '{' || s[i] == '}' || s[i] == ';',
    ensures
        lex_at(s, i, nl, line) == prepend(
            seq![if s[i] == '{' { TokV::LBrace } else if s[i] == '}' { TokV::RBrace } else { TokV::Semi }],
            lex_at(s, i + 1, false, line),
        ),
{
}

proof fn lemma_word_start_not_ws(c: char)
    requires
        is_word_start(c),
    ensures
        !is_unicode_whitespace(c),
{
}

/// A leaf child's inline text is its own rendering at indent 0.
proof fn lemma_leaf_line(c: NodeV)
    requires
        valid_node(c),
        c.children.len() == 0,
    ensures
        leaf_line(c) == render(c, 0),
{
    let t = header(c, 0) + seq![';'];
    assert(pad(0) =~= Seq::<char>::empty());
    assert(t[0] == c.name[0]) by {
        lemma_header_start(c, 0);
        assert(header(c, 0)[0] == (pad(0) + c.name + (props_text(c.props) + args_text(c.args)))[0]);
    }
    lemma_word_start_not_ws(c.name[0]);
    assert(leading_ws(t) == 0);
    assert(t.skip(0) =~= t);
}

proof fn lemma_flatten_take<A>(ps: Seq<Seq<A>>, k: int)
    requires
        0 <= k < ps.len(),
    ensures
        ps.take(k + 1).flatten() == ps.take(k).flatten() + ps[k],
{
    assert(ps.take(k + 1) =~= ps.take(k).push(ps[k]));
    ps.take(k).lemma_flatten_push(ps[k]);
}

proof fn lemma_lex_node(s: Seq<char>, i: int, n: NodeV, ind: nat, nl: bool, line: nat) -> (l2: nat)
    requires
        valid_node(n),
        at(s, i, render(n, ind)),
    ensures
        lex_at(s, i, nl, line) == prepend(node_toks(n), lex_at(s, i + render(n, ind).len(), false, l2)),
        all_leaves(n.children) ==> l2 == line,
    decreases n, n.children.len() + 1,
{
    let h = header(n, ind);
    let r = render(n, ind);
    if n.children.len() == 0 {
        assert(r == h + seq![';']);
        lemma_at_split(s, i, h, seq![';']);
        assert(s[i + h.len()] == ';') by {
            assert(s[i + h.len() + 0] == seq![';'][0]);
        }
        lemma_lex_header(s, i, n, ind, nl, line);
        lemma_lex_char(s, i + h.len(), false, line);
        lemma_prepend_assoc(header_toks(n), seq![TokV::Semi], lex_at(s, i + h.len() + 1, false, line));
        line
    } else if all_leaves(n.children) {
        let body = join(inline_parts(n.children), seq![' ']);
        assert(r == h + seq![' ', '{', ' '] + body + seq![' ', '}']);
        lemma_at_split(s, i, h + seq![' ', '{', ' '] + body, seq![' ', '}']);
        lemma_at_split(s, i, h + seq![' ', '{', ' '], body);
        lemma_at_split(s, i, h, seq![' ', '{', ' ']);
        let j = i + h.len();
        assert(s[j] == ' ' && s[j + 1] == '{' && s[j + 2] == ' ') by {
            assert(s[j + 0] == seq![' ', '{', ' '][0]);
            assert(s[j + 1] == seq![' ', '{', ' '][1]);
            assert(s[j + 2] == seq![' ', '{', ' '][2]);
        }
        lemma_lex_header(s, i, n, ind, nl, line);
        lemma_lex_spaces(s, j, 1, false, line);
        lemma_lex_char(s, j + 1, false, line);
        lemma_lex_spaces(s, j + 2, 1, false, line);
        let jb = j + 3;
        assert(inline_parts(n.children).take(n.children.len() as int) =~= inline_parts(n.children));
        assert(leaf_toks(n.children).take(n.children.len() as int) =~= leaf_toks(n.children));
        lemma_lex_inline(s, jb, n, n.children.len() as int, line);
        let je = jb + body.len();
        assert(s[je] == ' ' && s[je + 1] == '}') by {
            assert(s[je + 0] == seq![' ', '}'][0]);
            assert(s[je + 1] == seq![' ', '}'][1]);
        }
        lemma_lex_spaces(s, je, 1, false, line);
        lemma_lex_char(s, je + 1, false, line);
        let lt = leaf_toks(n.children).flatten();
        let rest = lex_at(s, je + 2, false, line);
        lemma_prepend_assoc(lt, seq![TokV::RBrace], rest);
        lemma_prepend_assoc(seq![TokV::LBrace], lt + seq![TokV::RBrace], rest);
        lemma_prepend_assoc(header_toks(n), seq![TokV::LBrace] + (lt + seq![TokV::RBrace]), rest);
        assert(header_toks(n) + (seq![TokV::LBrace] + (lt + seq![TokV::RBrace])) =~= node_toks(n));
        assert(i + r.len() == je + 2);
        line
    } else {
        let parts = block_parts(n, ind);
        let body = parts.flatten();
        assert(r == h + seq![' ', '{', '\n'] + body + pad(ind) + seq!['}']);
        lemma_at_split(s, i, h + seq![' ', '{', '\n'] + body + pad(ind), seq!['}']);
        lemma_at_split(s, i, h + seq![' ', '{', '\n'] + body, pad(ind));
        lemma_at_split(s, i, h + seq![' ', '{', '\n'], body);
        lemma_at_split(s, i, h, seq![' ', '{', '\n']);
        let j = i + h.len();
        assert(s[j] == ' ' && s[j + 1] == '{' && s[j + 2] == '\n') by {
            assert(s[j + 0] == seq![' ', '{', '\n'][0]);
            assert(s[j + 1] == seq![' ', '{', '\n'][1]);
            assert(s[j + 2] == seq![' ', '{', '\n'][2]);
        }
        lemma_lex_header(s, i, n, ind, nl, line);
        lemma_lex_spaces(s, j, 1, false, line);
        lemma_lex_char(s, j + 1, false, line);
        let jb = j + 3;
        let line1 = next_line(line);
        assert(lex_at(s, j + 2, false, line) == prepend(seq![TokV::Newline], lex_at(s, jb, true, line1)));
        assert(parts.take(n.children.len() as int) =~= parts);
        assert(block_toks(n).take(n.children.len() as int) =~= block_toks(n));
        let l3 = lemma_lex_block(s, jb, n, ind, n.children.len() as int, line1);
        let jp = jb + body.len();
        let p = pad(ind);
        assert forall|m: int| jp <= m < jp + p.len() implies s[m] == ' ' by {
            assert(s[jp + (m - jp)] == p[m - jp]);
        }
        lemma_lex_spaces(s, jp, p.len() as int, true, l3);
        let jc = jp + p.len();
        assert(s[jc] == '}') by {
            assert(s[jc + 0] == seq!['}'][0]);
        }
        lemma_lex_char(s, jc, true, l3);
        let bt = block_toks(n).flatten();
        let rest = lex_at(s, jc + 1, false, l3);
        lemma_prepend_assoc(bt, seq![TokV::RBrace], rest);
        lemma_prepend_assoc(seq![TokV::Newline], bt + seq![TokV::RBrace], rest);
        lemma_prepend_assoc(seq![TokV::LBrace], seq![TokV::Newline] + (bt + seq![TokV::RBrace]), rest);
        lemma_prepend_assoc(header_toks(n), seq![TokV::LBrace] + (seq![TokV::Newline] + (bt + seq![TokV::RBrace])), rest);
        assert(header_toks(n) + (seq![TokV::LBrace] + (seq![TokV::Newline] + (bt + seq![TokV::RBrace]))) =~= node_toks(n));
        assert(i + r.len() == jc + 1);
        l3
    }
}

/// The first `k` leaf children of an inline block lex to their tokens.
proof fn lemma_lex_inline(s: Seq<char>, j: int, n: NodeV, k: int, line: nat)
    requires
        valid_node(n),
        n.children.len() > 0,
        all_leaves(n.children),
        0 <= k <= n.children.len(),
        at(s, j, join(inline_parts(n.children).take(k), seq![' '])),
    ensures
        lex_at(s, j, false, line) == prepend(
            leaf_toks(n.children).take(k).flatten(),
            lex_at(s, j + join(inline_parts(n.children).take(k), seq![' ']).len(), false, line),
        ),
    decreases n, k,
{
    let ps = inline_parts(n.children);
    let ts = leaf_toks(n.children);
    if k == 0 {
        assert(ts.take(0) =~= Seq::<Seq<TokV>>::empty());
        assert(ts.take(0).flatten() =~= seq![]);
        assert(ps.take(0) =~= Seq::<Seq<char>>::empty());
        lemma_prepend_nil(lex_at(s, j, false, line));
    } else {
        let c = n.children[k - 1];
        assert(valid_node(c));
        assert(c.children.len() == 0);
        lemma_leaf_line(c);
        assert(ps[k - 1] == render(c, 0));
        assert(ts[k - 1] == node_toks(c));
        lemma_flatten_take(ts, k - 1);
        if k == 1 {
            assert(ps.take(1) =~= seq![ps[0]]);
            assert(join(ps.take(1), seq![' ']) == ps[0]);
            assert(ts.take(0).flatten() =~= seq![]) by {
                assert(ts.take(0) =~= Seq::<Seq<TokV>>::empty());
            }
            assert(seq![] + ts[0] =~= ts[0]);
            let _ = lemma_lex_node(s, j, c, 0, false, line);
        } else {
            let prev = join(ps.take(k - 1), seq![' ']);
            assert(ps.take(k).drop_last() =~= ps.take(k - 1));
            assert(join(ps.take(k), seq![' ']) == prev + seq![' '] + ps[k - 1]);
            lemma_at_split(s, j, prev + seq![' '], ps[k - 1]);
            lemma_at_split(s, j, prev, seq![' ']);
            lemma_lex_inline(s, j, n, k - 1, line);
            let jm = j + prev.len();
            assert(s[jm] == ' ') by {
                assert(s[jm + 0] == seq![' '][0]);
            }
            lemma_lex_spaces(s, jm, 1, false, line);
            let _ = lemma_lex_node(s, jm + 1, c, 0, false, line);
            lemma_prepend_assoc(ts.take(k - 1).flatten(), ts[k - 1], lex_at(s, jm + 1 + ps[k - 1].len(), false, line));
        }
    }
}

/// The first `k` children of a multi-line block lex to their tokens.
proof fn lemma_lex_block(s: Seq<char>, j: int, n: NodeV, ind: nat, k: int, line: nat) -> (l2: nat)
    requires
        valid_node(n),
        0 <= k <= n.children.len(),
        at(s, j, block_parts(n, ind).take(k).flatten()),
    ensures
        lex_at(s, j, true, line) == prepend(
            block_toks(n).take(k).flatten(),
            lex_at(s, j + block_parts(n, ind).take(k).flatten().len(), true, l2),
        ),
    decreases n, k,
{
    let ps = block_parts(n, ind);
    let ts = block_toks(n);
    if k == 0 {
        assert(ts.take(0) =~= Seq::<Seq<TokV>>::empty());
        assert(ts.take(0).flatten() =~= seq![]);
        assert(ps.take(0) =~= Seq::<Seq<char>>::empty());
        assert(ps.take(0).flatten() =~= seq![]);
        lemma_prepend_nil(lex_at(s, j, true, line));
        line
    } else {
        let c = n.children[k - 1];
        assert(valid_node(c));
        lemma_flatten_take(ps, k - 1);
        lemma_flatten_take(ts, k - 1);
        let prev = ps.take(k - 1).flatten();
        let rc = render(c, child_indent(ind));
        assert(ps[k - 1] == rc + seq!['\n']);
        assert(ts[k - 1] == node_toks(c) + seq![TokV::Newline]);
        lemma_at_split(s, j, prev, ps[k - 1]);
        let l1 = lemma_lex_block(s, j, n, ind, k - 1, line);
        let jm = j + prev.len();
        lemma_at_split(s, jm, rc, seq!['\n']);
        let l2 = lemma_lex_node(s, jm, c, child_indent(ind), true, l1);
        let jn = jm + rc.len();
        assert(s[jn] == '\n') by {
            assert(s[jn + 0] == seq!['\n'][0]);
        }
        let l3 = next_line(l2);
        assert(lex_at(s, jn, false, l2) == prepend(seq![TokV::Newline], lex_at(s, jn + 1, true, l3)));
        let rest = lex_at(s, jn + 1, true, l3);
        lemma_prepend_assoc(node_toks(c), seq![TokV::Newline], rest);
        lemma_prepend_assoc(ts.take(k - 1).flatten(), node_toks(c) + seq![TokV::Newline], rest);
        l3
    }
}


/// `p` occurs in the token list `t` at index `i`.
pub open spec fn occurs(t: Seq<TokV>, i: int, p: Seq<TokV>) -> bool {
    &&& 0 <= i
    &&& i + p.len() <= t.len()
    &&& forall|j: int| 0 <= j < p.len() ==> t[i + j] == p[j]
}

proof fn lemma_occurs_split(t: Seq<TokV>, i: int, a: Seq<TokV>, b: Seq<TokV>)
    requires
        occurs(t, i, a + b),
    ensures
        occurs(t, i, a),
        occurs(t, i + a.len(), b),
{
    assert forall|j: int| 0 <= j < a.len() implies t[i + j] == a[j] by {
        assert((a + b)[j] == a[j]);
    }
    assert forall|j: int| 0 <= j < b.len() implies t[i + a.len() + j] == b[j] by {
        assert((a + b)[a.len() + j] == b[j]);
    }
}

proof fn lemma_parse_props(t: Seq<TokV>, q: int, ps: Seq<(Seq<char>, ArgV)>, node: NodeV, line: nat)
    requires
        occurs(t, q, props_toks(ps)),
    ensures
        pnode_loop(t, q, node, line) == pnode_loop(
            t,
            q + props_toks(ps).len(),
            NodeV { props: node.props + ps, ..node },
            line,
        ),
    decreases ps.len(),
{
    if ps.len() == 0 {
        assert(node.props + ps =~= node.props);
    } else {
        let dl = ps.drop_last();
        let (k, v) = ps.last();
        let three = seq![TokV::Word(k), TokV::Equals, arg_tok(v)];
        lemma_occurs_split(t, q, props_toks(dl), three);
        lemma_parse_props(t, q, dl, node, line);
        let q1 = q + props_toks(dl).len();
        assert(t[q1] == TokV::Word(k)) by {
            assert(t[q1 + 0] == three[0]);
        }
        assert(t[q1 + 1] == TokV::Equals) by {
            assert(t[q1 + 1] == three[1]);
        }
        assert(t[q1 + 2] == arg_tok(v)) by {
            assert(t[q1 + 2] == three[2]);
        }
        let n1 = NodeV { props: node.props + dl, ..node };
        assert((node.props + dl).push((k, v)) =~= node.props + ps);
        match v {
            ArgV::Word(w) => {
                assert(pnode_loop(t, q1, n1, line) == pnode_loop(t, q1 + 3, NodeV { props: n1.props.push((k, ArgV::Word(w))), ..n1 }, line));
            },
            ArgV::Str(x) => {
                assert(pnode_loop(t, q1, n1, line) == pnode_loop(t, q1 + 3, NodeV { props: n1.props.push((k, ArgV::Str(x))), ..n1 }, line));
            },
        }
    }
}

proof fn lemma_parse_args(t: Seq<TokV>, q: int, args: Seq<ArgV>, node: NodeV, line: nat)
    requires
        occurs(t, q, args_toks(args)),
        q + args_toks(args).len() < t.len(),
        !(t[q + args_toks(args).len()] is Equals),
    ensures
        pnode_loop(t, q, node, line) == pnode_loop(
            t,
            q + args_toks(args).len(),
            NodeV { args: node.args + args, ..node },
            line,
        ),
    decreases args.len(),
{
    if args.len() == 0 {
        assert(node.args + args =~= node.args);
    } else {
        let dl = args.drop_last();
        let a = args.last();
        lemma_occurs_split(t, q, args_toks(dl), seq![arg_tok(a)]);
        let q1 = q + args_toks(dl).len();
        assert(t[q1] == arg_tok(a)) by {
            assert(t[q1 + 0] == seq![arg_tok(a)][0]);
        }
        lemma_parse_args(t, q, dl, node, line);
        let n1 = NodeV { args: node.args + dl, ..node };
        assert((node.args + dl).push(a) =~= node.args + args);
        match a {
            ArgV::Word(w) => {
                assert(pnode_loop(t, q1, n1, line) == pnode_loop(t, q1 + 1, NodeV { args: n1.args.push(ArgV::Word(w)), ..n1 }, line));
            },
            ArgV::Str(x) => {
                assert(pnode_loop(t, q1, n1, line) == pnode_loop(t, q1 + 1, NodeV { args: n1.args.push(ArgV::Str(x)), ..n1 }, line));
            },
        }
    }
}

/// Parsing a node's tokens gives the node back.
proof fn lemma_parse_node(t: Seq<TokV>, p: int, n: NodeV)
    requires
        valid_node(n),
        occurs(t, p, node_toks(n)),
    ensures
        pnode(t, p) == Ok::<(NodeV, int), ErrV>((n, p + node_toks(n).len())),
    decreases n, n.children.len() + 1,
{
    let ht = header_toks(n);
    let pt = props_toks(n.props);
    let at_ = args_toks(n.args);
    let rest = if n.children.len() == 0 {
        seq![TokV::Semi]
    } else if all_leaves(n.children) {
        seq![TokV::LBrace] + leaf_toks(n.children).flatten() + seq![TokV::RBrace]
    } else {
        seq![TokV::LBrace, TokV::Newline] + block_toks(n).flatten() + seq![TokV::RBrace]
    };
    assert(node_toks(n) =~= ht + rest);
    lemma_occurs_split(t, p, ht, rest);
    assert(ht =~= seq![TokV::Word(n.name)] + (pt + at_));
    lemma_occurs_split(t, p, seq![TokV::Word(n.name)], pt + at_);
    lemma_occurs_split(t, p + 1, pt, at_);
    assert(t[p] == TokV::Word(n.name)) by {
        assert(t[p + 0] == ht[0]);
    }
    let line = tok_line(t, p);
    let e = p + ht.len();
    assert(t[e] == rest[0]) by {
        assert(t[e + 0] == rest[0]);
    }
    assert(pnode(t, p) == pnode_loop(t, p + 1, empty_node(n.name), line));
    lemma_parse_props(t, p + 1, n.props, empty_node(n.name), line);
    let n1 = NodeV { props: seq![] + n.props, ..empty_node(n.name) };
    assert(seq![] + n.props =~= n.props);
    lemma_parse_args(t, p + 1 + pt.len(), n.args, n1, line);
    assert(seq![] + n.args =~= n.args);
    let hn = NodeV { name: n.name, props: n.props, args: n.args, children: seq![] };
    assert(NodeV { args: n1.args + n.args, ..n1 } == hn);
    assert(pnode(t, p) == pnode_loop(t, e, hn, line));
    if n.children.len() == 0 {
        assert(n == hn) by {
            assert(n.children =~= seq![]);
        }
    } else if all_leaves(n.children) {
        let lt = leaf_toks(n.children).flatten();
        assert(rest =~= seq![TokV::LBrace] + (lt + seq![TokV::RBrace]));
        lemma_occurs_split(t, e, seq![TokV::LBrace], lt + seq![TokV::RBrace]);
        lemma_occurs_split(t, e + 1, lt, seq![TokV::RBrace]);
        assert(leaf_toks(n.children).take(n.children.len() as int) =~= leaf_toks(n.children));
        lemma_parse_inline(t, e + 1, n, n.children.len() as int, seq![]);
        let ee = e + 1 + lt.len();
        assert(t[ee] == TokV::RBrace) by {
            assert(t[ee + 0] == seq![TokV::RBrace][0]);
        }
        assert(seq![] + n.children.take(n.children.len() as int) =~= n.children);
        assert(NodeV { children: n.children, ..hn } == n);
    } else {
        let bt = block_toks(n).flatten();
        assert(rest =~= seq![TokV::LBrace] + (seq![TokV::Newline] + (bt + seq![TokV::RBrace])));
        lemma_occurs_split(t, e, seq![TokV::LBrace], seq![TokV::Newline] + (bt + seq![TokV::RBrace]));
        lemma_occurs_split(t, e + 1, seq![TokV::Newline], bt + seq![TokV::RBrace]);
        lemma_occurs_split(t, e + 2, bt, seq![TokV::RBrace]);
        assert(t[e + 1] == TokV::Newline) by {
            assert(t[e + 1 + 0] == seq![TokV::Newline][0]);
        }
        assert(block_toks(n).take(n.children.len() as int) =~= block_toks(n));
        lemma_parse_block(t, e + 2, n, n.children.len() as int, seq![]);
        let ee = e + 2 + bt.len();
        assert(t[ee] == TokV::RBrace) by {
            assert(t[ee + 0] == seq![TokV::RBrace][0]);
        }
        assert(seq![] + n.children.take(n.children.len() as int) =~= n.children);
        assert(NodeV { children: n.children, ..hn } == n);
    }
}

proof fn lemma_parse_inline(t: Seq<TokV>, q: int, n: NodeV, k: int, acc: Seq<NodeV>)
    requires
        valid_node(n),
        all_leaves(n.children),
        0 <= k <= n.children.len(),
        occurs(t, q, leaf_toks(n.children).take(k).flatten()),
    ensures
        pn_loop(t, q, true, acc) == pn_loop(
            t,
            q + leaf_toks(n.children).take(k).flatten().len(),
            true,
            acc + n.children.take(k),
        ),
    decreases n, k,
{
    let ts = leaf_toks(n.children);
    if k == 0 {
        assert(ts.take(0) =~= Seq::<Seq<TokV>>::empty());
        assert(ts.take(0).flatten() =~= seq![]);
        assert(acc + n.children.take(0) =~= acc);
    } else {
        lemma_flatten_take(ts, k - 1);
        let prev = ts.take(k - 1).flatten();
        lemma_occurs_split(t, q, prev, ts[k - 1]);
        lemma_parse_inline(t, q, n, k - 1, acc);
        let c = n.children[k - 1];
        assert(valid_node(c));
        assert(c.children.len() == 0);
        assert(ts[k - 1] == node_toks(c));
        let q1 = q + prev.len();
        lemma_parse_node(t, q1, c);
        assert(t[q1] == TokV::Word(c.name)) by {
            assert(t[q1 + 0] == ts[k - 1][0]);
        }
        assert((acc + n.children.take(k - 1)).push(c) =~= acc + n.children.take(k));
    }
}

proof fn lemma_parse_block(t: Seq<TokV>, q: int, n: NodeV, k: int, acc: Seq<NodeV>)
    requires
        valid_node(n),
        0 <= k <= n.children.len(),
        occurs(t, q, block_toks(n).take(k).flatten()),
    ensures
        pn_loop(t, q, true, acc) == pn_loop(
            t,
            q + block_toks(n).take(k).flatten().len(),
            true,
            acc + n.children.take(k),
        ),
    decreases n, k,
{
    let ts = block_toks(n);
    if k == 0 {
        assert(ts.take(0) =~= Seq::<Seq<TokV>>::empty());
        assert(ts.take(0).flatten() =~= seq![]);
        assert(acc + n.children.take(0) =~= acc);
    } else {
        lemma_flatten_take(ts, k - 1);
        let prev = ts.take(k - 1).flatten();
        lemma_occurs_split(t, q, prev, ts[k - 1]);
        lemma_parse_block(t, q, n, k - 1, acc);
        let c = n.children[k - 1];
        assert(valid_node(c));
        assert(ts[k - 1] == node_toks(c) + seq![TokV::Newline]);
        let q1 = q + prev.len();
        lemma_occurs_split(t, q1, node_toks(c), seq![TokV::Newline]);
        lemma_parse_node(t, q1, c);
        assert(t[q1] == TokV::Word(c.name)) by {
            lemma_header_first(c);
            assert(t[q1 + 0] == node_toks(c)[0]);
        }
        let q2 = q1 + node_toks(c).len();
        assert(t[q2] == TokV::Newline) by {
            assert(t[q2 + 0] == seq![TokV::Newline][0]);
        }
        let acc1 = acc + n.children.take(k - 1);
        assert(acc1.push(c) =~= acc + n.children.take(k));
        assert(pn_loop(t, q1, true, acc1) == pn_loop(t, q2, true, acc1.push(c)));
        assert(pn_loop(t, q2, true, acc1.push(c)) == pn_loop(t, q2 + 1, true, acc1.push(c)));
        assert(q2 + 1 == q + ts.take(k).flatten().len());
    }
}

proof fn lemma_header_first(n: NodeV)
    ensures
        node_toks(n).len() > 0,
        node_toks(n)[0] == TokV::Word(n.name),
{
    let ht = header_toks(n);
    assert(ht[0] == TokV::Word(n.name));
    if n.children.len() == 0 {
        assert(node_toks(n)[0] == ht[0]);
    } else if all_leaves(n.children) {
        assert(node_toks(n)[0] == ht[0]);
    } else {
        assert(node_toks(n)[0] == ht[0]);
    }
}


/// Top-level nodes as written one per line, each rendered at indent 0.
pub open spec fn render_document(nodes: Seq<NodeV>) -> Seq<char> {
    doc_parts(nodes).flatten()
}

pub open spec fn doc_parts(nodes: Seq<NodeV>) -> Seq<Seq<char>> {
    Seq::new(nodes.len(), |i: int| render(nodes[i], 0) + seq!['\n'])
}

pub open spec fn doc_toks(nodes: Seq<NodeV>) -> Seq<Seq<TokV>> {
    Seq::new(nodes.len(), |i: int| node_toks(nodes[i]) + seq![TokV::Newline])
}

pub open spec fn all_valid(nodes: Seq<NodeV>) -> bool {
    forall|i: int| 0 <= i < nodes.len() ==> valid_node(#[trigger] nodes[i])
}

#[verifier::rlimit(50)]
#[verifier::spinoff_prover]
proof fn lemma_lex_doc(nodes: Seq<NodeV>, k: int) -> (l: nat)
    requires
        all_valid(nodes),
        0 <= k <= nodes.len(),
    ensures
        lex_at(render_document(nodes), 0, false, 1) == prepend(
            doc_toks(nodes).take(k).flatten(),
            lex_at(render_document(nodes), doc_parts(nodes).take(k).flatten().len() as int, k > 0, l),
        ),
    decreases k,
{
    let s = render_document(nodes);
    let ps = doc_parts(nodes);
    let ts = doc_toks(nodes);
    if k == 0 {
        assert(ts.take(0) =~= Seq::<Seq<TokV>>::empty());
        assert(ts.take(0).flatten() =~= seq![]);
        assert(ps.take(0) =~= Seq::<Seq<char>>::empty());
        assert(ps.take(0).flatten() =~= seq![]);
        lemma_prepend_nil(lex_at(s, 0, false, 1));
        1
    } else {
        let l1 = lemma_lex_doc(nodes, k - 1);
        lemma_flatten_take(ps, k - 1);
        lemma_flatten_take(ts, k - 1);
        let prev = ps.take(k - 1).flatten();
        assert(ps.take(k) + ps.skip(k) =~= ps);
        ps.take(k).lemma_flatten_and_flatten_alt_are_equivalent();
        assert(s == ps.flatten());
        lemma_flatten_append(ps.take(k), ps.skip(k));
        assert(at(s, 0, ps.take(k).flatten())) by {
            assert forall|j: int| 0 <= j < ps.take(k).flatten().len() implies s[0 + j] == ps.take(k).flatten()[j] by {
                assert(s == ps.take(k).flatten() + ps.skip(k).flatten());
            }
        }
        lemma_at_split(s, 0, prev, ps[k - 1]);
        let n = nodes[k - 1];
        assert(valid_node(n));
        let rn = render(n, 0);
        assert(ps[k - 1] == rn + seq!['\n']);
        lemma_at_split(s, prev.len() as int, rn, seq!['\n']);
        let l2 = lemma_lex_node(s, prev.len() as int, n, 0, k - 1 > 0, l1);
        let jn = (prev.len() + rn.len()) as int;
        assert(s[jn] == '\n') by {
            assert(s[jn + 0] == seq!['\n'][0]);
        }
        let l3 = next_line(l2);
        assert(lex_at(s, jn, false, l2) == prepend(seq![TokV::Newline], lex_at(s, jn + 1, true, l3)));
        let rest = lex_at(s, jn + 1, true, l3);
        lemma_prepend_assoc(node_toks(n), seq![TokV::Newline], rest);
        lemma_prepend_assoc(ts.take(k - 1).flatten(), node_toks(n) + seq![TokV::Newline], rest);
        l3
    }
}

proof fn lemma_flatten_append(a: Seq<Seq<char>>, b: Seq<Seq<char>>)
    ensures
        (a + b).flatten() == a.flatten() + b.flatten(),
    decreases b.len(),
{
    if b.len() == 0 {
        assert(a + b =~= a);
        assert(b.flatten() =~= seq![]) by {
            assert(b =~= Seq::<Seq<char>>::empty());
        }
        assert(a.flatten() + seq![] =~= a.flatten());
    } else {
        let bl = b.drop_last();
        assert(b =~= bl.push(b.last()));
        assert(a + b =~= (a + bl).push(b.last()));
        lemma_flatten_append(a, bl);
        (a + bl).lemma_flatten_push(b.last());
        bl.lemma_flatten_push(b.last());
        assert(a.flatten() + (bl.flatten() + b.last()) =~= (a.flatten() + bl.flatten()) + b.last());
    }
}

proof fn lemma_parse_doc(t: Seq<TokV>, nodes: Seq<NodeV>, k: int)
    requires
        all_valid(nodes),
        0 <= k <= nodes.len(),
        occurs(t, 0, doc_toks(nodes).take(k).flatten()),
    ensures
        pn_loop(t, 0, false, seq![]) == pn_loop(t, doc_toks(nodes).take(k).flatten().len() as int, false, nodes.take(k)),
    decreases k,
{
    let ts = doc_toks(nodes);
    if k == 0 {
        assert(ts.take(0) =~= Seq::<Seq<TokV>>::empty());
        assert(ts.take(0).flatten() =~= seq![]);
        assert(nodes.take(0) =~= seq![]);
    } else {
        lemma_flatten_take(ts, k - 1);
        let prev = ts.take(k - 1).flatten();
        lemma_occurs_split(t, 0, prev, ts[k - 1]);
        lemma_parse_doc(t, nodes, k - 1);
        let c = nodes[k - 1];
        assert(valid_node(c));
        let q1 = prev.len() as int;
        lemma_occurs_split(t, q1, node_toks(c), seq![TokV::Newline]);
        lemma_parse_node(t, q1, c);
        assert(t[q1] == TokV::Word(c.name)) by {
            lemma_header_first(c);
            assert(t[q1 + 0] == node_toks(c)[0]);
        }
        let q2 = q1 + node_toks(c).len();
        assert(t[q2] == TokV::Newline) by {
            assert(t[q2 + 0] == seq![TokV::Newline][0]);
        }
        let acc1 = nodes.take(k - 1);
        assert(acc1.push(c) =~= nodes.take(k));
        assert(pn_loop(t, q1, false, acc1) == pn_loop(t, q2, false, acc1.push(c)));
        assert(pn_loop(t, q2, false, acc1.push(c)) == pn_loop(t, q2 + 1, false, acc1.push(c)));
    }
}

/// Rendering well-formed nodes one per line and parsing the text back gives
/// exactly those nodes: names, properties, arguments (quoted strings with
/// any content included) and the whole child structure survive.
pub proof fn law_render_parse_roundtrip(nodes: Seq<NodeV>)
    requires
        all_valid(nodes),
    ensures
        parse_document_spec(render_document(nodes)) == Ok::<Seq<NodeV>, ErrV>(nodes),
{
    let s = render_document(nodes);
    let ps = doc_parts(nodes);
    let ts = doc_toks(nodes);
    let k = nodes.len() as int;
    assert(ps.take(k) =~= ps);
    assert(ts.take(k) =~= ts);
    let l = lemma_lex_doc(nodes, k);
    assert(lex_at(s, s.len() as int, k > 0, l) == Ok::<Seq<TokV>, ErrV>(seq![]));
    assert(ts.flatten() + seq![] =~= ts.flatten());
    assert(lex_spec(s) == Ok::<Seq<TokV>, ErrV>(ts.flatten()));
    let t = ts.flatten();
    assert(occurs(t, 0, ts.take(k).flatten())) by {
        assert forall|j: int| 0 <= j < t.len() implies t[0 + j] == ts.take(k).flatten()[j] by {}
    }
    lemma_parse_doc(t, nodes, k);
    assert(nodes.take(k) =~= nodes);
}

/// A single well-formed node, rendered at the top level, parses back to
/// itself.
pub proof fn law_render_parse_node(n: NodeV)
    requires
        valid_node(n),
    ensures
        parse_document_spec(render(n, 0)) == Ok::<Seq<NodeV>, ErrV>(seq![n]),
{
    let s = render(n, 0);
    assert(at(s, 0, s));
    let l = lemma_lex_node(s, 0, n, 0, false, 1);
    assert(lex_at(s, s.len() as int, false, l) == Ok::<Seq<TokV>, ErrV>(seq![]));
    assert(node_toks(n) + seq![] =~= node_toks(n));
    let t = node_toks(n);
    assert(lex_spec(s) == Ok::<Seq<TokV>, ErrV>(t));
    assert(occurs(t, 0, t));
    lemma_parse_node(t, 0, n);
    lemma_header_first(n);
    assert(pn_loop(t, 0, false, seq![]) == pn_loop(t, t.len() as int, false, seq![].push(n)));
    assert(seq![].push(n) =~= seq![n]);
}

/// A `//` comment line: two slashes, anything but a newline, then a newline.
pub open spec fn comment_line(l: Seq<char>) -> bool {
    &&& l.len() >= 3
    &&& l[0] == '/'
    &&& l[1] == '/'
    &&& l[l.len() - 1] == '\n'
    &&& forall|k: int| 2 <= k < l.len() - 1 ==> l[k] != '\n'
}

proof fn lemma_lex_comment_rest(s: Seq<char>, j: int, k: int, nl: bool, line: nat)
    requires
        0 <= k <= j < s.len(),
        s[j] == '\n',
        forall|q: int| k <= q < j ==> s[q] != '\n',
    ensures
        lex_comment(s, k, nl, line) == lex_at(s, j, nl, line),
    decreases j - k,
{
    if k < j {
        lemma_lex_comment_rest(s, j, k + 1, nl, line);
    }
}

proof fn lemma_lex_comment_line(s: Seq<char>, i: int, l: Seq<char>, nl: bool, line: nat)
    requires
        at(s, i, l),
        comment_line(l),
    ensures
        lex_at(s, i, nl, line) == prepend(
            if nl { seq![] } else { seq![TokV::Newline] },
            lex_at(s, i + l.len(), true, next_line(line)),
        ),
{
    let j = i + l.len() - 1;
    assert(s[i + 0] == l[0]);
    assert(s[i + 1] == l[1]);
    assert(s[j] == l[l.len() - 1]);
    assert forall|q: int| i + 2 <= q < j implies s[q] != '\n' by {
        assert(s[i + (q - i)] == l[q - i]);
    }
    lemma_lex_comment_rest(s, j, i + 2, nl, line);
}

proof fn lemma_lex_comments(s: Seq<char>, lines: Seq<Seq<char>>, k: int) -> (l: nat)
    requires
        0 <= k <= lines.len(),
        forall|q: int| 0 <= q < lines.len() ==> comment_line(#[trigger] lines[q]),
        at(s, 0, lines.take(k).flatten()),
    ensures
        lex_at(s, 0, false, 1) == prepend(
            if k > 0 { seq![TokV::Newline] } else { seq![] },
            lex_at(s, lines.take(k).flatten().len() as int, k > 0, l),
        ),
    decreases k,
{
    if k == 0 {
        assert(lines.take(0) =~= Seq::<Seq<char>>::empty());
        assert(lines.take(0).flatten() =~= seq![]);
        lemma_prepend_nil(lex_at(s, 0, false, 1));
        1
    } else {
        lemma_flatten_take(lines, k - 1);
        let prev = lines.take(k - 1).flatten();
        lemma_at_split(s, 0, prev, lines[k - 1]);
        let l1 = lemma_lex_comments(s, lines, k - 1);
        lemma_lex_comment_line(s, prev.len() as int, lines[k - 1], k - 1 > 0, l1);
        let rest = lex_at(s, lines.take(k).flatten().len() as int, true, next_line(l1));
        if k - 1 > 0 {
            lemma_prepend_nil(rest);
        } else {
            lemma_prepend_nil(prepend(seq![TokV::Newline], rest));
        }
        next_line(l1)
    }
}

/// Comment lines before a node are skipped: comment lines, then one
/// well-formed node rendered at the top level and a newline, parse to that
/// node alone.
pub proof fn law_comments_then_node(lines: Seq<Seq<char>>, n: NodeV)
    requires
        forall|q: int| 0 <= q < lines.len() ==> comment_line(#[trigger] lines[q]),
        valid_node(n),
    ensures
        parse_document_spec(lines.flatten() + render(n, 0) + seq!['\n']) == Ok::<Seq<NodeV>, ErrV>(seq![n]),
{
    let h = lines.flatten();
    let r = render(n, 0);
    let s = h + r + seq!['\n'];
    let k = lines.len() as int;
    assert(lines.take(k) =~= lines);
    assert(at(s, 0, h)) by {
        assert forall|j: int| 0 <= j < h.len() implies s[0 + j] == h[j] by {}
    }
    let l = lemma_lex_comments(s, lines, k);
    let nl = k > 0;
    assert(at(s, h.len() as int, r)) by {
        assert forall|j: int| 0 <= j < r.len() implies s[h.len() + j] == r[j] by {}
    }
    let l2 = lemma_lex_node(s, h.len() as int, n, 0, nl, l);
    let jn = (h.len() + r.len()) as int;
    assert(s[jn] == '\n');
    assert(lex_at(s, jn, false, l2) == prepend(seq![TokV::Newline], lex_at(s, jn + 1, true, next_line(l2))));
    assert(lex_at(s, jn + 1, true, next_line(l2)) == Ok::<Seq<TokV>, ErrV>(seq![]));
    let pre = if nl { seq![TokV::Newline] } else { Seq::<TokV>::empty() };
    let nt = node_toks(n);
    let t = pre + nt + seq![TokV::Newline];
    assert(nt + (seq![TokV::Newline] + seq![]) =~= nt + seq![TokV::Newline]);
    assert(pre + (nt + seq![TokV::Newline]) =~= t);
    assert(lex_spec(s) == Ok::<Seq<TokV>, ErrV>(t));
    let p = pre.len() as int;
    assert(occurs(t, p, nt)) by {
        assert forall|j: int| 0 <= j < nt.len() implies t[p + j] == nt[j] by {}
    }
    lemma_parse_node(t, p, n);
    lemma_header_first(n);
    assert(t[p] == TokV::Word(n.name)) by {
        assert(t[p + 0] == nt[0]);
    }
    let q = p + nt.len();
    assert(t[q] == TokV::Newline);
    assert(pn_loop(t, 0, false, seq![]) == pn_loop(t, p, false, seq![]));
    assert(pn_loop(t, p, false, seq![]) == pn_loop(t, q, false, seq![].push(n)));
    assert(pn_loop(t, q, false, seq![].push(n)) == pn_loop(t, q + 1, false, seq![].push(n)));
    assert(seq![].push(n) =~= seq![n]);
}

// --- a node written as a block ------------------------------------------

/// A node with children, written as a multi-line block whatever its
/// children are: header, ` {`, each child one level deeper on a line of its
/// own, then `}` at the node's indent.
pub open spec fn block_form(n: NodeV, ind: nat) -> Seq<char> {
    header(n, ind) + seq![' ', '{', '\n'] + block_parts(n, ind).flatten() + pad(ind) + seq!['}']
}

/// The tokens of [`block_form`].
pub open spec fn block_form_toks(n: NodeV) -> Seq<TokV> {
    header_toks(n) + seq![TokV::LBrace, TokV::Newline] + block_toks(n).flatten() + seq![TokV::RBrace]
}

proof fn lemma_lex_block_form(s: Seq<char>, i: int, n: NodeV, ind: nat, nl: bool, line: nat) -> (l2: nat)
    requires
        valid_node(n),
        at(s, i, block_form(n, ind)),
    ensures
        lex_at(s, i, nl, line) == prepend(block_form_toks(n), lex_at(s, i + block_form(n, ind).len(), false, l2)),
{
    let h = header(n, ind);
    let r = block_form(n, ind);
    let parts = block_parts(n, ind);
    let body = parts.flatten();
    lemma_at_split(s, i, h + seq![' ', '{', '\n'] + body + pad(ind), seq!['}']);
    lemma_at_split(s, i, h + seq![' ', '{', '\n'] + body, pad(ind));
    lemma_at_split(s, i, h + seq![' ', '{', '\n'], body);
    lemma_at_split(s, i, h, seq![' ', '{', '\n']);
    let j = i + h.len();
    assert(s[j] == ' ' && s[j + 1] == '{' && s[j + 2] == '\n') by {
        assert(s[j + 0] == seq![' ', '{', '\n'][0]);
        assert(s[j + 1] == seq![' ', '{', '\n'][1]);
        assert(s[j + 2] == seq![' ', '{', '\n'][2]);
    }
    lemma_lex_header(s, i, n, ind, nl, line);
    lemma_lex_spaces(s, j, 1, false, line);
    lemma_lex_char(s, j + 1, false, line);
    let jb = j + 3;
    let line1 = next_line(line);
    assert(lex_at(s, j + 2, false, line) == prepend(seq![TokV::Newline], lex_at(s, jb, true, line1)));
    assert(parts.take(n.children.len() as int) =~= parts);
    assert(block_toks(n).take(n.children.len() as int) =~= block_toks(n));
    let l3 = lemma_lex_block(s, jb, n, ind, n.children.len() as int, line1);
    let jp = jb + body.len();
    let p = pad(ind);
    assert forall|m: int| jp <= m < jp + p.len() implies s[m] == ' ' by {
        assert(s[jp + (m - jp)] == p[m - jp]);
    }
    lemma_lex_spaces(s, jp, p.len() as int, true, l3);
    let jc = jp + p.len();
    assert(s[jc] == '}') by {
        assert(s[jc + 0] == seq!['}'][0]);
    }
    lemma_lex_char(s, jc, true, l3);
    let bt = block_toks(n).flatten();
    let rest = lex_at(s, jc + 1, false, l3);
    lemma_prepend_assoc(bt, seq![TokV::RBrace], rest);
    lemma_prepend_assoc(seq![TokV::Newline], bt + seq![TokV::RBrace], rest);
    lemma_prepend_assoc(seq![TokV::LBrace], seq![TokV::Newline] + (bt + seq![TokV::RBrace]), rest);
    lemma_prepend_assoc(header_toks(n), seq![TokV::LBrace] + (seq![TokV::Newline] + (bt + seq![TokV::RBrace])), rest);
    assert(header_toks(n) + (seq![TokV::LBrace] + (seq![TokV::Newline] + (bt + seq![TokV::RBrace]))) =~= block_form_toks(n));
    assert(i + r.len() == jc + 1);
    l3
}

proof fn lemma_parse_block_form(t: Seq<TokV>, p: int, n: NodeV)
    requires
        valid_node(n),
        occurs(t, p, block_form_toks(n)),
    ensures
        pnode(t, p) == Ok::<(NodeV, int), ErrV>((n, p + block_form_toks(n).len())),
{
    let ht = header_toks(n);
    let pt = props_toks(n.props);
    let at_ = args_toks(n.args);
    let bt = block_toks(n).flatten();
    let rest = seq![TokV::LBrace] + (seq![TokV::Newline] + (bt + seq![TokV::RBrace]));
    assert(block_form_toks(n) =~= ht + rest);
    lemma_occurs_split(t, p, ht, rest);
    assert(ht =~= seq![TokV::Word(n.name)] + (pt + at_));
    lemma_occurs_split(t, p, seq![TokV::Word(n.name)], pt + at_);
    lemma_occurs_split(t, p + 1, pt, at_);
    assert(t[p] == TokV::Word(n.name)) by {
        assert(t[p + 0] == ht[0]);
    }
    let line = tok_line(t, p);
    let e = p + ht.len();
    lemma_occurs_split(t, e, seq![TokV::LBrace], seq![TokV::Newline] + (bt + seq![TokV::RBrace]));
    lemma_occurs_split(t, e + 1, seq![TokV::Newline], bt + seq![TokV::RBrace]);
    lemma_occurs_split(t, e + 2, bt, seq![TokV::RBrace]);
    assert(t[e] == TokV::LBrace) by {
        assert(t[e + 0] == seq![TokV::LBrace][0]);
    }
    assert(pnode(t, p) == pnode_loop(t, p + 1, empty_node(n.name), line));
    lemma_parse_props(t, p + 1, n.props, empty_node(n.name), line);
    let n1 = NodeV { props: seq![] + n.props, ..empty_node(n.name) };
    assert(seq![] + n.props =~= n.props);
    lemma_parse_args(t, p + 1 + pt.len(), n.args, n1, line);
    assert(seq![] + n.args =~= n.args);
    let hn = NodeV { name: n.name, props: n.props, args: n.args, children: seq![] };
    assert(NodeV { args: n1.args + n.args, ..n1 } == hn);
    assert(pnode(t, p) == pnode_loop(t, e, hn, line));
    assert(t[e + 1] == TokV::Newline) by {
        assert(t[e + 1 + 0] == seq![TokV::Newline][0]);
    }
    assert(block_toks(n).take(n.children.len() as int) =~= block_toks(n));
    lemma_parse_block(t, e + 2, n, n.children.len() as int, seq![]);
    let ee = e + 2 + bt.len();
    assert(t[ee] == TokV::RBrace) by {
        assert(t[ee + 0] == seq![TokV::RBrace][0]);
    }
    assert(seq![] + n.children.take(n.children.len() as int) =~= n.children);
    assert(NodeV { children: n.children, ..hn } == n);
    assert(pn_loop(t, e + 1, true, seq![]) == pn_loop(t, e + 2, true, seq![]));
    assert(pn_loop(t, ee, true, n.children) == Ok::<(Seq<NodeV>, int), ErrV>((n.children, ee + 1)));
    assert(pnode_loop(t, e, hn, line) == Ok::<(NodeV, int), ErrV>((n, ee + 1)));
    assert(ee + 1 == p + block_form_toks(n).len());
}

/// A well-formed node written as a block at the top level parses back to
/// itself, whether or not its children have children of their own.
pub proof fn lemma_block_form_parses(n: NodeV)
    requires
        valid_node(n),
    ensures
        parse_document_spec(block_form(n, 0)) == Ok::<Seq<NodeV>, ErrV>(seq![n]),
{
    let s = block_form(n, 0);
    assert(at(s, 0, s));
    let l = lemma_lex_block_form(s, 0, n, 0, false, 1);
    assert(lex_at(s, s.len() as int, false, l) == Ok::<Seq<TokV>, ErrV>(seq![]));
    assert(block_form_toks(n) + seq![] =~= block_form_toks(n));
    let t = block_form_toks(n);
    assert(lex_spec(s) == Ok::<Seq<TokV>, ErrV>(t));
    assert(occurs(t, 0, t));
    lemma_parse_block_form(t, 0, n);
    assert(t[0] == TokV::Word(n.name)) by {
        assert(t[0] == header_toks(n)[0]);
    }
    assert(pn_loop(t, 0, false, seq![]) == pn_loop(t, t.len() as int, false, seq![].push(n)));
    assert(seq![].push(n) =~= seq![n]);
}

/// A text left bare by [`crate::kdl::Arg::from_user_text`] is a word the
/// lexer reads back as one word token; so every argument made from user
/// text is one the renderer writes and the parser reads back.
pub proof fn law_bare_token_is_word(s: Seq<char>)
    ensures
        crate::kdl::bare_token(s) ==> valid_word(s),
        valid_arg(if crate::kdl::bare_token(s) { ArgV::Word(s) } else { ArgV::Str(s) }),
{
}

/// A well-formed node rendered at any indent parses back to itself.
pub proof fn law_render_parse_node_at(n: NodeV, k: nat)
    requires
        valid_node(n),
    ensures
        parse_document_spec(render(n, k)) == Ok::<Seq<NodeV>, ErrV>(seq![n]),
{
    let s = render(n, k);
    assert(at(s, 0, s));
    let l = lemma_lex_node(s, 0, n, k, false, 1);
    assert(lex_at(s, s.len() as int, false, l) == Ok::<Seq<TokV>, ErrV>(seq![]));
    assert(node_toks(n) + seq![] =~= node_toks(n));
    let t = node_toks(n);
    assert(lex_spec(s) == Ok::<Seq<TokV>, ErrV>(t));
    assert(occurs(t, 0, t));
    lemma_parse_node(t, 0, n);
    lemma_header_first(n);
    assert(pn_loop(t, 0, false, seq![]) == pn_loop(t, t.len() as int, false, seq![].push(n)));
    assert(seq![].push(n) =~= seq![n]);
}

/// `name {`, one child rendered at indent `k` on a line of its own, `}`.
pub open spec fn one_child_block(name: Seq<char>, c: NodeV, k: nat) -> Seq<char> {
    name + seq![' ', '{', '\n'] + render(c, k) + seq!['\n', '}']
}

/// A block holding one well-formed child, whatever the child's indent,
/// parses to the node with that one child.
#[verifier::rlimit(50)]
#[verifier::spinoff_prover]
pub proof fn lemma_one_child_block_parses(name: Seq<char>, c: NodeV, k: nat)
    requires
        valid_word(name),
        valid_node(c),
    ensures
        parse_document_spec(one_child_block(name, c, k)) == Ok::<Seq<NodeV>, ErrV>(
            seq![NodeV { name, props: seq![], args: seq![], children: seq![c] }],
        ),
{
    let g = NodeV { name, props: seq![], args: seq![], children: seq![c] };
    assert(valid_node(g)) by {
        assert(g.children[0] == c);
    }
    let s = one_child_block(name, c, k);
    let h = header(g, 0);
    assert(crate::kdl::pad(0) =~= Seq::<char>::empty());
    assert(h =~= name);
    let rc = render(c, k);
    assert(s =~= h + seq![' ', '{', '\n'] + rc + seq!['\n'] + seq!['}']);
    assert(at(s, 0, s));
    lemma_at_split(s, 0, h + seq![' ', '{', '\n'] + rc + seq!['\n'], seq!['}']);
    lemma_at_split(s, 0, h + seq![' ', '{', '\n'] + rc, seq!['\n']);
    lemma_at_split(s, 0, h + seq![' ', '{', '\n'], rc);
    lemma_at_split(s, 0, h, seq![' ', '{', '\n']);
    let j = h.len() as int;
    assert(s[j] == ' ' && s[j + 1] == '{' && s[j + 2] == '\n') by {
        assert(s[j + 0] == seq![' ', '{', '\n'][0]);
        assert(s[j + 1] == seq![' ', '{', '\n'][1]);
        assert(s[j + 2] == seq![' ', '{', '\n'][2]);
    }
    lemma_lex_header(s, 0, g, 0, false, 1);
    lemma_lex_spaces(s, j, 1, false, 1);
    lemma_lex_char(s, j + 1, false, 1);
    let jb = j + 3;
    let line1 = next_line(1);
    assert(lex_at(s, j + 2, false, 1) == prepend(seq![TokV::Newline], lex_at(s, jb, true, line1)));
    let l2 = lemma_lex_node(s, jb, c, k, true, line1);
    let jn = jb + rc.len();
    assert(s[jn] == '\n') by {
        assert(s[jn + 0] == seq!['\n'][0]);
    }
    let l3 = next_line(l2);
    assert(lex_at(s, jn, false, l2) == prepend(seq![TokV::Newline], lex_at(s, jn + 1, true, l3)));
    assert(s[jn + 1] == '}') by {
        assert(s[jn + 1 + 0] == seq!['}'][0]);
    }
    lemma_lex_char(s, jn + 1, true, l3);
    assert(jn + 2 == s.len());
    assert(lex_at(s, jn + 2, false, l3) == Ok::<Seq<TokV>, ErrV>(seq![]));
    let tc = node_toks(c);
    let t = header_toks(g) + seq![TokV::LBrace, TokV::Newline] + (tc + seq![TokV::Newline]) + seq![TokV::RBrace];
    assert(lex_at(s, jn + 1, true, l3) == Ok::<Seq<TokV>, ErrV>(seq![TokV::RBrace])) by {
        assert(seq![TokV::RBrace] + Seq::<TokV>::empty() =~= seq![TokV::RBrace]);
    }
    assert(lex_at(s, jn, false, l2) == Ok::<Seq<TokV>, ErrV>(seq![TokV::Newline, TokV::RBrace])) by {
        assert(seq![TokV::Newline] + seq![TokV::RBrace] =~= seq![TokV::Newline, TokV::RBrace]);
    }
    assert(lex_at(s, jb, true, line1) == Ok::<Seq<TokV>, ErrV>(tc + seq![TokV::Newline, TokV::RBrace]));
    assert(lex_at(s, j + 2, false, 1) == Ok::<Seq<TokV>, ErrV>(seq![TokV::Newline] + (tc + seq![TokV::Newline, TokV::RBrace])));
    assert(lex_at(s, j, false, 1) == Ok::<Seq<TokV>, ErrV>(
        seq![TokV::LBrace] + (seq![TokV::Newline] + (tc + seq![TokV::Newline, TokV::RBrace])),
    ));
    assert(header_toks(g) + (seq![TokV::LBrace] + (seq![TokV::Newline] + (tc + seq![TokV::Newline, TokV::RBrace]))) =~= t);
    assert(lex_spec(s) == Ok::<Seq<TokV>, ErrV>(t));
    assert(block_toks(g) =~= seq![tc + seq![TokV::Newline]]) by {
        assert(block_toks(g)[0] == node_toks(g.children[0]) + seq![TokV::Newline]);
    }
    assert(block_toks(g).flatten() =~= tc + seq![TokV::Newline]) by {
        let e = Seq::<Seq<TokV>>::empty();
        e.lemma_flatten_push(tc + seq![TokV::Newline]);
        assert(e.push(tc + seq![TokV::Newline]) =~= block_toks(g));
        assert(e.flatten() =~= Seq::<TokV>::empty());
    }
    assert(t =~= block_form_toks(g));
    assert(occurs(t, 0, t));
    lemma_parse_block_form(t, 0, g);
    assert(t[0] == TokV::Word(name)) by {
        assert(t[0] == header_toks(g)[0]);
    }
    assert(pn_loop(t, 0, false, seq![]) == pn_loop(t, t.len() as int, false, seq![].push(g)));
    assert(seq![].push(g) =~= seq![g]);
}


proof fn lemma_escape_no_controls(s: Seq<char>)
    ensures
        forall|j: int|
            0 <= j < escape(s).len() ==> #[trigger] escape(s)[j] != '\n' && escape(s)[j] != '\r' && escape(s)[j]
                != '\t',
    decreases s.len(),
{
    if s.len() > 0 {
        lemma_escape_no_controls(s.drop_last());
        let a = escape(s.drop_last());
        let e = escape_char(s.last());
        assert(escape(s) == a + e);
        assert forall|j: int| 0 <= j < escape(s).len() implies #[trigger] escape(s)[j] != '\n' && escape(s)[j]
            != '\r' && escape(s)[j] != '\t' by {
            if j < a.len() {
                assert(escape(s)[j] == a[j]);
            } else {
                assert(escape(s)[j] == e[j - a.len()]);
            }
        }
    }
}

proof fn lemma_ends_str_rest(s: Seq<char>, i: int, x: Seq<char>, k: int)
    requires
        at(s, i, quoted(x)),
        0 <= k <= x.len(),
    ensures
        ends_str(s, i + 1 + escape(x.take(k)).len()) == seq![(i + quoted(x).len()) as nat] + ends_at(
            s,
            i + quoted(x).len(),
            false,
        ),
    decreases x.len() - k,
{
    let q = quoted(x);
    assert(q == seq!['"'] + escape(x) + seq!['"']);
    lemma_at_split(s, i, seq!['"'] + escape(x), seq!['"']);
    lemma_at_split(s, i, seq!['"'], escape(x));
    lemma_escape_concat(x.take(k), x.skip(k));
    assert(x.take(k) + x.skip(k) =~= x);
    let e0 = escape(x.take(k));
    let j = i + 1 + e0.len();
    if k == x.len() {
        assert(x.take(k) =~= x);
        assert(s[j] == '"') by {
            assert(q[q.len() - 1] == '"');
        }
    } else {
        let c = x[k];
        assert(x.take(k + 1).drop_last() =~= x.take(k));
        assert(x.take(k + 1).last() == c);
        assert(escape(x.take(k + 1)) == e0 + escape_char(c));
        lemma_escape_concat(x.take(k + 1), x.skip(k + 1));
        assert(x.take(k + 1) + x.skip(k + 1) =~= x);
        let ec = escape_char(c);
        assert(escape(x) == e0 + ec + escape(x.skip(k + 1)));
        lemma_at_split(s, i + 1, e0 + ec, escape(x.skip(k + 1)));
        lemma_at_split(s, i + 1, e0, ec);
        assert(forall|m: int| 0 <= m < ec.len() ==> s[j + m] == ec[m]);
        lemma_ends_str_rest(s, i, x, k + 1);
        if c == '"' {
            assert(s[j] == '\\' && s[j + 1] == '"');
        } else if c == '\\' {
            assert(s[j] == '\\' && s[j + 1] == '\\');
        } else if c == '\n' {
            assert(s[j] == '\\' && s[j + 1] == 'n');
        } else if c == '\t' {
            assert(s[j] == '\\' && s[j + 1] == 't');
        } else if c == '\r' {
            assert(s[j] == '\\' && s[j + 1] == 'r');
        } else {
            assert(ec == seq![c]);
            assert(s[j + 0] == ec[0]);
            assert(s[j] == c);
        }
    }
}

/// `quote` writes a string literal: it starts and ends with `"`, holds no
/// raw newline, carriage return or tab, and the lexer reads it back as one
/// string token holding exactly the text that was quoted, whose offset is
/// the length of the literal.
pub proof fn law_quote_lexes_back(s: Seq<char>)
    ensures
        quoted(s).len() >= 2,
        quoted(s)[0] == '"',
        quoted(s).last() == '"',
        forall|j: int|
            0 <= j < quoted(s).len() ==> #[trigger] quoted(s)[j] != '\n' && quoted(s)[j] != '\r' && quoted(s)[j]
                != '\t',
        lex_spec(quoted(s)) == Ok::<Seq<TokV>, ErrV>(seq![TokV::Str(s)]),
        lex_ends(quoted(s)) == seq![quoted(s).len()],
{
    let q = quoted(s);
    lemma_escape_no_controls(s);
    assert forall|j: int| 0 <= j < q.len() implies #[trigger] q[j] != '\n' && q[j] != '\r' && q[j] != '\t' by {
        if 1 <= j < q.len() - 1 {
            assert(q[j] == escape(s)[j - 1]);
        }
    }
    assert(at(q, 0, q));
    lemma_lex_quoted(q, 0, s, false, 1);
    assert(lex_at(q, q.len() as int, false, 1) == Ok::<Seq<TokV>, ErrV>(seq![]));
    assert(seq![TokV::Str(s)] + Seq::<TokV>::empty() =~= seq![TokV::Str(s)]);
    assert(s.take(0) =~= seq![]);
    assert(escape(seq![]) =~= seq![]);
    lemma_ends_str_rest(q, 0, s, 0);
    assert(ends_at(q, q.len() as int, false) =~= Seq::<nat>::empty());
    assert(seq![q.len()] + Seq::<nat>::empty() =~= seq![q.len()]);
}

} // verus!
