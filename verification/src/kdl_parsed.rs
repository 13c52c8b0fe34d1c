//! What parsing gives back is well formed: every bare word the lexer emits is
//! a word it reads back whole, every node the parser builds holds only such
//! words, and so every parsed node, at any depth, renders back to itself.

use vstd::prelude::*;
use crate::kdl::{
    ArgV, NodeV, TokV, ErrV, lex_at, lex_word, lex_str, lex_comment, prepend, is_word_start, is_word_char,
    next_line, pn_loop, pnode, pnode_loop, pnode_nl, empty_node, tok_line, lex_spec, parse_document_spec, render,
};
use crate::kdl_laws::{valid_word, valid_arg, valid_node, all_valid, law_render_parse_node_at};

verus! {

/// Every bare-word token of `t` is a word the lexer reads back whole.
pub open spec fn words_valid(t: Seq<TokV>) -> bool {
    forall|k: int| 0 <= k < t.len() && (#[trigger] t[k]) is Word ==> valid_word(t[k]->Word_0)
}

/// A lexing result that, where it succeeds, holds only valid words.
pub open spec fn lexed_words_valid(r: Result<Seq<TokV>, ErrV>) -> bool {
    match r {
        Ok(t) => words_valid(t),
        Err(_) => true,
    }
}

proof fn lemma_prepend_words(a: Seq<TokV>, r: Result<Seq<TokV>, ErrV>)
    requires
        words_valid(a),
        lexed_words_valid(r),
    ensures
        lexed_words_valid(prepend(a, r)),
{
    if let Ok(b) = r {
        assert forall|k: int| 0 <= k < (a + b).len() && (#[trigger] (a + b)[k]) is Word implies valid_word(
            (a + b)[k]->Word_0,
        ) by {
            if k < a.len() {
                assert((a + b)[k] == a[k]);
            } else {
                assert((a + b)[k] == b[k - a.len()]);
            }
        }
    }
}

proof fn lemma_one_token(t: TokV)
    requires
        t is Word ==> valid_word(t->Word_0),
    ensures
        words_valid(seq![t]),
{
    assert forall|k: int| 0 <= k < seq![t].len() && (#[trigger] seq![t][k]) is Word implies valid_word(
        seq![t][k]->Word_0,
    ) by {
        assert(seq![t][k] == t);
    }
}

proof fn lemma_lex_at_words(b: Seq<char>, i: int, nl: bool, line: nat)
    ensures
        lexed_words_valid(lex_at(b, i, nl, line)),
    decreases b.len() - i, 0nat,
{
    if 0 <= i < b.len() {
        let c = b[i];
        if c == ' ' || c == '\t' || c == '\r' {
            lemma_lex_at_words(b, i + 1, nl, line);
        } else if c == '\n' {
            lemma_lex_at_words(b, i + 1, true, next_line(line));
            lemma_one_token(TokV::Newline);
            assert(words_valid(Seq::<TokV>::empty()));
            lemma_prepend_words(if nl { seq![] } else { seq![TokV::Newline] }, lex_at(b, i + 1, true, next_line(line)));
        } else if c == '/' && i + 1 < b.len() && b[i + 1] == '/' {
            lemma_lex_comment_words(b, i + 2, nl, line);
        } else if c == '{' || c == '}' || c == ';' || c == '=' {
            lemma_lex_at_words(b, i + 1, false, line);
            let t = if c == '{' {
                TokV::LBrace
            } else if c == '}' {
                TokV::RBrace
            } else if c == ';' {
                TokV::Semi
            } else {
                TokV::Equals
            };
            lemma_one_token(t);
            lemma_prepend_words(seq![t], lex_at(b, i + 1, false, line));
        } else if c == '"' {
            lemma_lex_str_words(b, i + 1, seq![], line);
        } else if is_word_start(c) {
            lemma_lex_word_words(b, i + 1, seq![c], line);
        }
    }
}

proof fn lemma_lex_comment_words(b: Seq<char>, i: int, nl: bool, line: nat)
    ensures
        lexed_words_valid(lex_comment(b, i, nl, line)),
    decreases b.len() - i, 1nat,
{
    if 0 <= i < b.len() && b[i] != '\n' {
        lemma_lex_comment_words(b, i + 1, nl, line);
    } else {
        lemma_lex_at_words(b, i, nl, line);
    }
}

proof fn lemma_lex_word_words(b: Seq<char>, i: int, w: Seq<char>, line: nat)
    requires
        valid_word(w),
    ensures
        lexed_words_valid(lex_word(b, i, w, line)),
    decreases b.len() - i, 1nat,
{
    if 0 <= i < b.len() && is_word_char(b[i]) {
        let w2 = w.push(b[i]);
        assert(valid_word(w2)) by {
            assert(w2[0] == w[0]);
            assert forall|k: int| 0 <= k < w2.len() implies is_word_char(#[trigger] w2[k]) by {
                if k < w.len() {
                    assert(w2[k] == w[k]);
                }
            }
        }
        lemma_lex_word_words(b, i + 1, w2, line);
    } else {
        lemma_lex_at_words(b, i, false, line);
        lemma_one_token(TokV::Word(w));
        lemma_prepend_words(seq![TokV::Word(w)], lex_at(b, i, false, line));
    }
}

proof fn lemma_lex_str_words(b: Seq<char>, i: int, acc: Seq<char>, line: nat)
    ensures
        lexed_words_valid(lex_str(b, i, acc, line)),
    decreases b.len() - i, 1nat,
{
    if 0 <= i < b.len() {
        let c = b[i];
        if c == '"' {
            lemma_lex_at_words(b, i + 1, false, line);
            lemma_one_token(TokV::Str(acc));
            lemma_prepend_words(seq![TokV::Str(acc)], lex_at(b, i + 1, false, line));
        } else if c == '\n' {
        } else if c == '\\' {
            if i + 1 < b.len() {
                let e = b[i + 1];
                if e == '"' {
                    lemma_lex_str_words(b, i + 2, acc.push('"'), line);
                } else if e == '\\' {
                    lemma_lex_str_words(b, i + 2, acc.push('\\'), line);
                } else if e == 'n' {
                    lemma_lex_str_words(b, i + 2, acc.push('\n'), line);
                } else if e == 't' {
                    lemma_lex_str_words(b, i + 2, acc.push('\t'), line);
                } else if e == 'r' {
                    lemma_lex_str_words(b, i + 2, acc.push('\r'), line);
                } else if e == 'u' {
                    lemma_lex_str_words(b, i + 2, acc + seq!['\\', 'u'], line);
                }
            }
        } else {
            lemma_lex_str_words(b, i + 1, acc.push(c), line);
        }
    }
}

/// Every bare word the lexer emits is a word it reads back whole.
pub proof fn law_lexed_words_valid(src: Seq<char>)
    ensures
        lexed_words_valid(lex_spec(src)),
{
    lemma_lex_at_words(src, 0, false, 1);
}


pub open spec fn nodes_result_valid(r: Result<(Seq<NodeV>, int), ErrV>) -> bool {
    match r {
        Ok((ns, _)) => all_valid(ns),
        Err(_) => true,
    }
}

pub open spec fn node_result_valid(r: Result<(NodeV, int), ErrV>) -> bool {
    match r {
        Ok((n, _)) => valid_node(n),
        Err(_) => true,
    }
}

proof fn lemma_pn_loop_valid(t: Seq<TokV>, pos: int, in_block: bool, acc: Seq<NodeV>)
    requires
        words_valid(t),
        all_valid(acc),
    ensures
        nodes_result_valid(pn_loop(t, pos, in_block, acc)),
    decreases t.len() - pos, 2nat,
{
    if 0 <= pos < t.len() {
        match t[pos] {
            TokV::Newline => lemma_pn_loop_valid(t, pos + 1, in_block, acc),
            TokV::Semi => lemma_pn_loop_valid(t, pos + 1, in_block, acc),
            TokV::Word(_) => {
                lemma_pnode_valid(t, pos);
                if let Ok((n, q)) = pnode(t, pos) {
                    if pos < q <= t.len() {
                        assert(all_valid(acc.push(n))) by {
                            assert forall|k: int| 0 <= k < acc.push(n).len() implies valid_node(
                                #[trigger] acc.push(n)[k],
                            ) by {
                                if k < acc.len() {
                                    assert(acc.push(n)[k] == acc[k]);
                                }
                            }
                        }
                        lemma_pn_loop_valid(t, q, in_block, acc.push(n));
                    }
                }
            },
            _ => {},
        }
    }
}

proof fn lemma_pnode_valid(t: Seq<TokV>, p: int)
    requires
        words_valid(t),
    ensures
        node_result_valid(pnode(t, p)),
    decreases t.len() - p, 1nat,
{
    if 0 <= p < t.len() && t[p] is Word {
        let n = empty_node(t[p]->Word_0);
        assert(valid_node(n));
        lemma_pnode_loop_valid(t, p + 1, n, tok_line(t, p));
    }
}

proof fn lemma_pnode_loop_valid(t: Seq<TokV>, p: int, node: NodeV, line: nat)
    requires
        words_valid(t),
        valid_node(node),
    ensures
        node_result_valid(pnode_loop(t, p, node, line)),
    decreases t.len() - p, 0nat,
{
    if 0 <= p < t.len() {
        match t[p] {
            TokV::Word(w) => {
                assert(valid_word(w)) by {
                    assert(t[p] is Word);
                }
                if p + 1 < t.len() && t[p + 1] is Equals {
                    if p + 2 < t.len() && (t[p + 2] is Word || t[p + 2] is Str) {
                        let v = if t[p + 2] is Word {
                            ArgV::Word(t[p + 2]->Word_0)
                        } else {
                            ArgV::Str(t[p + 2]->Str_0)
                        };
                        assert(valid_arg(v));
                        let ps = node.props.push((w, v));
                        let n2 = NodeV { props: ps, ..node };
                        assert(valid_node(n2)) by {
                            assert forall|i: int| 0 <= i < ps.len() implies valid_word(#[trigger] ps[i].0)
                                && valid_arg(ps[i].1) by {
                                if i < node.props.len() {
                                    assert(ps[i] == node.props[i]);
                                }
                            }
                        }
                        lemma_pnode_loop_valid(t, p + 3, n2, line);
                    }
                } else {
                    let a = node.args.push(ArgV::Word(w));
                    let n2 = NodeV { args: a, ..node };
                    assert(valid_node(n2)) by {
                        assert forall|i: int| 0 <= i < a.len() implies valid_arg(#[trigger] a[i]) by {
                            if i < node.args.len() {
                                assert(a[i] == node.args[i]);
                            }
                        }
                    }
                    lemma_pnode_loop_valid(t, p + 1, n2, line);
                }
            },
            TokV::Str(x) => {
                let a = node.args.push(ArgV::Str(x));
                let n2 = NodeV { args: a, ..node };
                assert(valid_node(n2)) by {
                    assert forall|i: int| 0 <= i < a.len() implies valid_arg(#[trigger] a[i]) by {
                        if i < node.args.len() {
                            assert(a[i] == node.args[i]);
                        }
                    }
                }
                lemma_pnode_loop_valid(t, p + 1, n2, line);
            },
            TokV::LBrace => {
                lemma_pn_loop_valid(t, p + 1, true, seq![]);
            },
            TokV::Newline => {
                lemma_pnode_nl_valid(t, p + 1, node, line, p);
            },
            _ => {},
        }
    }
}

proof fn lemma_pnode_nl_valid(t: Seq<TokV>, q: int, node: NodeV, line: nat, start: int)
    requires
        words_valid(t),
        valid_node(node),
    ensures
        node_result_valid(pnode_nl(t, q, node, line, start)),
    decreases t.len() - q, 0nat,
{
    if 0 <= q < t.len() && t[q] is Newline {
        lemma_pnode_nl_valid(t, q + 1, node, line, start);
    } else if 0 <= q < t.len() && t[q] is LBrace && node.args.len() == 0 && node.props.len() == 0 {
        lemma_pn_loop_valid(t, q + 1, true, seq![]);
    }
}

/// The node reached from `n` by following child indices `path`, if every
/// index is in range.
pub open spec fn descendant(n: NodeV, path: Seq<int>) -> Option<NodeV>
    decreases path.len(),
{
    if path.len() == 0 {
        Some(n)
    } else if 0 <= path[0] < n.children.len() {
        descendant(n.children[path[0]], path.drop_first())
    } else {
        None
    }
}

proof fn lemma_descendant_valid(n: NodeV, path: Seq<int>)
    requires
        valid_node(n),
        descendant(n, path) is Some,
    ensures
        valid_node(descendant(n, path)->0),
    decreases path.len(),
{
    if path.len() > 0 {
        lemma_descendant_valid(n.children[path[0]], path.drop_first());
    }
}

/// Every node a parsed document holds, top level or nested at any depth, is
/// well formed, and rendering it at any indent and parsing the text again
/// gives exactly that node.
pub proof fn law_parsed_node_roundtrip(src: Seq<char>, doc: Seq<NodeV>, i: int, path: Seq<int>, k: nat)
    requires
        parse_document_spec(src) == Ok::<Seq<NodeV>, ErrV>(doc),
        0 <= i < doc.len(),
        descendant(doc[i], path) is Some,
    ensures
        valid_node(descendant(doc[i], path)->0),
        parse_document_spec(render(descendant(doc[i], path)->0, k)) == Ok::<Seq<NodeV>, ErrV>(
            seq![descendant(doc[i], path)->0],
        ),
{
    law_lexed_words_valid(src);
    let t = lex_spec(src)->Ok_0;
    lemma_pn_loop_valid(t, 0, false, seq![]);
    assert(valid_node(doc[i]));
    lemma_descendant_valid(doc[i], path);
    law_render_parse_node_at(descendant(doc[i], path)->0, k);
}

} // verus!
