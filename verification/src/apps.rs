//! Reading installed applications from .desktop files, the way app launchers
//! do, so gestures can spawn real apps by name.

use vstd::prelude::*;
use crate::model::strings_view;
use crate::text::{is_ascii_digit, lines_of, trim, owned, chars_of, string_from_range, str_eq, text_lt, text_less,
    lemma_text_lt_irreflexive, lemma_text_lt_asymmetric, lemma_text_lt_transitive, lemma_text_lt_total};

verus! {

/// One launchable application.
#[derive(Clone, Debug, PartialEq)]
pub struct AppEntry {
    /// Desktop file basename, e.g. "org.gnome.Settings.desktop".
    pub id: String,
    pub name: String,
    /// argv for `spawn` (field codes like %f stripped).
    pub argv: Vec<String>,
    pub icon: Option<String>,
}

/// The keys of a `[Desktop Entry]` group that matter here.
#[derive(Debug)]
pub struct RawEntry {
    pub name: Option<String>,
    pub exec_line: Option<String>,
    pub icon: Option<String>,
    pub no_display: bool,
    pub hidden: bool,
    pub terminal: bool,
    pub only_show_in: Option<Vec<String>>,
    pub not_show_in: Option<Vec<String>>,
    pub try_exec: Option<String>,
}

/// The value of a [`RawEntry`].
pub struct RawV {
    pub name: Option<Seq<char>>,
    pub exec_line: Option<Seq<char>>,
    pub icon: Option<Seq<char>>,
    pub no_display: bool,
    pub hidden: bool,
    pub terminal: bool,
    pub only_show_in: Option<Seq<Seq<char>>>,
    pub not_show_in: Option<Seq<Seq<char>>>,
    pub try_exec: Option<Seq<char>>,
}

pub open spec fn opt_string_view(o: Option<String>) -> Option<Seq<char>> {
    match o {
        Some(s) => Some(s@),
        None => None,
    }
}

pub open spec fn opt_list_view(o: Option<Vec<String>>) -> Option<Seq<Seq<char>>> {
    match o {
        Some(v) => Some(strings_view(v@)),
        None => None,
    }
}

impl RawEntry {
    pub open spec fn view(&self) -> RawV {
        RawV {
            name: opt_string_view(self.name),
            exec_line: opt_string_view(self.exec_line),
            icon: opt_string_view(self.icon),
            no_display: self.no_display,
            hidden: self.hidden,
            terminal: self.terminal,
            only_show_in: opt_list_view(self.only_show_in),
            not_show_in: opt_list_view(self.not_show_in),
            try_exec: opt_string_view(self.try_exec),
        }
    }
}

pub open spec fn empty_raw() -> RawV {
    RawV {
        name: None,
        exec_line: None,
        icon: None,
        no_display: false,
        hidden: false,
        terminal: false,
        only_show_in: None,
        not_show_in: None,
        try_exec: None,
    }
}

impl Default for RawEntry {
    fn default() -> (r: RawEntry)
        ensures
            r.view() == empty_raw(),
    {
        RawEntry {
            name: None,
            exec_line: None,
            icon: None,
            no_display: false,
            hidden: false,
            terminal: false,
            only_show_in: None,
            not_show_in: None,
            try_exec: None,
        }
    }
}

// ---------------------------------------------------------------------------
// Lists and flags.
// ---------------------------------------------------------------------------

/// The items of a `;`-separated list from index `i` on, `cur` being the item
/// so far and `acc` the items before it; items are trimmed, empty ones dropped.
pub open spec fn list_from(v: Seq<char>, i: int, cur: Seq<char>, acc: Seq<Seq<char>>) -> Seq<Seq<char>>
    decreases v.len() - i,
{
    if i < 0 || i >= v.len() {
        if trim(cur).len() == 0 { acc } else { acc.push(trim(cur)) }
    } else if v[i] == ';' {
        list_from(v, i + 1, seq![], if trim(cur).len() == 0 { acc } else { acc.push(trim(cur)) })
    } else {
        list_from(v, i + 1, cur.push(v[i]), acc)
    }
}

/// The items of a desktop-file list value such as `GNOME;KDE;`.
pub open spec fn list_items(v: Seq<char>) -> Seq<Seq<char>> {
    list_from(v, 0, seq![], seq![])
}

/// Splits a `;`-separated list, trimming items and dropping empty ones.
pub fn split_list(v: &str) -> (r: Vec<String>)
    ensures
        strings_view(r@) == list_items(v@),
{
    let cs = chars_of(v);
    let mut out: Vec<String> = Vec::new();
    let mut cur: Vec<char> = Vec::new();
    assert(strings_view(out@) == Seq::<Seq<char>>::empty());
    assert(cur@ == Seq::<char>::empty());
    let mut i: usize = 0;
    while i < cs.len()
        invariant
            cs@ == v@,
            i <= cs@.len(),
            list_from(cs@, i as int, cur@, strings_view(out@)) == list_items(v@),
        decreases cs@.len() - i,
    {
        if cs[i] == ';' {
            let piece = string_from_range(cur.as_slice(), 0, cur.len());
            assert(cur@.subrange(0, cur@.len() as int) == cur@);
            let t = crate::text::trimmed(piece.as_str());
            if !t.as_str().is_empty() {
                let ghost before = strings_view(out@);
                out.push(t);
                assert(strings_view(out@) == before.push(trim(cur@)));
            }
            cur = Vec::new();
            assert(cur@ == Seq::<char>::empty());
        } else {
            cur.push(cs[i]);
        }
        i = i + 1;
    }
    let piece = string_from_range(cur.as_slice(), 0, cur.len());
    assert(cur@.subrange(0, cur@.len() as int) == cur@);
    let t = crate::text::trimmed(piece.as_str());
    if !t.as_str().is_empty() {
        let ghost before = strings_view(out@);
        out.push(t);
        assert(strings_view(out@) == before.push(trim(cur@)));
    }
    out
}

pub open spec fn ascii_lower(c: char) -> char {
    if 'A' <= c && c <= 'Z' {
        ((c as u32) + 32) as char
    } else {
        c
    }
}

/// `v` is `true` in any ASCII letter case.
pub open spec fn is_true_word(v: Seq<char>) -> bool {
    &&& v.len() == 4
    &&& ascii_lower(v[0]) == 't'
    &&& ascii_lower(v[1]) == 'r'
    &&& ascii_lower(v[2]) == 'u'
    &&& ascii_lower(v[3]) == 'e'
}

fn ci_char(c: char, lower: char, upper: char) -> (b: bool)
    requires
        'a' <= lower <= 'z',
        upper as u32 == lower as u32 - 32,
    ensures
        b == (ascii_lower(c) == lower),
{
    c == lower || c == upper
}

fn true_word(v: &str) -> (b: bool)
    ensures
        b == is_true_word(v@),
{
    let cs = chars_of(v);
    cs.len() == 4 && ci_char(cs[0], 't', 'T') && ci_char(cs[1], 'r', 'R') && ci_char(cs[2], 'u', 'U')
        && ci_char(cs[3], 'e', 'E')
}

// ---------------------------------------------------------------------------
// Parsing a desktop file.
// ---------------------------------------------------------------------------

/// Index of the first `c` in `s`.
#[verifier::opaque]
pub open spec fn first_char(s: Seq<char>, c: char) -> Option<int> {
    if exists|i: int| 0 <= i < s.len() && s[i] == c {
        Some(choose|i: int| 0 <= i < s.len() && s[i] == c && forall|j: int| 0 <= j < i ==> s[j] != c)
    } else {
        None
    }
}

proof fn lemma_first_char(s: Seq<char>, c: char, i: int)
    requires
        0 <= i < s.len(),
        s[i] == c,
        forall|j: int| 0 <= j < i ==> s[j] != c,
    ensures
        first_char(s, c) == Some(i),
{
    reveal(first_char);
    let k = choose|k: int| 0 <= k < s.len() && s[k] == c && forall|j: int| 0 <= j < k ==> s[j] != c;
    assert(s[i] == c);
    if k < i {
        assert(s[k] != c);
    }
    if i < k {
        assert(s[i] != c);
    }
}

fn find_char(cs: &Vec<char>, c: char) -> (r: Option<usize>)
    ensures
        match r {
            Some(i) => i < cs@.len() && first_char(cs@, c) == Some(i as int),
            None => first_char(cs@, c) is None,
        },
{
    let mut i: usize = 0;
    while i < cs.len()
        invariant
            i <= cs@.len(),
            forall|j: int| 0 <= j < i ==> cs@[j] != c,
        decreases cs@.len() - i,
    {
        if cs[i] == c {
            proof {
                lemma_first_char(cs@, c, i as int);
            }
            return Some(i);
        }
        i = i + 1;
    }
    proof {
        reveal(first_char);
    }
    None
}

/// `c` is the ASCII letter `lower`, in either case.
pub open spec fn letter_either_case(c: char, lower: char, upper: char) -> bool {
    c == lower || c == upper
}

/// The boolean keys read `true` in any letter case and nothing else; each
/// sets only its own field.
pub proof fn law_boolean_keys(r: RawV, v: Seq<char>)
    ensures
        ({
            let t = v.len() == 4 && letter_either_case(v[0], 't', 'T') && letter_either_case(v[1], 'r', 'R')
                && letter_either_case(v[2], 'u', 'U') && letter_either_case(v[3], 'e', 'E');
            &&& with_key(r, "NoDisplay"@, v) == RawV { no_display: t, ..r }
            &&& with_key(r, "Hidden"@, v) == RawV { hidden: t, ..r }
            &&& with_key(r, "Terminal"@, v) == RawV { terminal: t, ..r }
        }),
{
    reveal(with_key);
    reveal_strlit("Name");
    reveal_strlit("Exec");
    reveal_strlit("Icon");
    reveal_strlit("NoDisplay");
    reveal_strlit("Hidden");
    reveal_strlit("Terminal");
    assert("Name"@.len() == 4 && "Exec"@.len() == 4 && "Icon"@.len() == 4);
    assert("NoDisplay"@.len() == 9 && "Hidden"@.len() == 6 && "Terminal"@.len() == 8);
    assert("Name"@ != "NoDisplay"@ && "Exec"@ != "NoDisplay"@ && "Icon"@ != "NoDisplay"@);
    assert("Name"@ != "Hidden"@ && "Exec"@ != "Hidden"@ && "Icon"@ != "Hidden"@ && "NoDisplay"@ != "Hidden"@);
    assert("Name"@ != "Terminal"@ && "Exec"@ != "Terminal"@ && "Icon"@ != "Terminal"@ && "NoDisplay"@ != "Terminal"@
        && "Hidden"@ != "Terminal"@);
    assert forall|c: char, lo: char, up: char|
        'a' <= lo <= 'z' && (up as int) + 32 == (lo as int) implies (ascii_lower(c) == lo <==> letter_either_case(
            c,
            lo,
            up,
        )) by {
        if 'A' <= c && c <= 'Z' {
            assert(((c as u32) + 32) as char == lo <==> (c as int) + 32 == (lo as int));
        }
    }
    assert(('T' as int) + 32 == ('t' as int));
    assert(('R' as int) + 32 == ('r' as int));
    assert(('U' as int) + 32 == ('u' as int));
    assert(('E' as int) + 32 == ('e' as int));
}

/// A desktop entry with one `key=value` taken into account.
#[verifier::opaque]
pub open spec fn with_key(r: RawV, k: Seq<char>, v: Seq<char>) -> RawV {
    if k == "Name"@ {
        RawV { name: Some(v), ..r }
    } else if k == "Exec"@ {
        RawV { exec_line: Some(v), ..r }
    } else if k == "Icon"@ {
        RawV { icon: Some(v), ..r }
    } else if k == "NoDisplay"@ {
        RawV { no_display: is_true_word(v), ..r }
    } else if k == "Hidden"@ {
        RawV { hidden: is_true_word(v), ..r }
    } else if k == "Terminal"@ {
        RawV { terminal: is_true_word(v), ..r }
    } else if k == "OnlyShowIn"@ {
        RawV { only_show_in: Some(list_items(v)), ..r }
    } else if k == "NotShowIn"@ {
        RawV { not_show_in: Some(list_items(v)), ..r }
    } else if k == "TryExec"@ {
        RawV { try_exec: Some(v), ..r }
    } else {
        r
    }
}

/// One line of a desktop file, read in the state (inside `[Desktop Entry]`,
/// entry so far). Group headers switch the group; comments, blank lines,
/// lines without `=` and localized keys (`Name[pt]=...`) are skipped.
pub open spec fn desktop_line(st: (bool, RawV), line: Seq<char>) -> (bool, RawV) {
    let l = trim(line);
    if l.len() > 0 && l[0] == '[' {
        (l == "[Desktop Entry]"@, st.1)
    } else if !st.0 || l.len() == 0 || l[0] == '#' {
        st
    } else {
        (st.0, key_line(st.1, l))
    }
}

/// A trimmed `key=value` line inside `[Desktop Entry]`.
pub open spec fn key_line(r: RawV, l: Seq<char>) -> RawV {
    match first_char(l, '=') {
        None => r,
        Some(i) => {
            let k = l.take(i);
            if first_char(k, '[') is Some {
                r
            } else {
                with_key(r, k, l.skip(i + 1))
            }
        },
    }
}

/// A `key=value` line is read at its first `=`: the key before it (unless
/// it is localized with `[`) takes the whole value after it, `=` signs
/// included.
pub proof fn law_key_value_line(r: RawV, k: Seq<char>, v: Seq<char>)
    requires
        forall|i: int| 0 <= i < k.len() ==> k[i] != '=' && k[i] != '[',
    ensures
        key_line(r, k + seq!['='] + v) == with_key(r, k, v),
{
    let l = k + seq!['='] + v;
    assert(l[k.len() as int] == '=');
    assert forall|j: int| 0 <= j < k.len() implies l[j] != '=' by {
        assert(l[j] == k[j]);
    }
    lemma_first_char(l, '=', k.len() as int);
    assert(l.take(k.len() as int) =~= k);
    assert(l.skip(k.len() + 1int) =~= v);
    reveal(first_char);
}

/// The state after the first `k` lines.
pub open spec fn desktop_upto(ls: Seq<Seq<char>>, k: int) -> (bool, RawV)
    decreases k,
{
    if k <= 0 {
        (false, empty_raw())
    } else {
        desktop_line(desktop_upto(ls, k - 1), ls[k - 1])
    }
}

/// The `[Desktop Entry]` keys a desktop file sets.
pub open spec fn desktop_entry(text: Seq<char>) -> RawV {
    desktop_upto(lines_of(text), lines_of(text).len() as int).1
}

fn apply_key(e: &mut RawEntry, k: &str, v: &str)
    ensures
        final(e).view() == with_key(old(e).view(), k@, v@),
{
    reveal(with_key);
    if str_eq(k, "Name") {
        e.name = Some(owned(v));
    } else if str_eq(k, "Exec") {
        e.exec_line = Some(owned(v));
    } else if str_eq(k, "Icon") {
        e.icon = Some(owned(v));
    } else if str_eq(k, "NoDisplay") {
        e.no_display = true_word(v);
    } else if str_eq(k, "Hidden") {
        e.hidden = true_word(v);
    } else if str_eq(k, "Terminal") {
        e.terminal = true_word(v);
    } else if str_eq(k, "OnlyShowIn") {
        e.only_show_in = Some(split_list(v));
    } else if str_eq(k, "NotShowIn") {
        e.not_show_in = Some(split_list(v));
    } else if str_eq(k, "TryExec") {
        e.try_exec = Some(owned(v));
    }
}

fn key_step(e: &mut RawEntry, cs: &Vec<char>)
    ensures
        final(e).view() == key_line(old(e).view(), cs@),
{
    let ghost r0 = e.view();
    let n = cs.len();
    match find_char(cs, '=') {
        None => {
            assert(first_char(cs@, '=') is None);
        },
        Some(i) => {
            assert(first_char(cs@, '=') == Some(i as int));
            let key = string_from_range(cs.as_slice(), 0, i);
            let value = string_from_range(cs.as_slice(), i + 1, n);
            assert(key@ == cs@.take(i as int));
            assert(value@ == cs@.skip(i + 1));
            let kc = chars_of(key.as_str());
            match find_char(&kc, '[') {
                Some(_) => {
                    assert(first_char(cs@.take(i as int), '[') is Some);
                },
                None => {
                    assert(first_char(cs@.take(i as int), '[') is None);
                    apply_key(e, key.as_str(), value.as_str());
                    assert(e.view() == with_key(r0, cs@.take(i as int), cs@.skip(i + 1)));
                },
            }
        },
    }
}

fn desktop_step(in_entry: &mut bool, e: &mut RawEntry, raw_line: &str)
    ensures
        (*final(in_entry), final(e).view()) == desktop_line((*old(in_entry), old(e).view()), raw_line@),
{
    let line = crate::text::trimmed(raw_line);
    let cs = chars_of(line.as_str());
    if cs.len() > 0 && cs[0] == '[' {
        *in_entry = str_eq(line.as_str(), "[Desktop Entry]");
    } else if !*in_entry || cs.len() == 0 || cs[0] == '#' {
    } else {
        key_step(e, &cs);
    }
}

/// Reads the `[Desktop Entry]` group of a desktop file.
pub fn parse_desktop(text: &str) -> (e: RawEntry)
    ensures
        e.view() == desktop_entry(text@),
{
    let ls = crate::text::lines(text);
    let ghost lv = strings_view(ls@);
    let mut e = RawEntry::default();
    let mut in_entry = false;
    let mut k: usize = 0;
    while k < ls.len()
        invariant
            lv == strings_view(ls@),
            lv == lines_of(text@),
            k <= ls@.len(),
            desktop_upto(lv, k as int) == (in_entry, e.view()),
        decreases ls@.len() - k,
    {
        desktop_step(&mut in_entry, &mut e, ls[k].as_str());
        assert(lv[k as int] == ls@[k as int]@);
        k = k + 1;
    }
    e
}

// ---------------------------------------------------------------------------
// Exec lines and filters.
// ---------------------------------------------------------------------------

/// The words `shlex::split` makes of a text, or None when it reports an error
/// (an unterminated quote, for instance).
pub uninterp spec fn shlex_words(s: Seq<char>) -> Option<Seq<Seq<char>>>;

/// `shlex::split`: POSIX-shell-like word splitting; the result is taken to
/// be `shlex_words` of the text, nothing more is claimed.
#[verifier::external_body]
pub(crate) fn shlex_split(s: &str) -> (r: Option<Vec<String>>)
    ensures
        match r {
            Some(v) => shlex_words(s@) == Some(strings_view(v@)),
            None => shlex_words(s@) is None,
        },
{
    shlex::split(s)
}

/// The words of an exec line that are not desktop field codes (a field code
/// is a word starting with `%`), in order.
pub open spec fn without_field_codes(words: Seq<Seq<char>>) -> Seq<Seq<char>>
    decreases words.len(),
{
    if words.len() == 0 {
        seq![]
    } else {
        let rest = without_field_codes(words.drop_last());
        let w = words.last();
        if w.len() > 0 && w[0] == '%' { rest } else { rest.push(w) }
    }
}

/// Dropping field codes works word by word: a lone word starting with `%`
/// is dropped, any other lone word is kept, and the words of two lists
/// joined are those of each list, joined in order.
pub proof fn law_field_codes_dropped_word_by_word(a: Seq<Seq<char>>, b: Seq<Seq<char>>, w: Seq<char>)
    ensures
        (w.len() > 0 && w[0] == '%') ==> without_field_codes(seq![w]) == Seq::<Seq<char>>::empty(),
        !(w.len() > 0 && w[0] == '%') ==> without_field_codes(seq![w]) == seq![w],
        without_field_codes(a + b) == without_field_codes(a) + without_field_codes(b),
    decreases b.len(),
{
    assert(seq![w].drop_last() =~= Seq::<Seq<char>>::empty());
    assert(seq![w].last() == w);
    assert(without_field_codes(Seq::<Seq<char>>::empty()) =~= Seq::<Seq<char>>::empty());
    assert(Seq::<Seq<char>>::empty().push(w) =~= seq![w]);
    if b.len() == 0 {
        assert(a + b =~= a);
        assert(without_field_codes(a) + Seq::<Seq<char>>::empty() =~= without_field_codes(a));
    } else {
        law_field_codes_dropped_word_by_word(a, b.drop_last(), w);
        assert((a + b).drop_last() =~= a + b.drop_last());
        assert((a + b).last() == b.last());
        let x = b.last();
        if x.len() > 0 && x[0] == '%' {
        } else {
            assert(without_field_codes(a) + without_field_codes(b.drop_last()).push(x) =~= (without_field_codes(a)
                + without_field_codes(b.drop_last())).push(x));
        }
    }
}

/// An exec line gives an argv exactly when some word is not a field code;
/// then the argv is its words without the field codes.
pub proof fn law_argv_needs_a_word(words: Seq<Seq<char>>)
    ensures
        argv_of_words(words) is Some <==> without_field_codes(words).len() > 0,
        argv_of_words(words) is Some ==> argv_of_words(words)->0 == without_field_codes(words),
{
}

/// The argv for split exec words: field codes dropped; None when nothing is left.
pub open spec fn argv_of_words(words: Seq<Seq<char>>) -> Option<Seq<Seq<char>>> {
    if without_field_codes(words).len() == 0 {
        None
    } else {
        Some(without_field_codes(words))
    }
}

/// Drops desktop field codes (standalone words starting with `%`) from split
/// exec words; None when nothing is left.
pub fn argv_from_words(words: Vec<String>) -> (r: Option<Vec<String>>)
    ensures
        match argv_of_words(strings_view(words@)) {
            Some(a) => r is Some && strings_view(r->0@) == a,
            None => r is None,
        },
{
    let ghost wv = strings_view(words@);
    let mut out: Vec<String> = Vec::new();
    let mut i: usize = 0;
    assert(wv.take(0) =~= Seq::<Seq<char>>::empty());
    while i < words.len()
        invariant
            wv == strings_view(words@),
            i <= words@.len(),
            strings_view(out@) == without_field_codes(wv.take(i as int)),
        decreases words@.len() - i,
    {
        assert(wv.take(i + 1).drop_last() =~= wv.take(i as int));
        assert(wv.take(i + 1).last() == words@[i as int]@);
        let cs = chars_of(words[i].as_str());
        if !(cs.len() > 0 && cs[0] == '%') {
            let ghost before = strings_view(out@);
            out.push(words[i].clone());
            assert(strings_view(out@) =~= before.push(words@[i as int]@));
        }
        i = i + 1;
    }
    assert(wv.take(words@.len() as int) =~= wv);
    if out.len() == 0 {
        None
    } else {
        Some(out)
    }
}

/// The argv an exec line stands for.
pub open spec fn exec_argv(exec: Seq<char>) -> Option<Seq<Seq<char>>> {
    match shlex_words(exec) {
        Some(words) => argv_of_words(words),
        None => None,
    }
}

/// Exec value -> argv: shell-ish split, then drop desktop field codes
/// (standalone tokens starting with `%`).
pub fn exec_to_argv(exec: &str) -> (r: Option<Vec<String>>)
    ensures
        match exec_argv(exec@) {
            Some(a) => r is Some && strings_view(r->0@) == a,
            None => r is None,
        },
{
    match shlex_split(exec) {
        Some(words) => argv_from_words(words),
        None => None,
    }
}

/// Some item of `a` is also in `b`.
pub open spec fn meets(a: Seq<Seq<char>>, b: Seq<Seq<char>>) -> bool {
    exists|i: int, j: int| 0 <= i < a.len() && 0 <= j < b.len() && a[i] == b[j]
}

fn lists_meet(a: &Vec<String>, b: &[String]) -> (r: bool)
    ensures
        r == meets(strings_view(a@), strings_view(b@)),
{
    let ghost av = strings_view(a@);
    let ghost bv = strings_view(b@);
    let mut i: usize = 0;
    while i < a.len()
        invariant
            av == strings_view(a@),
            bv == strings_view(b@),
            i <= a@.len(),
            forall|x: int, y: int| 0 <= x < i && 0 <= y < bv.len() ==> av[x] != bv[y],
        decreases a@.len() - i,
    {
        let mut j: usize = 0;
        while j < b.len()
            invariant
                av == strings_view(a@),
                bv == strings_view(b@),
                i < a@.len(),
                j <= b@.len(),
                forall|x: int, y: int| 0 <= x < i && 0 <= y < bv.len() ==> av[x] != bv[y],
                forall|y: int| 0 <= y < j ==> av[i as int] != bv[y],
            decreases b@.len() - j,
        {
            if str_eq(a[i].as_str(), b[j].as_str()) {
                assert(av[i as int] == bv[j as int]);
                return true;
            }
            j = j + 1;
        }
        i = i + 1;
    }
    false
}

/// An entry is shown on the current desktops: not hidden, not a terminal
/// app, listed for one of them if it names any, and not excluded by one.
pub open spec fn shown_on_spec(r: RawV, desktops: Seq<Seq<char>>) -> bool {
    &&& !r.no_display
    &&& !r.hidden
    &&& !r.terminal
    &&& match r.only_show_in {
        Some(only) => meets(only, desktops),
        None => true,
    }
    &&& match r.not_show_in {
        Some(not) => !meets(not, desktops),
        None => true,
    }
}

/// An entry marked NoDisplay, Hidden or Terminal is never offered, on any
/// desktop.
pub proof fn law_marked_entries_are_never_shown(r: RawV, desktops: Seq<Seq<char>>)
    ensures
        r.no_display ==> !shown_on_spec(r, desktops),
        r.hidden ==> !shown_on_spec(r, desktops),
        r.terminal ==> !shown_on_spec(r, desktops),
{
}

/// Which desktops an entry is shown on: with an OnlyShowIn list, only where
/// a current desktop is listed; with a NotShowIn list, never where one is
/// listed; and an unmarked entry that both lists allow is shown.
pub proof fn law_shown_by_desktop_lists(r: RawV, desktops: Seq<Seq<char>>)
    ensures
        (r.only_show_in matches Some(only) && forall|i: int, j: int|
            0 <= i < only.len() && 0 <= j < desktops.len() ==> only[i] != desktops[j]) ==> !shown_on_spec(r, desktops),
        (r.not_show_in matches Some(not) && exists|i: int, j: int|
            0 <= i < not.len() && 0 <= j < desktops.len() && not[i] == desktops[j]) ==> !shown_on_spec(r, desktops),
        (!r.no_display && !r.hidden && !r.terminal && (r.only_show_in matches Some(only) ==> exists|i: int, j: int|
            0 <= i < only.len() && 0 <= j < desktops.len() && only[i] == desktops[j]) && (r.not_show_in matches Some(
            not,
        ) ==> forall|i: int, j: int| 0 <= i < not.len() && 0 <= j < desktops.len() ==> not[i] != desktops[j]))
            ==> shown_on_spec(r, desktops),
{
}

/// Whether a desktop entry should be offered on these desktops.
pub fn shown_on(raw: &RawEntry, desktops: &[String]) -> (b: bool)
    ensures
        b == shown_on_spec(raw.view(), strings_view(desktops@)),
{
    if raw.no_display || raw.hidden || raw.terminal {
        return false;
    }
    if let Some(only) = &raw.only_show_in {
        if !lists_meet(only, desktops) {
            return false;
        }
    }
    if let Some(not) = &raw.not_show_in {
        if lists_meet(not, desktops) {
            return false;
        }
    }
    true
}

/// The application a desktop entry describes: it needs a name and an exec
/// line that splits into a non-empty argv.
pub open spec fn app_of(id: Seq<char>, r: RawV) -> Option<(Seq<char>, Seq<char>, Seq<Seq<char>>, Option<Seq<char>>)> {
    match (r.name, r.exec_line) {
        (Some(name), Some(exec)) => match exec_argv(exec) {
            Some(argv) => Some((id, name, argv, r.icon)),
            None => None,
        },
        _ => None,
    }
}

pub open spec fn app_view(a: AppEntry) -> (Seq<char>, Seq<char>, Seq<Seq<char>>, Option<Seq<char>>) {
    (a.id@, a.name@, strings_view(a.argv@), opt_string_view(a.icon))
}

/// The application entry for a desktop file, when it has a name and a usable
/// exec line.
pub fn entry_from(id: String, raw: &RawEntry) -> (r: Option<AppEntry>)
    ensures
        match app_of(id@, raw.view()) {
            Some(a) => r is Some && app_view(r->0) == a,
            None => r is None,
        },
{
    let name = match &raw.name {
        Some(n) => n,
        None => {
            return None;
        },
    };
    let exec = match &raw.exec_line {
        Some(x) => x,
        None => {
            return None;
        },
    };
    let argv = match exec_to_argv(exec.as_str()) {
        Some(a) => a,
        None => {
            return None;
        },
    };
    let icon = match &raw.icon {
        Some(i) => Some(i.clone()),
        None => None,
    };
    Some(AppEntry { id, name: name.clone(), argv, icon })
}

/// The desktop names in `XDG_CURRENT_DESKTOP` (`:`-separated).
pub open spec fn desktop_names(v: Seq<char>) -> Seq<Seq<char>> {
    list_items(Seq::new(v.len(), |i: int| if v[i] == ':' { ';' } else { v[i] }))
}

/// Splits the value of `XDG_CURRENT_DESKTOP` into desktop names.
pub fn current_desktops(value: &str) -> (r: Vec<String>)
    ensures
        strings_view(r@) == desktop_names(value@),
{
    let cs = chars_of(value);
    let mut out: Vec<char> = Vec::new();
    let mut i: usize = 0;
    while i < cs.len()
        invariant
            cs@ == value@,
            i <= cs@.len(),
            out@ == Seq::new(i as nat, |j: int| if cs@[j] == ':' { ';' } else { cs@[j] }),
        decreases cs@.len() - i,
    {
        out.push(if cs[i] == ':' { ';' } else { cs[i] });
        assert(out@ =~= Seq::new((i + 1) as nat, |j: int| if cs@[j] == ':' { ';' } else { cs@[j] }));
        i = i + 1;
    }
    let s = crate::text::string_from_chars(out.as_slice());
    assert(s@ =~= Seq::new(value@.len(), |j: int| if value@[j] == ':' { ';' } else { value@[j] }));
    split_list(s.as_str())
}

// ---------------------------------------------------------------------------
// Assembling the scan.
// ---------------------------------------------------------------------------

pub open spec fn apps_view(v: Seq<AppEntry>) -> Seq<(Seq<char>, Seq<char>, Seq<Seq<char>>, Option<Seq<char>>)> {
    Seq::new(v.len(), |i: int| app_view(v[i]))
}

impl AppEntry {
    /// A copy with the same value.
    pub fn duplicate(&self) -> (r: AppEntry)
        ensures
            app_view(r) == app_view(*self),
    {
        let mut argv: Vec<String> = Vec::new();
        let mut i: usize = 0;
        while i < self.argv.len()
            invariant
                i <= self.argv@.len(),
                argv@.len() == i,
                forall|j: int| 0 <= j < i ==> (#[trigger] argv@[j])@ == self.argv@[j]@,
            decreases self.argv@.len() - i,
        {
            argv.push(self.argv[i].clone());
            i = i + 1;
        }
        assert(strings_view(argv@) =~= strings_view(self.argv@));
        let icon = match &self.icon {
            Some(s) => Some(s.clone()),
            None => None,
        };
        AppEntry { id: self.id.clone(), name: self.name.clone(), argv, icon }
    }
}

/// Entry `m` of `s` is the last one with its id.
pub open spec fn last_with_id(s: Seq<(Seq<char>, Seq<char>, Seq<Seq<char>>, Option<Seq<char>>)>, m: int) -> bool {
    &&& 0 <= m < s.len()
    &&& forall|j: int| m < j < s.len() ==> (#[trigger] s[j]).0 != s[m].0
}

/// The ids of `out` increase strictly.
#[verifier::opaque]
pub open spec fn ids_increasing(out: Seq<(Seq<char>, Seq<char>, Seq<Seq<char>>, Option<Seq<char>>)>) -> bool {
    forall|k: int, l: int| 0 <= k < l < out.len() ==> text_lt(#[trigger] out[k].0, #[trigger] out[l].0)
}

/// `e` is the last entry of `s` with its id.
pub open spec fn is_last_entry(s: Seq<(Seq<char>, Seq<char>, Seq<Seq<char>>, Option<Seq<char>>)>, e: (Seq<char>, Seq<char>, Seq<Seq<char>>, Option<Seq<char>>)) -> bool {
    exists|m: int| #[trigger] last_with_id(s, m) && e == s[m]
}

/// Some entry of `out` has the id `id`.
pub open spec fn has_id(out: Seq<(Seq<char>, Seq<char>, Seq<Seq<char>>, Option<Seq<char>>)>, id: Seq<char>) -> bool {
    exists|k: int| 0 <= k < out.len() && #[trigger] out[k].0 == id
}

/// Each entry of `out` is the last entry of `s` with its id.
#[verifier::opaque]
pub open spec fn each_last(s: Seq<(Seq<char>, Seq<char>, Seq<Seq<char>>, Option<Seq<char>>)>, out: Seq<(Seq<char>, Seq<char>, Seq<Seq<char>>, Option<Seq<char>>)>) -> bool {
    forall|k: int| 0 <= k < out.len() ==> #[trigger] is_last_entry(s, out[k])
}

/// Each id of `s` occurs in `out`.
#[verifier::opaque]
pub open spec fn ids_covered(s: Seq<(Seq<char>, Seq<char>, Seq<Seq<char>>, Option<Seq<char>>)>, out: Seq<(Seq<char>, Seq<char>, Seq<Seq<char>>, Option<Seq<char>>)>) -> bool {
    forall|m: int| 0 <= m < s.len() ==> #[trigger] has_id(out, s[m].0)
}

/// `out` holds, for each id that occurs in `s`, the last entry of `s` with
/// that id, in increasing order of id: what keying the entries by id (a
/// later entry replacing an earlier one) and reading them back in key order
/// gives.
pub open spec fn last_per_id(s: Seq<(Seq<char>, Seq<char>, Seq<Seq<char>>, Option<Seq<char>>)>, out: Seq<(Seq<char>, Seq<char>, Seq<Seq<char>>, Option<Seq<char>>)>) -> bool {
    &&& ids_increasing(out)
    &&& each_last(s, out)
    &&& ids_covered(s, out)
}

proof fn lemma_text_lt_ne(a: Seq<char>, b: Seq<char>)
    requires
        text_lt(a, b),
    ensures
        a != b,
{
    lemma_text_lt_irreflexive(a);
}

/// An entry placed at `p` in `o`, whose id differs from all others, is last
/// in `t.push(x)` when it was last in `t`.
proof fn lemma_last_kept(t: Seq<(Seq<char>, Seq<char>, Seq<Seq<char>>, Option<Seq<char>>)>, x: (Seq<char>, Seq<char>, Seq<Seq<char>>, Option<Seq<char>>), m: int)
    requires
        last_with_id(t, m),
        t[m].0 != x.0,
    ensures
        last_with_id(t.push(x), m),
{
    let t2 = t.push(x);
    assert forall|j: int| m < j < t2.len() implies (#[trigger] t2[j]).0 != t2[m].0 by {
        if j < t.len() {
            assert(t[j].0 != t[m].0);
        }
    }
}

proof fn lemma_replace_id(t: Seq<(Seq<char>, Seq<char>, Seq<Seq<char>>, Option<Seq<char>>)>, o: Seq<(Seq<char>, Seq<char>, Seq<Seq<char>>, Option<Seq<char>>)>, x: (Seq<char>, Seq<char>, Seq<Seq<char>>, Option<Seq<char>>), p: int)
    requires
        last_per_id(t, o),
        0 <= p < o.len(),
        o[p].0 == x.0,
    ensures
        last_per_id(t.push(x), o.update(p, x)),
{
    reveal(ids_increasing);
    reveal(each_last);
    reveal(ids_covered);
    assert forall|k: int, l: int| 0 <= k < l < o.update(p, x).len() implies text_lt(#[trigger] o.update(p, x)[k].0, #[trigger] o.update(p, x)[l].0) by {
        assert(text_lt(o[k].0, o[l].0));
    }
    assert forall|k: int| 0 <= k < o.update(p, x).len() implies #[trigger] is_last_entry(t.push(x), o.update(p, x)[k]) by {
        if k == p {
            assert(last_with_id(t.push(x), t.len() as int));
            assert(o.update(p, x)[k] == t.push(x)[t.len() as int]);
        } else {
            assert(o.update(p, x)[k] == o[k]);
            assert(is_last_entry(t, o[k]));
            let m = choose|m: int| #[trigger] last_with_id(t, m) && o[k] == t[m];
            if k < p {
                assert(text_lt(o[k].0, o[p].0));
                lemma_text_lt_ne(o[k].0, o[p].0);
            } else {
                assert(text_lt(o[p].0, o[k].0));
                lemma_text_lt_ne(o[p].0, o[k].0);
            }
            lemma_last_kept(t, x, m);
            assert(o.update(p, x)[k] == t.push(x)[m]);
        }
    }
    assert forall|m: int| 0 <= m < t.push(x).len() implies #[trigger] has_id(o.update(p, x), t.push(x)[m].0) by {
        if m == t.len() {
            assert(o.update(p, x)[p].0 == t.push(x)[m].0);
        } else {
            assert(t.push(x)[m] == t[m]);
            assert(has_id(o, t[m].0));
            let k = choose|k: int| 0 <= k < o.len() && #[trigger] o[k].0 == t[m].0;
            assert(o.update(p, x)[k].0 == t.push(x)[m].0);
        }
    }
}

proof fn lemma_insert_increasing(o: Seq<(Seq<char>, Seq<char>, Seq<Seq<char>>, Option<Seq<char>>)>, x: (Seq<char>, Seq<char>, Seq<Seq<char>>, Option<Seq<char>>), p: int)
    requires
        ids_increasing(o),
        0 <= p <= o.len(),
        forall|k: int| 0 <= k < p ==> text_lt(#[trigger] o[k].0, x.0),
        forall|k: int| p <= k < o.len() ==> text_lt(x.0, #[trigger] o[k].0),
    ensures
        ids_increasing(o.insert(p, x)),
{
    reveal(ids_increasing);
    assert forall|k: int, l: int| 0 <= k < l < o.insert(p, x).len() implies text_lt(#[trigger] o.insert(p, x)[k].0, #[trigger] o.insert(p, x)[l].0) by {
        if l < p {
            assert(text_lt(o[k].0, o[l].0));
        } else if l == p {
        } else if k < p {
            assert(o.insert(p, x)[l] == o[l - 1]);
            assert(text_lt(o[k].0, o[l - 1].0));
        } else if k == p {
            assert(o.insert(p, x)[l] == o[l - 1]);
        } else {
            assert(o.insert(p, x)[k] == o[k - 1]);
            assert(o.insert(p, x)[l] == o[l - 1]);
            assert(text_lt(o[k - 1].0, o[l - 1].0));
        }
    }
}

proof fn lemma_insert_each_last(t: Seq<(Seq<char>, Seq<char>, Seq<Seq<char>>, Option<Seq<char>>)>, o: Seq<(Seq<char>, Seq<char>, Seq<Seq<char>>, Option<Seq<char>>)>, x: (Seq<char>, Seq<char>, Seq<Seq<char>>, Option<Seq<char>>), p: int)
    requires
        each_last(t, o),
        0 <= p <= o.len(),
        forall|k: int| 0 <= k < o.len() ==> (#[trigger] o[k]).0 != x.0,
    ensures
        each_last(t.push(x), o.insert(p, x)),
{
    reveal(each_last);
    assert forall|k: int| 0 <= k < o.insert(p, x).len() implies #[trigger] is_last_entry(t.push(x), o.insert(p, x)[k]) by {
        if k == p {
            assert(last_with_id(t.push(x), t.len() as int));
            assert(o.insert(p, x)[k] == t.push(x)[t.len() as int]);
        } else {
            let kk = if k < p { k } else { k - 1 };
            assert(o.insert(p, x)[k] == o[kk]);
            assert(is_last_entry(t, o[kk]));
            let m = choose|m: int| #[trigger] last_with_id(t, m) && o[kk] == t[m];
            assert(o[kk].0 != x.0);
            lemma_last_kept(t, x, m);
            assert(o.insert(p, x)[k] == t.push(x)[m]);
        }
    }
}

proof fn lemma_insert_covered(t: Seq<(Seq<char>, Seq<char>, Seq<Seq<char>>, Option<Seq<char>>)>, o: Seq<(Seq<char>, Seq<char>, Seq<Seq<char>>, Option<Seq<char>>)>, x: (Seq<char>, Seq<char>, Seq<Seq<char>>, Option<Seq<char>>), p: int)
    requires
        ids_covered(t, o),
        0 <= p <= o.len(),
    ensures
        ids_covered(t.push(x), o.insert(p, x)),
{
    reveal(ids_covered);
    assert forall|m: int| 0 <= m < t.push(x).len() implies #[trigger] has_id(o.insert(p, x), t.push(x)[m].0) by {
        if m == t.len() {
            assert(o.insert(p, x)[p].0 == t.push(x)[m].0);
        } else {
            assert(t.push(x)[m] == t[m]);
            assert(has_id(o, t[m].0));
            let k = choose|k: int| 0 <= k < o.len() && #[trigger] o[k].0 == t[m].0;
            if k < p {
                assert(o.insert(p, x)[k].0 == t.push(x)[m].0);
            } else {
                assert(o.insert(p, x)[k + 1].0 == t.push(x)[m].0);
            }
        }
    }
}

proof fn lemma_insert_id(t: Seq<(Seq<char>, Seq<char>, Seq<Seq<char>>, Option<Seq<char>>)>, o: Seq<(Seq<char>, Seq<char>, Seq<Seq<char>>, Option<Seq<char>>)>, x: (Seq<char>, Seq<char>, Seq<Seq<char>>, Option<Seq<char>>), p: int)
    requires
        last_per_id(t, o),
        0 <= p <= o.len(),
        forall|k: int| 0 <= k < p ==> text_lt(#[trigger] o[k].0, x.0),
        p < o.len() ==> text_lt(x.0, o[p].0),
    ensures
        last_per_id(t.push(x), o.insert(p, x)),
{
    assert forall|k: int| p <= k < o.len() implies text_lt(x.0, #[trigger] o[k].0) by {
        if k > p {
            reveal(ids_increasing);
            assert(text_lt(o[p].0, o[k].0));
            lemma_text_lt_transitive(x.0, o[p].0, o[k].0);
        }
    }
    assert forall|k: int| 0 <= k < o.len() implies (#[trigger] o[k]).0 != x.0 by {
        if k < p {
            lemma_text_lt_ne(o[k].0, x.0);
        } else {
            lemma_text_lt_ne(x.0, o[k].0);
        }
    }
    lemma_insert_increasing(o, x, p);
    lemma_insert_each_last(t, o, x, p);
    lemma_insert_covered(t, o, x, p);
}

/// For each id among `found`, the last entry with it, in increasing order of
/// id (a user's entry, scanned after the system's, replaces it).
pub fn latest_per_id(found: &Vec<AppEntry>) -> (out: Vec<AppEntry>)
    ensures
        last_per_id(apps_view(found@), apps_view(out@)),
{
    let ghost s = apps_view(found@);
    let mut out: Vec<AppEntry> = Vec::new();
    let mut i: usize = 0;
    proof {
        reveal(ids_increasing);
        reveal(each_last);
        reveal(ids_covered);
    }
    assert(last_per_id(s.take(0), apps_view(out@)));
    while i < found.len()
        invariant
            s == apps_view(found@),
            i <= found@.len(),
            last_per_id(s.take(i as int), apps_view(out@)),
        decreases found@.len() - i,
    {
        let x = found[i].duplicate();
        let ghost o = apps_view(out@);
        let ghost xv = app_view(x);
        assert(s.take(i + 1) =~= s.take(i as int).push(xv));
        let mut p: usize = 0;
        while p < out.len() && text_less(out[p].id.as_str(), x.id.as_str())
            invariant
                o == apps_view(out@),
                xv == app_view(x),
                p <= out@.len(),
                forall|k: int| 0 <= k < p ==> text_lt(#[trigger] o[k].0, xv.0),
            decreases out@.len() - p,
        {
            p = p + 1;
        }
        if p < out.len() && str_eq(out[p].id.as_str(), x.id.as_str()) {
            proof {
                lemma_replace_id(s.take(i as int), o, xv, p as int);
            }
            out.set(p, x);
            assert(apps_view(out@) =~= o.update(p as int, xv));
        } else {
            proof {
                if p < o.len() {
                    lemma_text_lt_total(o[p as int].0, xv.0);
                }
                lemma_insert_id(s.take(i as int), o, xv, p as int);
            }
            out.insert(p, x);
            assert(apps_view(out@) =~= o.insert(p as int, xv));
        }
        i = i + 1;
    }
    assert(s.take(found@.len() as int) =~= s);
    out
}


/// Two entries launch the same app: same name, same argv.
pub open spec fn same_app(a: (Seq<char>, Seq<char>, Seq<Seq<char>>, Option<Seq<char>>), b: (Seq<char>, Seq<char>, Seq<Seq<char>>, Option<Seq<char>>)) -> bool {
    a.1 == b.1 && a.2 == b.2
}

/// An earlier entry of `s` launches the same app as `s[i]`.
pub open spec fn seen_before(s: Seq<(Seq<char>, Seq<char>, Seq<Seq<char>>, Option<Seq<char>>)>, i: int) -> bool {
    exists|j: int| 0 <= j < i && #[trigger] same_app(s[j], s[i])
}

/// The entries of `s` that launch an app no earlier entry launches, in order.
pub open spec fn first_of_each(s: Seq<(Seq<char>, Seq<char>, Seq<Seq<char>>, Option<Seq<char>>)>) -> Seq<(Seq<char>, Seq<char>, Seq<Seq<char>>, Option<Seq<char>>)>
    decreases s.len(),
{
    if s.len() == 0 {
        s
    } else {
        let rest = first_of_each(s.drop_last());
        if seen_before(s, s.len() - 1) {
            rest
        } else {
            rest.push(s.last())
        }
    }
}

/// Every entry de-duplication keeps is one of its input's.
proof fn lemma_first_of_each_from_input(s: Seq<(Seq<char>, Seq<char>, Seq<Seq<char>>, Option<Seq<char>>)>, k: int)
    requires
        0 <= k < first_of_each(s).len(),
    ensures
        exists|j: int| 0 <= j < s.len() && s[j] == first_of_each(s)[k],
    decreases s.len(),
{
    let rest = first_of_each(s.drop_last());
    if k < rest.len() {
        lemma_first_of_each_from_input(s.drop_last(), k);
        let j = choose|j: int| 0 <= j < s.drop_last().len() && s.drop_last()[j] == rest[k];
        assert(s[j] == first_of_each(s)[k]);
    } else {
        assert(first_of_each(s)[k] == s[s.len() - 1]);
    }
}

/// De-duplication drops an entry only when an earlier entry has the same
/// name and the same command line: an entry whose name and argv no earlier
/// entry shares is kept.
pub proof fn law_dedup_keeps_each_distinct_app(s: Seq<(Seq<char>, Seq<char>, Seq<Seq<char>>, Option<Seq<char>>)>, i: int)
    requires
        0 <= i < s.len(),
        first_of_its_kind(s, i),
    ensures
        first_of_each(s).contains(s[i]),
    decreases s.len(),
{
    let n = s.len() - 1;
    let rest = first_of_each(s.drop_last());
    if i == n {
        assert(!seen_before(s, n));
        assert(first_of_each(s) == rest.push(s[n]));
        assert(first_of_each(s)[rest.len() as int] == s[i]);
    } else {
        assert forall|j: int| 0 <= j < i implies !(s.drop_last()[j].1 == s.drop_last()[i].1 && s.drop_last()[j].2
            == s.drop_last()[i].2) by {
            assert(s.drop_last()[j] == s[j]);
        }
        law_dedup_keeps_each_distinct_app(s.drop_last(), i);
        assert(s.drop_last()[i] == s[i]);
        let k = choose|k: int| 0 <= k < rest.len() && rest[k] == s[i];
        if seen_before(s, n) {
            assert(first_of_each(s)[k] == s[i]);
        } else {
            assert(first_of_each(s)[k] == s[i]);
        }
    }
}

/// No two entries de-duplication keeps have both the same name and the same
/// command line.
pub proof fn law_dedup_leaves_no_twins(s: Seq<(Seq<char>, Seq<char>, Seq<Seq<char>>, Option<Seq<char>>)>, a: int, b: int)
    requires
        0 <= a < b < first_of_each(s).len(),
    ensures
        !(first_of_each(s)[a].1 == first_of_each(s)[b].1 && first_of_each(s)[a].2 == first_of_each(s)[b].2),
    decreases s.len(),
{
    let n = s.len() - 1;
    let rest = first_of_each(s.drop_last());
    if b < rest.len() {
        law_dedup_leaves_no_twins(s.drop_last(), a, b);
    } else {
        assert(!seen_before(s, n));
        assert(first_of_each(s)[b] == s[n]);
        assert(first_of_each(s)[a] == rest[a]);
        lemma_first_of_each_from_input(s.drop_last(), a);
        let j = choose|j: int| 0 <= j < s.drop_last().len() && s.drop_last()[j] == rest[a];
        assert(s[j] == rest[a]);
        if rest[a].1 == s[n].1 && rest[a].2 == s[n].2 {
            assert(same_app(s[j], s[n]));
        }
    }
}

/// `s[i]` is the first entry of `s` with its name and command line.
pub open spec fn first_of_its_kind(s: Seq<(Seq<char>, Seq<char>, Seq<Seq<char>>, Option<Seq<char>>)>, i: int) -> bool {
    forall|j: int| 0 <= j < i ==> !(#[trigger] s[j].1 == s[i].1 && s[j].2 == s[i].2)
}

/// The input positions of the entries de-duplication keeps.
spec fn kept_positions(s: Seq<(Seq<char>, Seq<char>, Seq<Seq<char>>, Option<Seq<char>>)>) -> Seq<int>
    decreases s.len(),
{
    if s.len() == 0 {
        seq![]
    } else if seen_before(s, s.len() - 1) {
        kept_positions(s.drop_last())
    } else {
        kept_positions(s.drop_last()).push(s.len() - 1)
    }
}

proof fn lemma_kept_positions(s: Seq<(Seq<char>, Seq<char>, Seq<Seq<char>>, Option<Seq<char>>)>)
    ensures
        kept_positions(s).len() == first_of_each(s).len(),
        forall|k: int| 0 <= k < kept_positions(s).len() ==> 0 <= #[trigger] kept_positions(s)[k] < s.len()
            && first_of_each(s)[k] == s[kept_positions(s)[k]]
            && first_of_its_kind(s, kept_positions(s)[k]),
        forall|k: int, l: int| 0 <= k < l < kept_positions(s).len() ==> kept_positions(s)[k] < kept_positions(s)[l],
    decreases s.len(),
{
    if s.len() > 0 {
        let d = s.drop_last();
        let n = s.len() - 1;
        lemma_kept_positions(d);
        let pd = kept_positions(d);
        assert forall|k: int| 0 <= k < pd.len() implies 0 <= #[trigger] pd[k] < s.len() && first_of_each(d)[k]
            == s[pd[k]] && first_of_its_kind(s, pd[k]) by {
            assert(d[pd[k]] == s[pd[k]]);
            assert forall|j: int| 0 <= j < pd[k] implies !(#[trigger] s[j].1 == s[pd[k]].1 && s[j].2 == s[pd[k]].2) by {
                assert(d[j] == s[j]);
            }
        }
        if !seen_before(s, n) {
            let ps = pd.push(n);
            assert forall|j: int| 0 <= j < n implies !(#[trigger] s[j].1 == s[n].1 && s[j].2 == s[n].2) by {
                if s[j].1 == s[n].1 && s[j].2 == s[n].2 {
                    assert(same_app(s[j], s[n]));
                }
            }
            assert forall|k: int| 0 <= k < ps.len() implies 0 <= #[trigger] ps[k] < s.len() && first_of_each(s)[k]
                == s[ps[k]] && first_of_its_kind(s, ps[k]) by {
                if k < pd.len() {
                    assert(ps[k] == pd[k]);
                }
            }
        }
    }
}

/// De-duplication keeps its input's order and keeps only first
/// occurrences: the kept entries are input entries at increasing positions,
/// each the first of the input with its name and command line.
pub proof fn law_dedup_keeps_first_occurrences_in_order(s: Seq<(Seq<char>, Seq<char>, Seq<Seq<char>>, Option<Seq<char>>)>)
    ensures
        exists|pos: Seq<int>|
            #![trigger pos.len()]
            pos.len() == first_of_each(s).len() && (forall|k: int|
                0 <= k < pos.len() ==> 0 <= #[trigger] pos[k] < s.len() && first_of_each(s)[k] == s[pos[k]]
                    && first_of_its_kind(s, pos[k])) && (
            forall|k: int, l: int| 0 <= k < l < pos.len() ==> pos[k] < pos[l]),
{
    lemma_kept_positions(s);
    let pos = kept_positions(s);
    assert(pos.len() == first_of_each(s).len());
}

/// Element-wise equality of two lists of strings.
fn strings_equal(a: &Vec<String>, b: &Vec<String>) -> (r: bool)
    ensures
        r == (strings_view(a@) == strings_view(b@)),
{
    if a.len() != b.len() {
        assert(strings_view(a@).len() != strings_view(b@).len());
        return false;
    }
    let mut i: usize = 0;
    while i < a.len()
        invariant
            a@.len() == b@.len(),
            i <= a@.len(),
            forall|k: int| 0 <= k < i ==> (#[trigger] a@[k])@ == b@[k]@,
        decreases a@.len() - i,
    {
        if !str_eq(a[i].as_str(), b[i].as_str()) {
            assert(strings_view(a@)[i as int] != strings_view(b@)[i as int]);
            return false;
        }
        i = i + 1;
    }
    assert(strings_view(a@) =~= strings_view(b@));
    true
}

/// The same app installed twice (system and user) is offered once: the
/// first entry of each app is kept, in order.
pub fn first_of_each_app(v: &Vec<AppEntry>) -> (out: Vec<AppEntry>)
    ensures
        apps_view(out@) == first_of_each(apps_view(v@)),
{
    let ghost s = apps_view(v@);
    let mut out: Vec<AppEntry> = Vec::new();
    let mut i: usize = 0;
    assert(s.take(0) =~= Seq::<(Seq<char>, Seq<char>, Seq<Seq<char>>, Option<Seq<char>>)>::empty());
    assert(apps_view(out@) =~= Seq::<(Seq<char>, Seq<char>, Seq<Seq<char>>, Option<Seq<char>>)>::empty());
    while i < v.len()
        invariant
            s == apps_view(v@),
            i <= v@.len(),
            apps_view(out@) == first_of_each(s.take(i as int)),
        decreases v@.len() - i,
    {
        let mut seen = false;
        let mut j: usize = 0;
        while j < i
            invariant
                s == apps_view(v@),
                i < v@.len(),
                j <= i,
                seen == exists|jj: int| 0 <= jj < j && #[trigger] same_app(s[jj], s[i as int]),
            decreases i - j,
        {
            if str_eq(v[j].name.as_str(), v[i].name.as_str()) && strings_equal(&v[j].argv, &v[i].argv) {
                assert(same_app(s[j as int], s[i as int]));
                seen = true;
            } else {
                assert(!same_app(s[j as int], s[i as int]));
            }
            j = j + 1;
        }
        let ghost t = s.take(i + 1);
        assert(t.drop_last() =~= s.take(i as int));
        assert(t.last() == s[i as int]);
        proof {
            if seen {
                let jj = choose|jj: int| 0 <= jj < i && #[trigger] same_app(s[jj], s[i as int]);
                assert(same_app(t[jj], t[i as int]));
            } else {
                assert forall|jj: int| 0 <= jj < i implies !#[trigger] same_app(t[jj], t[i as int]) by {
                    assert(t[jj] == s[jj]);
                    assert(!same_app(s[jj], s[i as int]));
                }
            }
        }
        assert(seen == seen_before(t, i as int));
        let ghost before = apps_view(out@);
        if !seen {
            let e = v[i].duplicate();
            out.push(e);
            assert(apps_view(out@) =~= before.push(s[i as int]));
        }
        i = i + 1;
    }
    assert(s.take(v@.len() as int) =~= s);
    out
}

/// Names what `str::to_lowercase` gives for a text.
pub uninterp spec fn lowercase(s: Seq<char>) -> Seq<char>;

/// `str::to_lowercase`: the text with every character replaced by its
/// lowercase mapping. Its result is named, not described.
#[verifier::external_body]
fn to_lowercase(s: &str) -> (r: String)
    ensures
        r@ == lowercase(s@),
{
    s.to_lowercase()
}

/// The key apps are listed by: the lowercased name.
pub open spec fn name_key(a: (Seq<char>, Seq<char>, Seq<Seq<char>>, Option<Seq<char>>)) -> Seq<char> {
    lowercase(a.1)
}

/// `out` is `s` reordered through `p` (`out[k]` is `s[p[k]]`, `p` one-to-one),
/// ascending by lowercased name, entries with equal keys in their order in
/// `s`.
pub open spec fn stable_by_name(s: Seq<(Seq<char>, Seq<char>, Seq<Seq<char>>, Option<Seq<char>>)>, out: Seq<(Seq<char>, Seq<char>, Seq<Seq<char>>, Option<Seq<char>>)>, p: Seq<int>) -> bool {
    &&& p.len() == s.len()
    &&& out.len() == s.len()
    &&& forall|k: int| 0 <= k < out.len() ==> 0 <= #[trigger] p[k] < s.len() && out[k] == s[p[k]]
    &&& forall|k: int, l: int| 0 <= k < l < out.len() ==> #[trigger] p[k] != #[trigger] p[l]
    &&& forall|k: int, l: int| 0 <= k < l < out.len() ==> !text_lt(name_key(#[trigger] out[l]), name_key(#[trigger] out[k]))
    &&& forall|k: int, l: int| 0 <= k < l < out.len() && name_key(out[k]) == name_key(out[l]) ==> #[trigger] p[k] < #[trigger] p[l]
}

/// `out` is `s` sorted stably by lowercased name.
pub open spec fn sorted_by_name(s: Seq<(Seq<char>, Seq<char>, Seq<Seq<char>>, Option<Seq<char>>)>, out: Seq<(Seq<char>, Seq<char>, Seq<Seq<char>>, Option<Seq<char>>)>) -> bool {
    exists|p: Seq<int>| #[trigger] stable_by_name(s, out, p)
}

proof fn lemma_stable_insert(t: Seq<(Seq<char>, Seq<char>, Seq<Seq<char>>, Option<Seq<char>>)>, o: Seq<(Seq<char>, Seq<char>, Seq<Seq<char>>, Option<Seq<char>>)>, p: Seq<int>, x: (Seq<char>, Seq<char>, Seq<Seq<char>>, Option<Seq<char>>), at: int)
    requires
        stable_by_name(t, o, p),
        0 <= at <= o.len(),
        forall|k: int| 0 <= k < at ==> !text_lt(name_key(x), name_key(#[trigger] o[k])),
        at < o.len() ==> text_lt(name_key(x), name_key(o[at])),
    ensures
        stable_by_name(t.push(x), o.insert(at, x), p.insert(at, t.len() as int)),
{
    let n = t.len() as int;
    assert forall|k: int| at <= k < o.len() implies text_lt(name_key(x), name_key(#[trigger] o[k])) by {
        if k > at {
            assert(!text_lt(name_key(o[k]), name_key(o[at])));
            lemma_text_lt_total(name_key(o[at]), name_key(o[k]));
            if name_key(o[at]) != name_key(o[k]) {
                lemma_text_lt_transitive(name_key(x), name_key(o[at]), name_key(o[k]));
            }
        }
    }
    let t2 = t.push(x);
    let o2 = o.insert(at, x);
    let p2 = p.insert(at, n);
    assert forall|k: int| 0 <= k < o2.len() implies 0 <= #[trigger] p2[k] < t2.len() && o2[k] == t2[p2[k]] by {
        if k < at {
            assert(p2[k] == p[k] && o2[k] == o[k]);
            assert(0 <= p[k] < t.len() && o[k] == t[p[k]]);
        } else if k > at {
            assert(p2[k] == p[k - 1] && o2[k] == o[k - 1]);
            assert(0 <= p[k - 1] < t.len() && o[k - 1] == t[p[k - 1]]);
        }
    }
    assert forall|k: int, l: int| 0 <= k < l < o2.len() implies #[trigger] p2[k] != #[trigger] p2[l] by {
        let kk = if k < at { k } else { k - 1 };
        let ll = if l < at { l } else { l - 1 };
        if k == at {
            assert(p2[l] == p[ll] && p[ll] < n);
        } else if l == at {
            assert(p2[k] == p[kk] && p[kk] < n);
        } else {
            assert(p2[k] == p[kk] && p2[l] == p[ll]);
            assert(p[kk] != p[ll]);
        }
    }
    assert forall|k: int, l: int| 0 <= k < l < o2.len() implies !text_lt(name_key(#[trigger] o2[l]), name_key(#[trigger] o2[k])) by {
        let kk = if k < at { k } else { k - 1 };
        let ll = if l < at { l } else { l - 1 };
        if k == at {
            assert(o2[l] == o[ll]);
            lemma_text_lt_asymmetric(name_key(x), name_key(o[ll]));
        } else if l == at {
            assert(o2[k] == o[kk]);
        } else {
            assert(o2[k] == o[kk] && o2[l] == o[ll]);
            assert(!text_lt(name_key(o[ll]), name_key(o[kk])));
        }
    }
    assert forall|k: int, l: int| 0 <= k < l < o2.len() && name_key(o2[k]) == name_key(o2[l]) implies #[trigger] p2[k] < #[trigger] p2[l] by {
        let kk = if k < at { k } else { k - 1 };
        let ll = if l < at { l } else { l - 1 };
        if k == at {
            assert(o2[l] == o[ll]);
            lemma_text_lt_irreflexive(name_key(x));
        } else if l == at {
            assert(p2[k] == p[kk] && p[kk] < n);
        } else {
            assert(o2[k] == o[kk] && o2[l] == o[ll]);
            assert(p2[k] == p[kk] && p2[l] == p[ll]);
            assert(p[kk] < p[ll]);
        }
    }
}

/// The entries ordered by lowercased name; entries with equal keys keep
/// their order.
pub fn sort_by_name(v: &Vec<AppEntry>) -> (out: Vec<AppEntry>)
    ensures
        sorted_by_name(apps_view(v@), apps_view(out@)),
{
    let ghost s = apps_view(v@);
    let mut out: Vec<AppEntry> = Vec::new();
    let mut keys: Vec<String> = Vec::new();
    let ghost mut perm: Seq<int> = seq![];
    let mut i: usize = 0;
    assert(s.take(0) =~= Seq::<(Seq<char>, Seq<char>, Seq<Seq<char>>, Option<Seq<char>>)>::empty());
    assert(apps_view(out@) =~= Seq::<(Seq<char>, Seq<char>, Seq<Seq<char>>, Option<Seq<char>>)>::empty());
    while i < v.len()
        invariant
            s == apps_view(v@),
            i <= v@.len(),
            keys@.len() == out@.len(),
            forall|k: int| 0 <= k < keys@.len() ==> (#[trigger] keys@[k])@ == name_key(apps_view(out@)[k]),
            stable_by_name(s.take(i as int), apps_view(out@), perm),
        decreases v@.len() - i,
    {
        let x = v[i].duplicate();
        let kx = to_lowercase(x.name.as_str());
        let ghost o = apps_view(out@);
        let ghost xv = app_view(x);
        let mut p: usize = 0;
        while p < keys.len() && !text_less(kx.as_str(), keys[p].as_str())
            invariant
                o == apps_view(out@),
                keys@.len() == o.len(),
                p <= o.len(),
                kx@ == name_key(xv),
                forall|k: int| 0 <= k < keys@.len() ==> (#[trigger] keys@[k])@ == name_key(o[k]),
                forall|k: int| 0 <= k < p ==> !text_lt(name_key(xv), name_key(#[trigger] o[k])),
            decreases o.len() - p,
        {
            assert(keys@[p as int]@ == name_key(o[p as int]));
            p = p + 1;
        }
        proof {
            if p < o.len() {
                assert(keys@[p as int]@ == name_key(o[p as int]));
            }
            lemma_stable_insert(s.take(i as int), o, perm, xv, p as int);
            perm = perm.insert(p as int, i as int);
        }
        let ghost old_keys = keys@;
        out.insert(p, x);
        keys.insert(p, kx);
        assert(apps_view(out@) =~= o.insert(p as int, xv));
        assert(s.take(i + 1) =~= s.take(i as int).push(xv));
        assert forall|k: int| 0 <= k < keys@.len() implies (#[trigger] keys@[k])@ == name_key(apps_view(out@)[k]) by {
            if k < p {
                assert(keys@[k] == old_keys[k]);
            } else if k > p {
                assert(keys@[k] == old_keys[k - 1]);
            }
        }
        i = i + 1;
    }
    assert(s.take(v@.len() as int) =~= s);
    out
}

/// The applications offered, from the entries found in scan order (system
/// directories first, the user's last): per desktop-file id the last one
/// found, in order of id; the same app (name and argv) only once, the first
/// of them; then sorted by lowercased name, ties in that order.
pub fn collect_apps(found: &Vec<AppEntry>) -> (out: Vec<AppEntry>)
    ensures
        exists|by_id: Seq<(Seq<char>, Seq<char>, Seq<Seq<char>>, Option<Seq<char>>)>| #[trigger] last_per_id(apps_view(found@), by_id)
            && sorted_by_name(first_of_each(by_id), apps_view(out@)),
{
    let a = latest_per_id(found);
    let b = first_of_each_app(&a);
    let c = sort_by_name(&b);
    assert(last_per_id(apps_view(found@), apps_view(a@)));
    c
}

} // verus!
