//! Locating the user's gesture config: the `include` lines of a config file,
//! how an include target expands (the same way niri does it), and which file
//! the app manages. Paths are held as text.

use vstd::prelude::*;
use crate::kdl::{NodeV, first_named, parse_document_spec};
use crate::model::{strings_view, parse_error_text, clone_strings};
use crate::text::{owned, chars_of, string_from_range, str_eq};

verus! {

/// How deep `include` chains are followed.
pub const RECURSION_LIMIT: usize = 16;

/// Where the `gestures {}` node lives.
#[derive(Debug, Clone, PartialEq)]
pub enum Source {
    /// A dedicated included file owns the `gestures {}` node.
    ManagedFile(String),
    /// More than one file has a `gestures` node; we manage the first, the
    /// others are listed so the user knows later includes override.
    ManagedFileAmbiguous(String, Vec<String>),
    /// config.kdl itself has an inline `gestures {}` node.
    Inline(String),
    /// No gestures config anywhere.
    NotFound,
}

/// The value of a [`Source`].
pub enum SourceV {
    ManagedFile(Seq<char>),
    ManagedFileAmbiguous(Seq<char>, Seq<Seq<char>>),
    Inline(Seq<char>),
    NotFound,
}

impl Source {
    pub open spec fn view(&self) -> SourceV {
        match self {
            Source::ManagedFile(p) => SourceV::ManagedFile(p@),
            Source::ManagedFileAmbiguous(p, others) => SourceV::ManagedFileAmbiguous(p@, strings_view(others@)),
            Source::Inline(p) => SourceV::Inline(p@),
            Source::NotFound => SourceV::NotFound,
        }
    }
}

/// The outcome of startup discovery.
#[derive(Debug, Clone)]
pub struct Discovery {
    /// The main config file, if one exists.
    pub config_path: Option<String>,
    pub source: Source,
}

/// Anything worth surfacing in the UI that is not an error.
#[derive(Debug, Clone, PartialEq)]
pub enum Notice {
    ManagedFile(String),
    AmbiguousFiles(String, Vec<String>),
    InlineInConfig(String),
    FirstRun,
    NoConfigFile,
}

/// The value of a [`Notice`].
pub enum NoticeV {
    ManagedFile(Seq<char>),
    AmbiguousFiles(Seq<char>, Seq<Seq<char>>),
    InlineInConfig(Seq<char>),
    FirstRun,
    NoConfigFile,
}

impl Notice {
    pub open spec fn view(&self) -> NoticeV {
        match self {
            Notice::ManagedFile(p) => NoticeV::ManagedFile(p@),
            Notice::AmbiguousFiles(p, others) => NoticeV::AmbiguousFiles(p@, strings_view(others@)),
            Notice::InlineInConfig(p) => NoticeV::InlineInConfig(p@),
            Notice::FirstRun => NoticeV::FirstRun,
            Notice::NoConfigFile => NoticeV::NoConfigFile,
        }
    }
}

pub open spec fn notices_view(v: Seq<Notice>) -> Seq<NoticeV> {
    Seq::new(v.len(), |i: int| v[i].view())
}

/// The notice for where the gestures live.
pub open spec fn source_notice(s: SourceV) -> NoticeV {
    match s {
        SourceV::ManagedFile(p) => NoticeV::ManagedFile(p),
        SourceV::ManagedFileAmbiguous(p, others) => NoticeV::AmbiguousFiles(p, others),
        SourceV::Inline(p) => NoticeV::InlineInConfig(p),
        SourceV::NotFound => NoticeV::FirstRun,
    }
}

/// The notices of a discovery: a missing config file first, then where the
/// gestures live.
pub open spec fn notices_of(config_missing: bool, s: SourceV) -> Seq<NoticeV> {
    if config_missing {
        seq![NoticeV::NoConfigFile, source_notice(s)]
    } else {
        seq![source_notice(s)]
    }
}

impl Discovery {
    pub fn notices(&self) -> (n: Vec<Notice>)
        ensures
            notices_view(n@) == notices_of(self.config_path is None, self.source.view()),
    {
        let mut n: Vec<Notice> = Vec::new();
        if self.config_path.is_none() {
            n.push(Notice::NoConfigFile);
        }
        let last = match &self.source {
            Source::ManagedFile(p) => Notice::ManagedFile(p.clone()),
            Source::ManagedFileAmbiguous(p, others) => Notice::AmbiguousFiles(p.clone(), clone_strings(others)),
            Source::Inline(p) => Notice::InlineInConfig(p.clone()),
            Source::NotFound => Notice::FirstRun,
        };
        n.push(last);
        assert(notices_view(n@) =~= notices_of(self.config_path is None, self.source.view()));
        n
    }
}

// ---------------------------------------------------------------------------
// Include targets.
// ---------------------------------------------------------------------------

/// The path `Path::join` gives for a base path and another path, as text.
pub uninterp spec fn path_join(base: Seq<char>, rest: Seq<char>) -> Seq<char>;

/// The path `Path::parent` gives for a path, as text.
pub uninterp spec fn path_parent(p: Seq<char>) -> Option<Seq<char>>;

/// `Path::join`, on paths held as text. The result is `path_join` of the two
/// texts; as std documents, an absolute `rest` replaces the base, and a
/// relative one extends a base that does not end in `/` after a `/`. What it
/// gives for an empty base or one ending in `/` is left unsaid.
#[verifier::external_body]
fn join_path(base: &str, rest: &str) -> (r: String)
    ensures
        r@ == path_join(base@, rest@),
        is_absolute(rest@) ==> r@ == rest@,
        !is_absolute(rest@) && rest@.len() > 0 && base@.len() > 0 && base@.last() != '/' ==> r@ == base@ + seq![
            '/',
        ] + rest@,
{
    std::path::Path::new(base).join(rest).to_string_lossy().into_owned()
}

/// `Path::parent`, on a path held as text; the result is taken to be
/// `path_parent` of the text, nothing more is claimed.
#[verifier::external_body]
fn parent_path(p: &str) -> (r: Option<String>)
    ensures
        match r {
            Some(q) => path_parent(p@) == Some(q@),
            None => path_parent(p@) is None,
        },
{
    match std::path::Path::new(p).parent() {
        Some(q) => Some(q.to_string_lossy().into_owned()),
        None => None,
    }
}

/// `s` without its leading `/` characters.
pub open spec fn trim_leading_slashes(s: Seq<char>) -> Seq<char>
    decreases s.len(),
{
    if s.len() > 0 && s[0] == '/' {
        trim_leading_slashes(s.drop_first())
    } else {
        s
    }
}

/// An absolute path on Unix starts at the root.
pub open spec fn is_absolute(p: Seq<char>) -> bool {
    p.len() > 0 && p[0] == '/'
}

/// Where an include target points: `~` expands to the home directory, an
/// absolute target stays, anything else is relative to the directory of
/// the including file.
pub open spec fn expanded_include(raw: Seq<char>, including: Seq<char>, home: Option<Seq<char>>) -> Seq<char> {
    if raw.len() > 0 && raw[0] == '~' && home is Some {
        path_join(home->0, trim_leading_slashes(raw.drop_first()))
    } else if is_absolute(raw) {
        raw
    } else {
        path_join(
            match path_parent(including) {
                Some(d) => d,
                None => "."@,
            },
            raw,
        )
    }
}

/// Expand an include target the way niri does: `~` first (when the home
/// directory is known), then relative to the including file's directory.
pub fn expand_include(raw: &str, including: &str, home: Option<&str>) -> (r: String)
    ensures
        r@ == expanded_include(raw@, including@, match home {
            Some(h) => Some(h@),
            None => None,
        }),
        raw@.len() > 0 && raw@[0] == '~' && home is Some && home->0@.len() > 0 && home->0@.last() != '/'
            && trim_leading_slashes(raw@.drop_first()).len() > 0 ==> r@ == home->0@ + seq!['/']
            + trim_leading_slashes(raw@.drop_first()),
        raw@.len() > 0 && raw@[0] != '~' && raw@[0] != '/' && path_parent(including@) is Some
            && path_parent(including@)->0.len() > 0 && path_parent(including@)->0.last() != '/' ==> r@
            == path_parent(including@)->0 + seq!['/'] + raw@,
{
    let cs = chars_of(raw);
    if cs.len() > 0 && cs[0] == '~' {
        if let Some(h) = home {
            let mut k: usize = 1;
            assert(cs@.drop_first() == cs@.skip(1));
            while k < cs.len() && cs[k] == '/'
                invariant
                    1 <= k <= cs@.len(),
                    cs@ == raw@,
                    trim_leading_slashes(cs@.skip(k as int)) == trim_leading_slashes(raw@.drop_first()),
                decreases cs@.len() - k,
            {
                assert(cs@.skip(k as int).drop_first() == cs@.skip(k + 1));
                k = k + 1;
            }
            assert(trim_leading_slashes(cs@.skip(k as int)) == cs@.skip(k as int));
            let rest = string_from_range(cs.as_slice(), k, cs.len());
            assert(cs@.subrange(k as int, cs@.len() as int) == cs@.skip(k as int));
            return join_path(h, rest.as_str());
        }
    }
    if cs.len() > 0 && cs[0] == '/' {
        owned(raw)
    } else {
        match parent_path(including) {
            Some(d) => join_path(d.as_str(), raw),
            None => join_path(".", raw),
        }
    }
}

/// The targets of the top-level `include` nodes (first argument each), in order.
pub open spec fn include_targets(doc: Seq<NodeV>) -> Seq<Seq<char>>
    decreases doc.len(),
{
    if doc.len() == 0 {
        seq![]
    } else {
        let rest = include_targets(doc.drop_last());
        let n = doc.last();
        if n.name == "include"@ && n.args.len() > 0 { rest.push(n.args[0].text()) } else { rest }
    }
}

/// The include targets of a config text; none when it does not parse.
pub open spec fn direct_includes_of(text: Seq<char>) -> Seq<Seq<char>> {
    match parse_document_spec(text) {
        Ok(doc) => include_targets(doc),
        Err(_) => seq![],
    }
}

/// Parse one file's direct `include` lines into raw targets.
pub fn direct_includes(text: &str) -> (r: Vec<String>)
    ensures
        strings_view(r@) == direct_includes_of(text@),
{
    let doc = match crate::kdl::parse_document(text) {
        Ok(doc) => doc,
        Err(_) => {
            return Vec::new();
        },
    };
    let ghost dv = crate::kdl::nodes_view(doc@);
    let mut out: Vec<String> = Vec::new();
    let mut i: usize = 0;
    assert(dv.take(0) =~= Seq::<NodeV>::empty());
    while i < doc.len()
        invariant
            dv == crate::kdl::nodes_view(doc@),
            i <= doc@.len(),
            strings_view(out@) == include_targets(dv.take(i as int)),
        decreases doc@.len() - i,
    {
        let n = &doc[i];
        assert(dv.take(i + 1).drop_last() =~= dv.take(i as int));
        assert(dv.take(i + 1).last() == n.view());
        if str_eq(n.name.as_str(), "include") && n.args.len() > 0 {
            let ghost before = strings_view(out@);
            out.push(owned(n.args[0].text()));
            assert(strings_view(out@) =~= before.push(n.view().args[0].text()));
        }
        i = i + 1;
    }
    assert(dv.take(doc@.len() as int) =~= dv);
    out
}

/// Whether a config text has a top-level `gestures` node, or why it cannot
/// be read.
pub open spec fn has_gestures(text: Seq<char>) -> Result<bool, Seq<char>> {
    match parse_document_spec(text) {
        Err(e) => Err(parse_error_text(e)),
        Ok(doc) => Ok(first_named(doc, "gestures"@) is Some),
    }
}

/// Does this config text contain a top-level `gestures` node?
pub fn text_has_gestures(text: &str) -> (r: Result<bool, String>)
    ensures
        match r {
            Ok(b) => has_gestures(text@) == Ok::<bool, Seq<char>>(b),
            Err(e) => has_gestures(text@) == Err::<bool, Seq<char>>(e@),
        },
{
    match crate::kdl::parse_document(text) {
        Err(e) => Err(e.to_text()),
        Ok(doc) => Ok(crate::kdl::find_top_level(doc.as_slice(), "gestures").is_some()),
    }
}

// ---------------------------------------------------------------------------
// Choosing the managed file.
// ---------------------------------------------------------------------------

/// Where the gestures live, given the config path, the candidate files that
/// hold a `gestures` node (included files in merge order, the config last),
/// and the config's text when it could be read.
pub open spec fn chosen_source(config: Seq<char>, found: Seq<Seq<char>>, config_text: Option<Seq<char>>) -> SourceV {
    if found.len() == 1 {
        if found[0] != config { SourceV::ManagedFile(found[0]) } else { SourceV::Inline(config) }
    } else if found.len() == 0 {
        // Nothing parseable: an unparseable config that clearly has an
        // inline gestures block (span scan) is treated as inline, so the
        // user gets the extraction flow.
        match config_text {
            Some(t) => if crate::kdl::span_bytes(t, "gestures"@) is Some {
                SourceV::Inline(config)
            } else {
                SourceV::NotFound
            },
            None => SourceV::NotFound,
        }
    } else {
        SourceV::ManagedFileAmbiguous(found[0], found.skip(1))
    }
}

/// Decide where the gestures live once the candidate files are checked.
pub fn choose_source(config: &str, found: &Vec<String>, config_text: Option<&str>) -> (s: Source)
    ensures
        s.view() == chosen_source(config@, strings_view(found@), match config_text {
            Some(t) => Some(t@),
            None => None,
        }),
{
    let ghost fv = strings_view(found@);
    if found.len() == 1 {
        if !str_eq(found[0].as_str(), config) {
            Source::ManagedFile(found[0].clone())
        } else {
            Source::Inline(owned(config))
        }
    } else if found.len() == 0 {
        match config_text {
            Some(t) => {
                if crate::kdl::find_top_level_node_span(t, "gestures").is_some() {
                    Source::Inline(owned(config))
                } else {
                    Source::NotFound
                }
            },
            None => Source::NotFound,
        }
    } else {
        let mut others: Vec<String> = Vec::new();
        let mut i: usize = 1;
        while i < found.len()
            invariant
                fv == strings_view(found@),
                1 <= i <= found@.len(),
                strings_view(others@) == fv.subrange(1, i as int),
            decreases found@.len() - i,
        {
            let ghost before = strings_view(others@);
            others.push(found[i].clone());
            assert(strings_view(others@) =~= before.push(fv[i as int]));
            assert(fv.subrange(1, i + 1) =~= fv.subrange(1, i as int).push(fv[i as int]));
            i = i + 1;
        }
        assert(fv.subrange(1, found@.len() as int) =~= fv.skip(1));
        Source::ManagedFileAmbiguous(found[0].clone(), others)
    }
}

// ---------------------------------------------------------------------------
// Walking the include chain.
// ---------------------------------------------------------------------------

/// The state of a breadth-first walk over a config and its includes, in niri
/// merge order: the files still to read (with their include depth), the
/// canonical paths already seen, and the included files found so far.
pub struct IncludeWalk {
    pub queue: Vec<(String, usize)>,
    pub visited: Vec<String>,
    pub found: Vec<String>,
}

pub open spec fn queue_view(q: Seq<(String, usize)>) -> Seq<(Seq<char>, usize)> {
    Seq::new(q.len(), |i: int| (q[i].0@, q[i].1))
}

/// Index of the first queued file within the depth limit.
pub open spec fn first_within(q: Seq<(Seq<char>, usize)>) -> Option<int>
    decreases q.len(),
{
    if q.len() == 0 {
        None
    } else if q[0].1 <= RECURSION_LIMIT {
        Some(0)
    } else {
        match first_within(q.drop_first()) {
            Some(k) => Some(k + 1),
            None => None,
        }
    }
}

proof fn lemma_first_within_at(q: Seq<(Seq<char>, usize)>, d: int)
    requires
        0 <= d < q.len(),
        forall|j: int| 0 <= j < d ==> (#[trigger] q[j]).1 > RECURSION_LIMIT,
        q[d].1 <= RECURSION_LIMIT,
    ensures
        first_within(q) == Some(d),
    decreases d,
{
    if d > 0 {
        assert forall|j: int| 0 <= j < d - 1 implies (#[trigger] q.drop_first()[j]).1 > RECURSION_LIMIT by {
            assert(q.drop_first()[j] == q[j + 1]);
        }
        assert(q[0].1 > RECURSION_LIMIT);
        lemma_first_within_at(q.drop_first(), d - 1);
    }
}

proof fn lemma_first_within_none(q: Seq<(Seq<char>, usize)>, d: int)
    requires
        d == q.len(),
        forall|j: int| 0 <= j < d ==> (#[trigger] q[j]).1 > RECURSION_LIMIT,
    ensures
        first_within(q) is None,
    decreases d,
{
    if d > 0 {
        assert forall|j: int| 0 <= j < d - 1 implies (#[trigger] q.drop_first()[j]).1 > RECURSION_LIMIT by {
            assert(q.drop_first()[j] == q[j + 1]);
        }
        assert(q[0].1 > RECURSION_LIMIT);
        lemma_first_within_none(q.drop_first(), d - 1);
    }
}

proof fn lemma_first_within_bound(q: Seq<(Seq<char>, usize)>)
    ensures
        match first_within(q) {
            Some(k) => 0 <= k < q.len() && q[k].1 <= RECURSION_LIMIT,
            None => true,
        },
    decreases q.len(),
{
    if q.len() > 0 && q[0].1 > RECURSION_LIMIT {
        lemma_first_within_bound(q.drop_first());
    }
}

impl IncludeWalk {
    /// A walk that starts at the config file (depth 0), whose canonical path
    /// counts as seen.
    pub fn new(config: &str, config_canonical: &str) -> (w: IncludeWalk)
        ensures
            queue_view(w.queue@) == seq![(config@, 0usize)],
            strings_view(w.visited@) == seq![config_canonical@],
            w.found@.len() == 0,
            w.visits_once(),
    {
        let mut queue: Vec<(String, usize)> = Vec::new();
        queue.push((owned(config), 0));
        let mut visited: Vec<String> = Vec::new();
        visited.push(owned(config_canonical));
        assert(queue_view(queue@) =~= seq![(config@, 0usize)]);
        assert(strings_view(visited@) =~= seq![config_canonical@]);
        IncludeWalk { queue, visited, found: Vec::new() }
    }

    /// No file is read twice: each canonical path is seen once, and each file
    /// found besides the config itself was seen when it was taken.
    pub open spec fn visits_once(&self) -> bool {
        &&& strings_view(self.visited@).no_duplicates()
        &&& self.visited@.len() == self.found@.len() + 1
    }

    /// The next file to read: queued files deeper than the recursion limit
    /// are dropped on the way; None when nothing is left.
    pub fn next_file(&mut self) -> (r: Option<(String, usize)>)
        ensures
            match first_within(queue_view(old(self).queue@)) {
                Some(k) => match r {
                    Some(entry) => (entry.0@, entry.1) == queue_view(old(self).queue@)[k]
                        && queue_view(final(self).queue@) == queue_view(old(self).queue@).skip(k + 1),
                    None => false,
                },
                None => r is None && final(self).queue@.len() == 0,
            },
            final(self).visited@ == old(self).visited@,
            final(self).found@ == old(self).found@,
            old(self).visits_once() ==> final(self).visits_once(),
    {
        let ghost q0 = queue_view(self.queue@);
        let n0 = self.queue.len();
        let mut dropped: usize = 0;
        assert(q0.skip(0) =~= q0);
        while self.queue.len() > 0
            invariant
                q0 == queue_view(old(self).queue@),
                q0.len() == n0,
                queue_view(self.queue@) == q0.skip(dropped as int),
                dropped + self.queue@.len() == q0.len(),
                forall|j: int| 0 <= j < dropped ==> (#[trigger] q0[j]).1 > RECURSION_LIMIT,
                self.visited@ == old(self).visited@,
                self.found@ == old(self).found@,
            decreases self.queue@.len(),
        {
            let ghost before = queue_view(self.queue@);
            let (path, depth) = self.queue.remove(0);
            assert(before[0] == (path@, depth));
            assert(queue_view(self.queue@) =~= before.drop_first());
            assert(before.drop_first() =~= q0.skip(dropped + 1));
            assert(q0[dropped as int] == before[0]);
            if depth <= RECURSION_LIMIT {
                proof {
                    lemma_first_within_at(q0, dropped as int);
                }
                return Some((path, depth));
            }
            dropped = dropped + 1;
        }
        proof {
            lemma_first_within_none(q0, q0.len() as int);
        }
        None
    }

    /// An include target that exists, with its canonical path, found while
    /// reading a file at `depth`: taken (as found and to be read, one level
    /// deeper) unless its canonical path was already seen. Says whether it
    /// was taken.
    pub fn take_include(&mut self, expanded: String, canonical: String, depth: usize) -> (taken: bool)
        requires
            depth < usize::MAX,
        ensures
            taken == !strings_view(old(self).visited@).contains(canonical@),
            taken ==> strings_view(final(self).visited@) == strings_view(old(self).visited@).push(canonical@)
                && strings_view(final(self).found@) == strings_view(old(self).found@).push(expanded@)
                && queue_view(final(self).queue@) == queue_view(old(self).queue@).push((expanded@, (depth + 1) as usize)),
            !taken ==> final(self).visited@ == old(self).visited@ && final(self).found@ == old(self).found@
                && final(self).queue@ == old(self).queue@,
            old(self).visits_once() ==> final(self).visits_once(),
    {
        let ghost vv = strings_view(self.visited@);
        let mut i: usize = 0;
        while i < self.visited.len()
            invariant
                vv == strings_view(self.visited@),
                i <= self.visited@.len(),
                forall|j: int| 0 <= j < i ==> vv[j] != canonical@,
            decreases self.visited@.len() - i,
        {
            if str_eq(self.visited[i].as_str(), canonical.as_str()) {
                assert(vv[i as int] == canonical@);
                return false;
            }
            i = i + 1;
        }
        let ghost q = queue_view(self.queue@);
        let ghost f = strings_view(self.found@);
        self.visited.push(canonical);
        self.found.push(expanded.clone());
        self.queue.push((expanded, depth + 1));
        assert(strings_view(self.visited@) =~= vv.push(canonical@));
        assert(strings_view(self.found@) =~= f.push(expanded@));
        assert(vv.no_duplicates() ==> vv.push(canonical@).no_duplicates()) by {
            if vv.no_duplicates() {
                let w = vv.push(canonical@);
                assert forall|a: int, b: int| 0 <= a < w.len() && 0 <= b < w.len() && a != b implies w[a] != w[b] by {
                    if a == vv.len() {
                        assert(vv[b] != canonical@);
                    } else if b == vv.len() {
                        assert(vv[a] != canonical@);
                    }
                }
            }
        }
        assert(queue_view(self.queue@) =~= q.push((expanded@, (depth + 1) as usize)));
        true
    }
}

} // verus!
