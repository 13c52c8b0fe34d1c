//! Loading and saving the managed gestures file: what a loaded file gives,
//! where a save goes, and the edits made to config.kdl on the way.
//!
//! Safety invariant (kept by the caller that touches the disk): the rendered
//! config is validated against a scratch file before any real file is
//! touched, and every write into the config directory is a temp-then-rename.

use vstd::prelude::*;
use crate::discovery::{Discovery, Source, SourceV};
use crate::model::{GestureModel, ModelV, default_model, parse_file, strings_view};
use crate::text::{owned, push_char, push_str, chars_of, string_from_range};

verus! {

/// Appended to a file's path for its one-time backup.
pub const BACKUP_SUFFIX: &'static str = ".easysetup.bak";

/// The include line written into config.kdl on first run, relative to it.
pub const FIRST_RUN_INCLUDE: &'static str = "./cfg/gestures.kdl";

/// The line that replaces an inline `gestures {}` node in config.kdl.
pub const EXTRACTED_INCLUDE_LINE: &'static str = "include \"~/.config/niri/cfg/gestures.kdl\"";

/// What startup loading produced.
pub struct Loaded {
    pub discovery: Discovery,
    pub model: GestureModel,
    pub warnings: Vec<String>,
}

#[derive(Debug)]
pub enum SaveError {
    /// There is no config.kdl and no place to put the gestures file.
    NoConfig,
    Io(String),
    /// niri validate rejected the result; nothing was written.
    ValidateFailed(String),
}

impl SaveError {
    pub open spec fn text(&self) -> Seq<char> {
        match self {
            SaveError::NoConfig => "no niri config found to add an include to"@,
            SaveError::Io(e) => e@,
            SaveError::ValidateFailed(e) => "niri rejected the new config:\n"@ + e@,
        }
    }

    /// How the error reads to the user.
    pub fn message(&self) -> (r: String)
        ensures
            r@ == self.text(),
    {
        match self {
            SaveError::NoConfig => owned("no niri config found to add an include to"),
            SaveError::Io(e) => e.clone(),
            SaveError::ValidateFailed(e) => {
                let mut r = owned("niri rejected the new config:\n");
                push_str(&mut r, e.as_str());
                r
            },
        }
    }
}

/// Save outcome for the UI.
pub enum Saved {
    Written { path: String },
}

/// What saving does on disk.
#[derive(Debug, PartialEq)]
pub enum SavePlan {
    /// Backup once, then atomically replace the managed file.
    Replace { path: String },
    /// Write the managed file, then replace the inline node in config.kdl by
    /// an include line (config.kdl gets a one-time backup).
    Extract { config: String, target: String },
    /// First run: append the include line to config.kdl (backed up first),
    /// then create the managed file.
    FirstRun { config: String, target: String },
}

/// The value of a [`SavePlan`].
pub enum SavePlanV {
    Replace(Seq<char>),
    Extract(Seq<char>, Seq<char>),
    FirstRun(Seq<char>, Seq<char>),
}

impl SavePlan {
    pub open spec fn view(&self) -> SavePlanV {
        match self {
            SavePlan::Replace { path } => SavePlanV::Replace(path@),
            SavePlan::Extract { config, target } => SavePlanV::Extract(config@, target@),
            SavePlan::FirstRun { config, target } => SavePlanV::FirstRun(config@, target@),
        }
    }
}

/// Where a save goes, for a discovery and the default managed-file path.
pub open spec fn save_plan(config: Option<Seq<char>>, s: SourceV, target: Option<Seq<char>>) -> Result<SavePlanV, Seq<char>> {
    match s {
        SourceV::ManagedFile(p) => Ok(SavePlanV::Replace(p)),
        SourceV::ManagedFileAmbiguous(p, _) => Ok(SavePlanV::Replace(p)),
        SourceV::Inline(c) => match target {
            Some(t) => Ok(SavePlanV::Extract(c, t)),
            None => Err("no niri config found to add an include to"@),
        },
        SourceV::NotFound => match config {
            None => Err("no niri config found to add an include to"@),
            Some(c) => match target {
                Some(t) => Ok(SavePlanV::FirstRun(c, t)),
                None => Err("could not determine a config directory"@),
            },
        },
    }
}

/// Saving over a managed file replaces the managed file the scheme was read
/// from: the first one, also when more than one managed file is included,
/// whatever the config path and the default target.
pub proof fn law_save_replaces_the_managed_file(
    config: Option<Seq<char>>,
    p: Seq<char>,
    others: Seq<Seq<char>>,
    target: Option<Seq<char>>,
)
    ensures
        save_plan(config, SourceV::ManagedFile(p), target) == Ok::<SavePlanV, Seq<char>>(SavePlanV::Replace(p)),
        save_plan(config, SourceV::ManagedFileAmbiguous(p, others), target) == Ok::<SavePlanV, Seq<char>>(
            SavePlanV::Replace(p),
        ),
{
}

/// Where each kind of discovery saves: an inline block is extracted from its
/// config file into the default target, a first run adds the include to the
/// config file and creates the default target, and where a needed path is
/// missing nothing is planned.
pub proof fn law_save_plan_by_source(config: Option<Seq<char>>, c: Seq<char>, target: Option<Seq<char>>)
    ensures
        target is Some ==> save_plan(config, SourceV::Inline(c), target) == Ok::<SavePlanV, Seq<char>>(
            SavePlanV::Extract(c, target->0),
        ),
        target is None ==> save_plan(config, SourceV::Inline(c), target) is Err,
        config is Some && target is Some ==> save_plan(config, SourceV::NotFound, target) == Ok::<SavePlanV, Seq<char>>(
            SavePlanV::FirstRun(config->0, target->0),
        ),
        (config is None || target is None) ==> save_plan(config, SourceV::NotFound, target) is Err,
{
}

pub open spec fn opt_text(o: Option<&str>) -> Option<Seq<char>> {
    match o {
        Some(s) => Some(s@),
        None => None,
    }
}

pub open spec fn opt_string(o: Option<String>) -> Option<Seq<char>> {
    match o {
        Some(s) => Some(s@),
        None => None,
    }
}

/// Decide how to apply a (validated) model to disk.
///
/// - ManagedFile: replace the managed file.
/// - Inline: extract into the default managed file.
/// - NotFound: first run, create the default managed file and include it
///   from config.kdl.
pub fn save(d: &Discovery, default_target: Option<&str>) -> (r: Result<SavePlan, SaveError>)
    ensures
        match r {
            Ok(p) => save_plan(opt_string(d.config_path), d.source.view(), opt_text(default_target)) == Ok::<SavePlanV, Seq<char>>(p.view()),
            Err(e) => save_plan(opt_string(d.config_path), d.source.view(), opt_text(default_target))
                == Err::<SavePlanV, Seq<char>>(e.text()),
        },
{
    match &d.source {
        Source::ManagedFile(p) => Ok(SavePlan::Replace { path: p.clone() }),
        Source::ManagedFileAmbiguous(p, _) => Ok(SavePlan::Replace { path: p.clone() }),
        Source::Inline(config) => match default_target {
            Some(t) => Ok(SavePlan::Extract { config: config.clone(), target: owned(t) }),
            None => Err(SaveError::NoConfig),
        },
        Source::NotFound => match &d.config_path {
            None => Err(SaveError::NoConfig),
            Some(c) => match default_target {
                Some(t) => Ok(SavePlan::FirstRun { config: c.clone(), target: owned(t) }),
                None => Err(SaveError::Io(owned("could not determine a config directory"))),
            },
        },
    }
}

/// What saving does next.
pub enum SaveStep {
    /// Validate the rendered text against a scratch file; nothing in the
    /// config directory is touched.
    Validate,
    /// Carry out the plan's writes.
    Write(SavePlan),
    /// The save is over: written to a path, or failed.
    Done(Result<Saved, SaveError>),
}

/// What happened to a save.
pub enum SaveEvent {
    /// The user asked to save.
    Requested,
    /// Validation ended (it succeeds too where niri is absent and nothing can
    /// be validated), with where the save would go.
    Validated(Result<(), SaveError>, Result<SavePlan, SaveError>),
    /// The plan's writes ended, with the path of the managed file.
    Written(Result<String, SaveError>),
}

/// The next step of a save after an event. A save starts by validating; a
/// write is asked for only once validation succeeded, so a rejected text
/// ends the save with nothing written.
pub fn save_step(event: SaveEvent) -> (r: SaveStep)
    ensures
        r is Write <==> (event matches SaveEvent::Validated(Ok(_), Ok(_))),
        match event {
            SaveEvent::Requested => r is Validate,
            SaveEvent::Validated(Err(e), _) => r matches SaveStep::Done(Err(x)) && x == e,
            SaveEvent::Validated(Ok(_), Ok(p)) => r matches SaveStep::Write(q) && q == p,
            SaveEvent::Validated(Ok(_), Err(e)) => r matches SaveStep::Done(Err(x)) && x == e,
            SaveEvent::Written(Ok(path)) => r matches SaveStep::Done(Ok(Saved::Written { path: q })) && q == path,
            SaveEvent::Written(Err(e)) => r matches SaveStep::Done(Err(x)) && x == e,
        },
{
    match event {
        SaveEvent::Requested => SaveStep::Validate,
        SaveEvent::Validated(Err(e), _) => SaveStep::Done(Err(e)),
        SaveEvent::Validated(Ok(()), Ok(p)) => SaveStep::Write(p),
        SaveEvent::Validated(Ok(()), Err(e)) => SaveStep::Done(Err(e)),
        SaveEvent::Written(Ok(path)) => SaveStep::Done(Ok(Saved::Written { path })),
        SaveEvent::Written(Err(e)) => SaveStep::Done(Err(e)),
    }
}

/// The path of a file's one-time backup.
pub fn backup_path(path: &str) -> (r: String)
    ensures
        r@ == path@ + BACKUP_SUFFIX@,
{
    let mut s = owned(path);
    push_str(&mut s, BACKUP_SUFFIX);
    s
}

/// config.kdl with an include line appended: after a line break when the
/// text does not end with one, then a blank line, then `include "<rel>"`.
pub open spec fn appended_include(text: Seq<char>, rel: Seq<char>) -> Seq<char> {
    let base = if text.len() > 0 && text.last() == '\n' { text } else { text.push('\n') };
    base + seq!['\n'] + "include \""@ + rel + "\"\n"@
}

/// Append an include line to config text.
pub fn with_include_line(text: &str, rel: &str) -> (r: String)
    ensures
        r@ == appended_include(text@, rel@),
{
    let mut out = owned(text);
    let cs = chars_of(text);
    if !(cs.len() > 0 && cs[cs.len() - 1] == '\n') {
        push_char(&mut out, '\n');
    }
    push_char(&mut out, '\n');
    push_str(&mut out, "include \"");
    push_str(&mut out, rel);
    push_str(&mut out, "\"\n");
    out
}

/// config.kdl with its top-level `gestures` node (as the span scanner finds
/// it) replaced by the include line; None when there is no such node.
pub open spec fn extracted(orig: Seq<char>) -> Option<Seq<char>> {
    match crate::kdl::span_at(orig, "gestures"@, 0, 0) {
        Some((s, e)) => Some(orig.take(s) + EXTRACTED_INCLUDE_LINE@ + orig.skip(e)),
        None => None,
    }
}

/// Extraction cuts out one `gestures` node with its block and puts the
/// include line in its place, keeping all the text before and after it.
pub proof fn law_extract_keeps_everything_around_the_node(orig: Seq<char>)
    ensures
        extracted(orig) is Some ==> exists|s: int, e: int|
            #![trigger crate::kdl::named_block_at(orig, "gestures"@, s, e)]
            crate::kdl::named_block_at(orig, "gestures"@, s, e) && extracted(orig)->0 == orig.take(s)
                + EXTRACTED_INCLUDE_LINE@ + orig.skip(e),
{
    crate::kdl::law_span_is_a_named_block(orig, "gestures"@);
}

/// Move an inline `gestures {}` node out of config text: the node is
/// replaced with an include line, everything around it (comments included)
/// stays as it was.
pub fn extract_inline(orig: &str) -> (r: Option<String>)
    ensures
        match extracted(orig@) {
            Some(t) => r is Some && r->0@ == t,
            None => r is None,
        },
{
    match crate::kdl::find_top_level_node_chars(orig, "gestures") {
        None => None,
        Some((s, e)) => {
            let cs = chars_of(orig);
            let mut out = string_from_range(cs.as_slice(), 0, s);
            push_str(&mut out, EXTRACTED_INCLUDE_LINE);
            let tail = string_from_range(cs.as_slice(), e, cs.len());
            push_str(&mut out, tail.as_str());
            assert(cs@.subrange(0, s as int) == orig@.take(s as int));
            assert(cs@.subrange(e as int, cs@.len() as int) == orig@.skip(e as int));
            Some(out)
        },
    }
}

// ---------------------------------------------------------------------------
// Loading.
// ---------------------------------------------------------------------------

/// The model and warnings a load gives, from the source and what reading
/// its file gave (`Err` holding the read error).
pub open spec fn loaded_model(s: SourceV, read: Result<Seq<char>, Seq<char>>) -> (ModelV, Seq<Seq<char>>) {
    match s {
        SourceV::NotFound => (default_model(), seq![]),
        SourceV::Inline(p) => match read {
            Err(e) => (default_model(), seq!["could not read "@ + p + ": "@ + e]),
            Ok(text) => match parse_file(text) {
                Ok(Some(m)) => (m, seq![]),
                _ => (default_model(), seq!["could not parse the gestures block in "@ + p + "; showing an empty scheme"@]),
            },
        },
        SourceV::ManagedFile(p) => managed_model(p, read),
        SourceV::ManagedFileAmbiguous(p, _) => managed_model(p, read),
    }
}

pub open spec fn managed_model(p: Seq<char>, read: Result<Seq<char>, Seq<char>>) -> (ModelV, Seq<Seq<char>>) {
    match read {
        Err(e) => (default_model(), seq!["could not read "@ + p + ": "@ + e]),
        Ok(text) => match parse_file(text) {
            Ok(Some(m)) => (m, seq![]),
            Ok(None) => (default_model(), seq![p + " has no gestures node; starting from an empty scheme"@]),
            Err(e) => (default_model(), seq!["could not parse "@ + p + " ("@ + e + "); showing an empty scheme until it's fixed"@]),
        },
    }
}

pub open spec fn read_view(r: Result<String, String>) -> Result<Seq<char>, Seq<char>> {
    match r {
        Ok(t) => Ok(t@),
        Err(e) => Err(e@),
    }
}

fn one_warning(w: String) -> (v: Vec<String>)
    ensures
        strings_view(v@) == seq![w@],
{
    let mut v: Vec<String> = Vec::new();
    v.push(w);
    assert(strings_view(v@) =~= seq![w@]);
    v
}

fn read_warning(p: &str, e: &str) -> (w: String)
    ensures
        w@ == "could not read "@ + p@ + ": "@ + e@,
{
    let mut w = owned("could not read ");
    push_str(&mut w, p);
    push_str(&mut w, ": ");
    push_str(&mut w, e);
    w
}

fn load_managed(p: &str, read: Result<String, String>) -> (r: (GestureModel, Vec<String>))
    ensures
        r.0.wf(),
        (r.0.view(), strings_view(r.1@)) == managed_model(p@, read_view(read)),
{
    match read {
        Err(e) => (GestureModel::default(), one_warning(read_warning(p, e.as_str()))),
        Ok(text) => match GestureModel::parse_file_text(text.as_str()) {
            Ok(Some(m)) => {
                let none: Vec<String> = Vec::new();
                assert(strings_view(none@) =~= Seq::<Seq<char>>::empty());
                (m, none)
            },
            Ok(None) => {
                let mut w = owned(p);
                push_str(&mut w, " has no gestures node; starting from an empty scheme");
                (GestureModel::default(), one_warning(w))
            },
            Err(e) => {
                let mut w = owned("could not parse ");
                push_str(&mut w, p);
                push_str(&mut w, " (");
                push_str(&mut w, e.as_str());
                push_str(&mut w, "); showing an empty scheme until it's fixed");
                (GestureModel::default(), one_warning(w))
            },
        },
    }
}

/// Startup load, once the source's file was read: the model shown, and any
/// warnings to show with it. For `NotFound` nothing is read and `read` is
/// not looked at.
pub fn load(source: &Source, read: Result<String, String>) -> (r: (GestureModel, Vec<String>))
    ensures
        r.0.wf(),
        (r.0.view(), strings_view(r.1@)) == loaded_model(source.view(), read_view(read)),
{
    match source {
        Source::NotFound => {
            let none: Vec<String> = Vec::new();
            assert(strings_view(none@) =~= Seq::<Seq<char>>::empty());
            (GestureModel::default(), none)
        },
        Source::ManagedFile(p) => load_managed(p.as_str(), read),
        Source::ManagedFileAmbiguous(p, _) => load_managed(p.as_str(), read),
        Source::Inline(p) => match read {
            Err(e) => (GestureModel::default(), one_warning(read_warning(p.as_str(), e.as_str()))),
            Ok(text) => match GestureModel::parse_file_text(text.as_str()) {
                Ok(Some(m)) => {
                    let none: Vec<String> = Vec::new();
                    assert(strings_view(none@) =~= Seq::<Seq<char>>::empty());
                    (m, none)
                },
                _ => {
                    let mut w = owned("could not parse the gestures block in ");
                    push_str(&mut w, p.as_str());
                    push_str(&mut w, "; showing an empty scheme");
                    (GestureModel::default(), one_warning(w))
                },
            },
        },
    }
}

/// Adding the include line keeps config.kdl as it was, in front (a line
/// break is added only when the text does not end with one), and ends with
/// `include "<rel>"` on a line of its own after a blank line.
pub proof fn law_include_keeps_config(text: Seq<char>, rel: Seq<char>)
    ensures
        appended_include(text, rel).take(text.len() as int) == text,
        appended_include(text, rel).skip(appended_include(text, rel).len() - (rel.len() + 13))
            == seq!['\n', '\n'] + "include \""@ + rel + "\"\n"@,
        appended_include(text, rel).len() == text.len() + rel.len() + 12
            + (if text.len() > 0 && text.last() == '\n' { 0int } else { 1int }),
{
    reveal_strlit("include \"");
    reveal_strlit("\"\n");
    let base = if text.len() > 0 && text.last() == '\n' { text } else { text.push('\n') };
    let r = appended_include(text, rel);
    assert(r =~= base + seq!['\n'] + "include \""@ + rel + "\"\n"@);
    assert(r.take(text.len() as int) =~= text);
    assert(base.len() >= 1 && base.last() == '\n');
    assert(r.skip(r.len() - (rel.len() + 13)) =~= seq!['\n', '\n'] + "include \""@ + rel + "\"\n"@);
}

} // verus!
