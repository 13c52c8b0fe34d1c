//! Talking to the `niri` binary: the command lines for config validation and
//! live action testing, and what their outcomes mean.

use vstd::prelude::*;
use crate::model::strings_view;
use crate::text::{lines_of, trim, owned, push_str, push_char};

verus! {

/// How many lines of a failure message are kept.
pub const TAIL_LINES: usize = 25;

/// `niri validate -c <config>`, after the binary.
pub fn validate_command(config: &str) -> (args: Vec<String>)
    ensures
        strings_view(args@) == seq!["validate"@, "-c"@, config@],
{
    let mut args: Vec<String> = Vec::new();
    args.push(owned("validate"));
    args.push(owned("-c"));
    args.push(owned(config));
    assert(strings_view(args@) =~= seq!["validate"@, "-c"@, config@]);
    args
}

/// `niri msg action <words...>`, after the binary. `words` is the action
/// argv, e.g. `["toggle-overview"]` or `["spawn", "--", "foot"]`.
pub fn msg_action_command(words: &[String]) -> (args: Vec<String>)
    ensures
        strings_view(args@) == seq!["msg"@, "action"@] + strings_view(words@),
{
    let mut args: Vec<String> = Vec::new();
    args.push(owned("msg"));
    args.push(owned("action"));
    let mut i: usize = 0;
    while i < words.len()
        invariant
            i <= words@.len(),
            strings_view(args@) == seq!["msg"@, "action"@] + strings_view(words@).take(i as int),
        decreases words@.len() - i,
    {
        let ghost before = strings_view(args@);
        args.push(words[i].clone());
        assert(strings_view(args@) =~= before.push(words@[i as int]@));
        assert(strings_view(words@).take(i + 1) =~= strings_view(words@).take(i as int).push(words@[i as int]@));
        assert(strings_view(args@) =~= seq!["msg"@, "action"@] + strings_view(words@).take(i + 1));
        i = i + 1;
    }
    assert(strings_view(words@).take(words@.len() as int) =~= strings_view(words@));
    args
}

/// The last `TAIL_LINES` lines of a message (joined with `\n`), or the
/// message as it is when it has no more lines than that.
pub open spec fn message_tail(msg: Seq<char>) -> Seq<char> {
    let ls = lines_of(msg);
    if ls.len() > 25 {
        crate::kdl::join(ls.skip(ls.len() - 25), seq!['\n'])
    } else {
        msg
    }
}

/// What a finished `niri validate` run means: accepted on exit status 0,
/// otherwise rejected with the tail of its trimmed stderr (or of its stdout
/// when stderr is blank).
pub open spec fn validate_result(code: i32, stdout: Seq<char>, stderr: Seq<char>) -> Result<(), Seq<char>> {
    if code == 0 {
        Ok(())
    } else {
        let msg = if trim(stderr).len() == 0 { trim(stdout) } else { trim(stderr) };
        Err(message_tail(msg))
    }
}

/// `niri validate` accepts exactly on exit status 0. On failure a short
/// message (25 lines or fewer) is passed on whole, from stderr unless stderr
/// is blank, then from stdout.
pub proof fn law_validate_outcome(code: i32, stdout: Seq<char>, stderr: Seq<char>)
    ensures
        validate_result(code, stdout, stderr) is Ok <==> code == 0,
        code != 0 && trim(stderr).len() > 0 && lines_of(trim(stderr)).len() <= 25 ==> validate_result(
            code,
            stdout,
            stderr,
        ) == Err::<(), Seq<char>>(trim(stderr)),
        code != 0 && trim(stderr).len() == 0 && lines_of(trim(stdout)).len() <= 25 ==> validate_result(
            code,
            stdout,
            stderr,
        ) == Err::<(), Seq<char>>(trim(stdout)),
{
}

/// An action fired on the compositor succeeds exactly on exit status 0; on
/// failure its stderr is the message, or its stdout when stderr is blank.
pub proof fn law_msg_action_outcome(code: i32, stdout: Seq<char>, stderr: Seq<char>)
    ensures
        action_result(code, stdout, stderr) is Ok <==> code == 0,
        code != 0 && trim(stderr).len() > 0 ==> action_result(code, stdout, stderr) == Err::<(), Seq<char>>(stderr),
        code != 0 && trim(stderr).len() == 0 ==> action_result(code, stdout, stderr) == Err::<(), Seq<char>>(stdout),
{
}

/// Outcome of validating a config file with `niri validate`, given the exit
/// status and output of that run. Ok(()) on exit 0, Err(stderr/stdout tail)
/// otherwise.
pub fn validate(code: i32, stdout: &str, stderr: &str) -> (r: Result<(), String>)
    ensures
        match r {
            Ok(()) => validate_result(code, stdout@, stderr@) == Ok::<(), Seq<char>>(()),
            Err(e) => validate_result(code, stdout@, stderr@) == Err::<(), Seq<char>>(e@),
        },
{
    if code == 0 {
        return Ok(());
    }
    let err = crate::text::trimmed(stderr);
    let msg = if err.as_str().is_empty() { crate::text::trimmed(stdout) } else { err };
    let ls = crate::text::lines(msg.as_str());
    let ghost lv = strings_view(ls@);
    if ls.len() > TAIL_LINES {
        let start = ls.len() - TAIL_LINES;
        let mut out = String::new();
        let mut i: usize = start;
        assert(lv.skip(start as int).take(0) =~= Seq::<Seq<char>>::empty());
        while i < ls.len()
            invariant
                lv == strings_view(ls@),
                start < ls@.len(),
                start <= i <= ls@.len(),
                out@ == crate::kdl::join(lv.skip(start as int).take(i - start), seq!['\n']),
            decreases ls@.len() - i,
        {
            let ghost parts = lv.skip(start as int).take(i - start);
            let ghost next = lv.skip(start as int).take(i + 1 - start);
            assert(next.drop_last() =~= parts);
            assert(next.last() == ls@[i as int]@);
            if i > start {
                push_char(&mut out, '\n');
            } else {
                assert(parts.len() == 0);
            }
            push_str(&mut out, ls[i].as_str());
            i = i + 1;
        }
        assert(lv.skip(start as int).take(ls@.len() - start) =~= lv.skip(start as int));
        Err(out)
    } else {
        Err(msg)
    }
}

/// What a finished `niri msg action` run means: fired on exit status 0,
/// otherwise failed with its stderr (or its stdout when stderr is blank).
pub open spec fn action_result(code: i32, stdout: Seq<char>, stderr: Seq<char>) -> Result<(), Seq<char>> {
    if code == 0 {
        Ok(())
    } else if trim(stderr).len() == 0 {
        Err(stdout)
    } else {
        Err(stderr)
    }
}

/// Outcome of firing an action on the running compositor, given the exit
/// status and output of `niri msg action ...`.
pub fn msg_action(code: i32, stdout: &str, stderr: &str) -> (r: Result<(), String>)
    ensures
        match r {
            Ok(()) => action_result(code, stdout@, stderr@) == Ok::<(), Seq<char>>(()),
            Err(e) => action_result(code, stdout@, stderr@) == Err::<(), Seq<char>>(e@),
        },
{
    if code == 0 {
        Ok(())
    } else if crate::text::trimmed(stderr).as_str().is_empty() {
        Err(owned(stdout))
    } else {
        Err(owned(stderr))
    }
}

/// The config body used to probe whether a niri binary understands the
/// `gestures` node.
pub const GESTURES_PROBE: &'static str = "gestures {\n    touchscreen-swipe {\n        tap { maximize-column; }\n    }\n}\n";

/// Whether the probe config was accepted, and why not.
pub fn gestures_probe_outcome(validated: Result<(), String>) -> (r: (bool, String))
    ensures
        match validated {
            Ok(()) => r.0 && r.1@ == Seq::<char>::empty(),
            Err(e) => !r.0 && r.1@ == e@,
        },
{
    match validated {
        Ok(()) => (true, String::new()),
        Err(e) => (false, e),
    }
}

// ---------------------------------------------------------------------------
// Confirming a save.
// ---------------------------------------------------------------------------

/// How the running compositor answered after a save was written.
#[derive(Debug, PartialEq)]
pub enum Confirmation {
    /// niri reloaded the config and reports it valid.
    Confirmed,
    /// niri tried to reload and rejected the config (keeps the old one).
    Rejected,
    /// No reload verdict; the file chain passes `niri validate` from disk.
    ValidatedDisk,
    /// No reload verdict and no niri binary.
    NoNiri,
    /// Something went wrong getting a verdict.
    Unknown(String),
}

/// Whether a written save still needs the config on disk validated to be
/// confirmed: there was no reload verdict but there is a niri binary.
pub fn needs_disk_check(verdict: Option<bool>, niri_present: bool) -> (b: bool)
    ensures
        b == (verdict is None && niri_present),
{
    verdict.is_none() && niri_present
}

/// The confirmation of a written save. `disk_valid` is whether validating
/// the config on disk succeeded; it is only looked at when
/// [`needs_disk_check`] says so.
pub fn confirmation(verdict: Option<bool>, niri_present: bool, disk_valid: bool) -> (c: Confirmation)
    ensures
        match verdict {
            Some(false) => c == Confirmation::Confirmed,
            Some(true) => c == Confirmation::Rejected,
            None => if !niri_present {
                c == Confirmation::NoNiri
            } else if disk_valid {
                c == Confirmation::ValidatedDisk
            } else {
                c matches Confirmation::Unknown(m) && m@ == "event stream silent; validate unavailable"@
            },
        },
{
    match verdict {
        Some(false) => Confirmation::Confirmed,
        Some(true) => Confirmation::Rejected,
        None => if !niri_present {
            Confirmation::NoNiri
        } else if disk_valid {
            Confirmation::ValidatedDisk
        } else {
            Confirmation::Unknown(owned("event stream silent; validate unavailable"))
        },
    }
}

// ---------------------------------------------------------------------------
// The event stream.
// ---------------------------------------------------------------------------

#[verifier::external_type_specification]
#[verifier::external_body]
pub struct ExJsonValue(serde_json::Value);

/// Names what `serde_json::from_str::<Value>` gives for a text, an error
/// read as None.
pub uninterp spec fn json_parse(text: Seq<char>) -> Option<serde_json::Value>;

/// Names what `Value::get` gives for a value and a key.
pub uninterp spec fn json_get(v: serde_json::Value, key: Seq<char>) -> Option<serde_json::Value>;

/// Names what `Value::as_bool` gives for a value.
pub uninterp spec fn json_as_bool(v: serde_json::Value) -> Option<bool>;

/// `serde_json::from_str` into a `Value`, an error read as None. Its result
/// is named, not described: the value it parses the text to.
#[verifier::external_body]
fn json_value(line: &str) -> (r: Option<serde_json::Value>)
    ensures
        r == json_parse(line@),
{
    serde_json::from_str(line).ok()
}

/// `Value::get` with a key: the member of an object, if there is one. Its
/// result is named, not described.
#[verifier::external_body]
fn json_member<'a>(v: &'a serde_json::Value, key: &str) -> (r: Option<&'a serde_json::Value>)
    ensures
        match r {
            Some(m) => json_get(*v, key@) == Some(*m),
            None => json_get(*v, key@) is None,
        },
{
    v.get(key)
}

/// `Value::as_bool`: the boolean a value holds, if it is one. Its result is
/// named, not described.
#[verifier::external_body]
fn json_bool(v: &serde_json::Value) -> (r: Option<bool>)
    ensures
        r == json_as_bool(*v),
{
    v.as_bool()
}

/// What a line of the event stream says of a config load: the line read as
/// JSON, its `ConfigLoaded` member, that member's `failed` member, and that
/// as a boolean; None where any step gives nothing.
pub open spec fn config_loaded_failed(line: Seq<char>) -> Option<bool> {
    match json_parse(line) {
        Some(v) => match json_get(v, "ConfigLoaded"@) {
            Some(loaded) => match json_get(loaded, "failed"@) {
                Some(failed) => json_as_bool(failed),
                None => None,
            },
            None => None,
        },
        None => None,
    }
}

/// Reads one line of `niri msg --json event-stream`: for a
/// `{"ConfigLoaded":{"failed":bool}}` event, whether the load failed; None
/// for any other line. The JSON reading itself is serde_json's.
pub fn parse_config_loaded(line: &str) -> (r: Option<bool>)
    ensures
        r == config_loaded_failed(line@),
{
    let v = json_value(line)?;
    let loaded = json_member(&v, "ConfigLoaded")?;
    let failed = json_member(loaded, "failed")?;
    json_bool(failed)
}

} // verus!
