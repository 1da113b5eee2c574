//! Finding the helper executable, and starting it.

use vstd::prelude::*;
use vstd::string::*;
use vstd::utf8::{decode_utf8, valid_utf8};

use crate::error::BeamWorker;
use crate::pool::Received;
use crate::worker::{WorkerReady, WorkerResponse};

verus! {

// ---------------------------------------------------------------------------
// What the build reports
// ---------------------------------------------------------------------------

/// The position of the first line feed from `from` on.
pub open spec fn next_feed(s: Seq<char>, from: int) -> Option<int>
    decreases s.len() - from,
{
    if from < 0 || from >= s.len() {
        None
    } else if s[from] == '\n' {
        Some(from)
    } else {
        next_feed(s, from + 1)
    }
}

/// A line that a line feed ends, without the carriage return before it.
pub open spec fn without_return(line: Seq<char>) -> Seq<char> {
    if line.len() > 0 && line.last() == '\r' {
        line.drop_last()
    } else {
        line
    }
}

/// The lines of a text from position `from` on: each ends with a line feed or a
/// carriage return and a line feed, which are not part of it, and the last may
/// end with the text.
pub open spec fn lines_from(s: Seq<char>, from: int) -> Seq<Seq<char>>
    decreases s.len() - from,
{
    if from < 0 || from >= s.len() {
        Seq::empty()
    } else {
        match next_feed(s, from) {
            Some(end) => if from <= end < s.len() {
                seq![without_return(s.subrange(from, end))] + lines_from(s, end + 1)
            } else {
                Seq::empty()
            },
            None => seq![s.subrange(from, s.len() as int)],
        }
    }
}

/// The lines of a text.
pub open spec fn lines_of(s: Seq<char>) -> Seq<Seq<char>> {
    lines_from(s, 0)
}

/// The views of a list of texts.
pub open spec fn text_views(texts: Seq<String>) -> Seq<Seq<char>> {
    Seq::new(texts.len(), |i: int| texts[i]@)
}

proof fn lemma_next_feed(s: Seq<char>, from: int)
    requires
        0 <= from,
    ensures
        match next_feed(s, from) {
            Some(end) => from <= end < s.len() && s[end] == '\n',
            None => true,
        },
    decreases s.len() - from,
{
    if from < s.len() && s[from] != '\n' {
        lemma_next_feed(s, from + 1);
    }
}

/// The lines of a text.
pub fn split_lines(text: &str) -> (lines: Vec<String>)
    ensures
        text_views(lines@) == lines_of(text@),
{
    let n = text.unicode_len();
    let mut lines: Vec<String> = Vec::new();
    let mut start: usize = 0;
    assert(text_views(lines@) + lines_from(text@, 0) =~= lines_of(text@));
    while start < n
        invariant
            start <= n,
            n == text@.len(),
            text_views(lines@) + lines_from(text@, start as int) == lines_of(text@),
        decreases n - start,
    {
        let mut end: usize = start;
        while end < n && text.get_char(end) != '\n'
            invariant
                start <= end <= n,
                n == text@.len(),
                next_feed(text@, start as int) == next_feed(text@, end as int),
            decreases n - end,
        {
            end = end + 1;
        }
        let ghost before = lines@;
        if end < n {
            let stop: usize = if end > start && text.get_char(end - 1) == '\r' { end - 1 } else { end };
            let line = text.substring_char(start, stop).to_owned();
            proof {
                let raw = text@.subrange(start as int, end as int);
                assert(next_feed(text@, start as int) == Some(end as int));
                assert(line@ =~= without_return(raw));
                assert(lines_from(text@, start as int) == seq![line@] + lines_from(text@, end + 1));
            }
            lines.push(line);
            assert(text_views(lines@) =~= text_views(before).push(line@));
            assert(text_views(lines@) + lines_from(text@, end + 1) =~= text_views(before) + lines_from(
                text@,
                start as int,
            ));
            start = end + 1;
        } else {
            let line = text.substring_char(start, n).to_owned();
            proof {
                assert(next_feed(text@, start as int) is None);
                assert(lines_from(text@, start as int) == seq![line@]);
            }
            lines.push(line);
            assert(text_views(lines@) =~= text_views(before).push(line@));
            assert(text_views(lines@) + lines_from(text@, n as int) =~= text_views(before) + lines_from(
                text@,
                start as int,
            ));
            start = n;
        }
    }
    assert(text_views(lines@) =~= lines_of(text@));
    lines
}

/// `std::str::from_utf8`: the text that bytes encode, if and only if they are
/// well-formed UTF-8.
#[verifier::external_body]
fn utf8_text(bytes: &[u8]) -> (text: Option<&str>)
    ensures
        match text {
            Some(text) => valid_utf8(bytes@) && text@ == decode_utf8(bytes@),
            None => !valid_utf8(bytes@),
        },
{
    std::str::from_utf8(bytes).ok()
}

/// The string that the JSON object in a text holds under a name.
pub uninterp spec fn json_string_field(text: Seq<char>, field: Seq<char>) -> Option<Seq<char>>;

/// `serde_json::from_str`, then `Value::get` and `Value::as_str`: where the text
/// is JSON, an object, and holds a string under `field`, that string. What a
/// text holds depends on the text and the field alone and is left unsaid.
#[verifier::external_body]
fn json_field(text: &str, field: &str) -> (value: Option<String>)
    ensures
        match value {
            Some(value) => json_string_field(text@, field@) == Some(value@),
            None => json_string_field(text@, field@) is None,
        },
{
    let message = serde_json::from_str::<serde_json::Value>(text).ok()?;
    Some(message.get(field)?.as_str()?.to_owned())
}

/// The last of the first `k` that is there.
pub open spec fn last_present(found: Seq<Option<Seq<char>>>, k: nat) -> Option<Seq<char>>
    decreases k,
{
    if k == 0 {
        None
    } else if found[k - 1] is Some {
        found[k - 1]
    } else {
        last_present(found, (k - 1) as nat)
    }
}

/// What is there, by its text.
pub open spec fn option_views(found: Seq<Option<String>>) -> Seq<Option<Seq<char>>> {
    Seq::new(
        found.len(),
        |i: int|
            match found[i] {
                Some(text) => Some(text@),
                None => None,
            },
    )
}

/// The last text that is there.
pub fn last_of(found: &Vec<Option<String>>) -> (last: Option<String>)
    ensures
        match last {
            Some(last) => last_present(option_views(found@), found@.len()) == Some(last@),
            None => last_present(option_views(found@), found@.len()) is None,
        },
{
    let mut k: usize = found.len();
    while k > 0
        invariant
            k <= found@.len(),
            last_present(option_views(found@), found@.len()) == last_present(option_views(found@), k as nat),
        decreases k,
    {
        if let Some(text) = &found[k - 1] {
            return Some(text.clone());
        }
        k = k - 1;
    }
    None
}

/// What each line names as an executable.
pub open spec fn executables_of(lines: Seq<Seq<char>>) -> Seq<Option<Seq<char>>> {
    Seq::new(lines.len(), |i: int| json_string_field(lines[i], "executable"@))
}

/// The executable that a stream of build messages names last.
pub open spec fn executable_in(messages: Seq<u8>) -> Option<Seq<char>> {
    if valid_utf8(messages) {
        let lines = lines_of(decode_utf8(messages));
        last_present(executables_of(lines), lines.len())
    } else {
        None
    }
}

/// The executable that a stream of build messages names last: the binary that
/// the build just produced. Lines that are no message, or name none, are passed
/// over; bytes that are no text name none.
pub fn last_executable(messages: &[u8]) -> (path: Option<String>)
    ensures
        match path {
            Some(path) => executable_in(messages@) == Some(path@),
            None => executable_in(messages@) is None,
        },
{
    let text = match utf8_text(messages) {
        Some(text) => text,
        None => return None,
    };
    let lines = split_lines(text);
    let mut found: Vec<Option<String>> = Vec::new();
    let mut i: usize = 0;
    while i < lines.len()
        invariant
            i <= lines@.len(),
            found@.len() == i,
            forall|k: int|
                #![trigger found@[k]]
                0 <= k < i ==> match found@[k] {
                    Some(path) => json_string_field(lines@[k]@, "executable"@) == Some(path@),
                    None => json_string_field(lines@[k]@, "executable"@) is None,
                },
        decreases lines@.len() - i,
    {
        found.push(json_field(lines[i].as_str(), "executable"));
        i = i + 1;
    }
    proof {
        let all = lines_of(text@);
        assert(all.len() == lines@.len());
        assert(option_views(found@) =~= executables_of(all)) by {
            assert forall|k: int| 0 <= k < found@.len() implies #[trigger] option_views(found@)[k] == executables_of(
                all,
            )[k] by {
                assert(text_views(lines@)[k] == lines@[k]@);
                let _ = found@[k];
            }
        }
    }
    last_of(&found)
}

// ---------------------------------------------------------------------------
// Locating the helper
// ---------------------------------------------------------------------------

/// The path of the helper: the one that was found before, else the one that
/// `resolve` finds now, which is remembered. A failure is not: the next caller
/// tries again.
pub fn cached_helper_path<F: FnOnce() -> Result<String, BeamWorker>>(
    cache: &mut Option<String>,
    resolve: F,
) -> (path: Result<String, BeamWorker>)
    requires
        *old(cache) is None ==> call_requires(resolve, ()),
    ensures
        match *old(cache) {
            Some(known) => path == Ok::<String, BeamWorker>(known) && *final(cache) == *old(cache),
            None => call_ensures(resolve, (), path) && match path {
                Ok(found) => *final(cache) == Some(found),
                Err(_) => *final(cache) is None,
            },
        },
{
    if let Some(path) = &*cache {
        return Ok(path.clone());
    }
    let path = match resolve() {
        Ok(path) => path,
        Err(error) => return Err(error),
    };
    *cache = Some(path.clone());
    Ok(path)
}

/// A path, and whether a file is there.
#[derive(Debug, PartialEq, Eq)]
pub struct PathFact {
    pub path: String,
    pub is_file: bool,
}

/// Where a helper could be.
#[derive(Debug, PartialEq, Eq)]
pub struct HelperFacts {
    /// The path that the user set.
    pub configured: Option<PathFact>,
    /// The path that the build of this library knew.
    pub bundled: Option<PathFact>,
    /// Whether the workspace holds a manifest, where there is a workspace.
    pub workspace_manifest: Option<bool>,
}

/// What to do for a helper.
#[derive(Debug, PartialEq, Eq)]
pub enum HelperStep {
    Use(String),
    /// Build it in the workspace.
    Build,
}

/// A helper that is not to be had, and why.
pub open spec fn unavailable(error: BeamWorker, why: Seq<char>) -> bool {
    error matches BeamWorker::HelperUnavailable { reason } && reason@ == why
}

/// What looking for the helper comes to.
pub open spec fn resolves(facts: HelperFacts, step: Result<HelperStep, BeamWorker>) -> bool {
    match facts.configured {
        Some(set) => if set.is_file {
            step matches Ok(HelperStep::Use(path)) && path@ == set.path@
        } else {
            step matches Err(error) && unavailable(
                error,
                "SVOD_BEAM_WORKER="@ + set.path@ + " is not a file"@,
            )
        },
        None => if facts.bundled is Some && facts.bundled->0.is_file {
            step matches Ok(HelperStep::Use(path)) && path@ == facts.bundled->0.path@
        } else {
            match facts.workspace_manifest {
                None => step matches Err(error) && unavailable(
                    error,
                    "cannot locate workspace; set SVOD_BEAM_WORKER to an installed svod-beam-worker executable"@,
                ),
                Some(false) => step matches Err(error) && unavailable(
                    error,
                    "svod workspace is unavailable; set SVOD_BEAM_WORKER to an installed helper"@,
                ),
                Some(true) => step matches Ok(HelperStep::Build),
            }
        },
    }
}

/// Where to take the helper from: the path that the user set, which must be a
/// file; else the one that the build knew, if it is one; else a build in the
/// workspace, if there is one.
pub fn resolve_helper_path(facts: &HelperFacts) -> (step: Result<HelperStep, BeamWorker>)
    ensures
        resolves(*facts, step),
{
    if let Some(set) = &facts.configured {
        if set.is_file {
            return Ok(HelperStep::Use(set.path.clone()));
        }
        let mut reason = "SVOD_BEAM_WORKER=".to_owned();
        reason.append(set.path.as_str());
        reason.append(" is not a file");
        return Err(BeamWorker::HelperUnavailable { reason });
    }
    if let Some(bundled) = &facts.bundled {
        if bundled.is_file {
            return Ok(HelperStep::Use(bundled.path.clone()));
        }
    }
    match facts.workspace_manifest {
        None => Err(
            BeamWorker::HelperUnavailable {
                reason:
                    "cannot locate workspace; set SVOD_BEAM_WORKER to an installed svod-beam-worker executable"
                    .to_owned(),
            },
        ),
        Some(false) => Err(
            BeamWorker::HelperUnavailable {
                reason: "svod workspace is unavailable; set SVOD_BEAM_WORKER to an installed helper".to_owned(),
            },
        ),
        Some(true) => Ok(HelperStep::Build),
    }
}

/// The helper that a build produced: the executable that its messages name
/// last. A build that failed, or names none, is an error.
pub fn built_helper(success: bool, status: &str, messages: &[u8]) -> (path: Result<String, BeamWorker>)
    ensures
        match path {
            Ok(path) => success && executable_in(messages@) == Some(path@),
            Err(error) => if success {
                executable_in(messages@) is None && unavailable(
                    error,
                    "cargo built svod-beam-worker but reported no executable artifact; set SVOD_BEAM_WORKER to an installed helper"@,
                )
            } else {
                unavailable(error, "cargo failed to build svod-beam-worker: "@ + status@)
            },
        },
{
    if !success {
        let mut reason = "cargo failed to build svod-beam-worker: ".to_owned();
        reason.append(status);
        return Err(BeamWorker::HelperUnavailable { reason });
    }
    match last_executable(messages) {
        Some(path) => Ok(path),
        None => Err(
            BeamWorker::HelperUnavailable {
                reason:
                    "cargo built svod-beam-worker but reported no executable artifact; set SVOD_BEAM_WORKER to an installed helper"
                    .to_owned(),
            },
        ),
    }
}

// ---------------------------------------------------------------------------
// Starting the helper
// ---------------------------------------------------------------------------

/// What a helper's first answer comes to.
pub open spec fn is_checked(ready: Option<WorkerReady>, checked: Result<(), BeamWorker>) -> bool {
    match ready {
        None => checked matches Err(error) && unavailable(
            error,
            "BEAM helper exited during initialization"@,
        ),
        Some(ready) => match ready.error {
            None => checked is Ok,
            Some(text) => checked matches Err(error) && unavailable(error, "initialization failed: "@ + text@),
        },
    }
}

/// Whether a helper that was started can be used, by its first answer: one that
/// ended, or could not be set up, cannot.
pub fn check_ready(ready: Option<WorkerReady>) -> (checked: Result<(), BeamWorker>)
    ensures
        is_checked(ready, checked),
{
    match ready {
        None => Err(
            BeamWorker::HelperUnavailable { reason: "BEAM helper exited during initialization".to_owned() },
        ),
        Some(ready) => match ready.error {
            None => Ok(()),
            Some(error) => {
                let mut reason = "initialization failed: ".to_owned();
                reason.append(error.as_str());
                Err(BeamWorker::HelperUnavailable { reason })
            }
        },
    }
}

/// What came of a step of starting a helper.
#[derive(Debug, PartialEq, Eq)]
pub enum SpawnEvent {
    /// The process was started, with its input and its output at hand or not.
    Spawned(Result<(bool, bool), String>),
    /// It was told what to compile for.
    Written(Result<(), String>),
    /// Its first answer was read, or its output ended.
    Ready(Result<Option<WorkerReady>, String>),
}

/// What to do next to start a helper.
#[derive(Debug, PartialEq, Eq)]
pub enum SpawnStep {
    /// Tell it what to compile for.
    WriteInit,
    /// Read its first answer.
    ReadReady,
    /// Read its answers from now on: it can be used.
    Started,
    /// It cannot be used; whether to wait for its end first.
    Failed { error: BeamWorker, wait: bool },
}

/// A helper that cannot be used, and why.
pub open spec fn spawn_unavailable(step: SpawnStep, waits: bool, why: Seq<char>) -> bool {
    step matches SpawnStep::Failed { error, wait } && wait == waits && unavailable(error, why)
}

/// A frame that could not be exchanged with a helper that is being started.
pub open spec fn spawn_frame_failed(step: SpawnStep, exchange: Seq<char>, why: String) -> bool {
    step matches SpawnStep::Failed { error: BeamWorker::Frame { what, source }, wait } && !wait && what@ == exchange
        && source == why
}

/// What follows a step of starting the helper at `path`.
pub open spec fn spawns(path: Seq<char>, event: SpawnEvent, step: SpawnStep) -> bool {
    match event {
        SpawnEvent::Spawned(Err(why)) => step matches SpawnStep::Failed {
            error: BeamWorker::SpawnHelper { path: shown, source },
            wait,
        } && !wait && shown@ == path && source == why,
        SpawnEvent::Spawned(Ok((input, output))) => if !input {
            spawn_unavailable(step, false, "BEAM helper stdin was not piped"@)
        } else if !output {
            spawn_unavailable(step, false, "BEAM helper stdout was not piped"@)
        } else {
            step is WriteInit
        },
        SpawnEvent::Written(Ok(_)) => step is ReadReady,
        SpawnEvent::Written(Err(why)) => spawn_frame_failed(step, "initialize BEAM helper"@, why),
        SpawnEvent::Ready(Err(why)) => spawn_frame_failed(step, "read BEAM helper readiness"@, why),
        SpawnEvent::Ready(Ok(None)) => spawn_unavailable(
            step,
            false,
            "BEAM helper exited during initialization"@,
        ),
        SpawnEvent::Ready(Ok(Some(ready))) => match ready.error {
            Some(text) => spawn_unavailable(step, true, "initialization failed: "@ + text@),
            None => step is Started,
        },
    }
}

/// Takes what came of a step of starting the helper at `path` and gives the
/// next: it is started with its input and output at hand, told what to compile
/// for, and can be used once it has answered that it is set up.
pub fn spawn_worker(path: &str, event: SpawnEvent) -> (step: SpawnStep)
    ensures
        spawns(path@, event, step),
{
    match event {
        SpawnEvent::Spawned(Err(source)) => SpawnStep::Failed {
            error: BeamWorker::SpawnHelper { path: path.to_owned(), source },
            wait: false,
        },
        SpawnEvent::Spawned(Ok((input, output))) => {
            if !input {
                let reason = "BEAM helper stdin was not piped".to_owned();
                return SpawnStep::Failed { error: BeamWorker::HelperUnavailable { reason }, wait: false };
            }
            if !output {
                let reason = "BEAM helper stdout was not piped".to_owned();
                return SpawnStep::Failed { error: BeamWorker::HelperUnavailable { reason }, wait: false };
            }
            SpawnStep::WriteInit
        }
        SpawnEvent::Written(Ok(())) => SpawnStep::ReadReady,
        SpawnEvent::Written(Err(source)) => SpawnStep::Failed {
            error: BeamWorker::Frame { what: "initialize BEAM helper", source },
            wait: false,
        },
        SpawnEvent::Ready(Err(source)) => SpawnStep::Failed {
            error: BeamWorker::Frame { what: "read BEAM helper readiness", source },
            wait: false,
        },
        SpawnEvent::Ready(Ok(ready)) => {
            let answered = ready.is_some();
            match check_ready(ready) {
                Ok(()) => SpawnStep::Started,
                Err(error) => SpawnStep::Failed { error, wait: answered },
            }
        }
    }
}

/// What a helper's reader passes on for a frame, and whether it reads on: an
/// answer and yes; the end of the output, or an error, and no.
pub fn reader_message(frame: Result<Option<WorkerResponse>, String>) -> (passed: (Received, bool))
    ensures
        match frame {
            Ok(Some(response)) => passed == (Received::Response(response), true),
            Ok(None) => !passed.1 && (passed.0 matches Received::Error(text) && text@ == "BEAM helper stdout closed"@),
            Err(error) => passed == (Received::Error(error), false),
        },
{
    match frame {
        Ok(Some(response)) => (Received::Response(response), true),
        Ok(None) => (Received::Error("BEAM helper stdout closed".to_owned()), false),
        Err(error) => (Received::Error(error), false),
    }
}

// ---------------------------------------------------------------------------
// Laws
// ---------------------------------------------------------------------------

proof fn lemma_feed_moved(s: Seq<char>, from: int, by: int)
    requires
        0 <= by <= from,
        by <= s.len(),
    ensures
        next_feed(s, from) == match next_feed(s.skip(by), from - by) {
            Some(end) => Some(end + by),
            None => None,
        },
    decreases s.len() - from,
{
    if from < s.len() {
        assert(s.skip(by)[from - by] == s[from]);
        lemma_feed_moved(s, from + 1, by);
    }
}

proof fn lemma_lines_moved(s: Seq<char>, from: int, by: int)
    requires
        0 <= by <= from,
        by <= s.len(),
    ensures
        lines_from(s, from) == lines_from(s.skip(by), from - by),
    decreases s.len() - from,
{
    if from < s.len() {
        lemma_feed_moved(s, from, by);
        lemma_next_feed(s, from);
        match next_feed(s, from) {
            Some(end) => {
                lemma_lines_moved(s, end + 1, by);
                assert(s.subrange(from, end) =~= s.skip(by).subrange(from - by, end - by));
            },
            None => {
                assert(s.subrange(from, s.len() as int) =~= s.skip(by).subrange(from - by, s.len() - by));
            },
        }
    }
}

/// There is no line feed in a text.
pub open spec fn is_one_line(s: Seq<char>) -> bool {
    forall|i: int| #![trigger s[i]] 0 <= i < s.len() ==> s[i] != '\n'
}

proof fn lemma_first_feed(line: Seq<char>, rest: Seq<char>, from: int)
    requires
        is_one_line(line),
        0 <= from <= line.len(),
    ensures
        next_feed(line + seq!['\n'] + rest, from) == Some(line.len() as int),
        next_feed(line, from) is None,
    decreases line.len() - from,
{
    let s = line + seq!['\n'] + rest;
    if from < line.len() {
        assert(s[from] == line[from]);
        lemma_first_feed(line, rest, from + 1);
    } else {
        assert(s[from] == '\n');
    }
}

/// A text is cut at each line feed: what stands before the first one is the first line,
/// and what stands behind it is cut in the same way. A carriage return right before the
/// line feed goes with it. A text without one is one line, and no text is none.
pub proof fn law_lines_end_at_line_feeds(line: Seq<char>, rest: Seq<char>)
    requires
        is_one_line(line),
    ensures
        lines_of(Seq::empty()) == Seq::<Seq<char>>::empty(),
        line.len() > 0 ==> lines_of(line) == seq![line],
        line.len() == 0 || line.last() != '\r' ==> lines_of(line + seq!['\n'] + rest) == seq![line] + lines_of(rest),
        lines_of(line.push('\r') + seq!['\n'] + rest) == seq![line] + lines_of(rest),
{
    lemma_first_feed(line, rest, 0);
    assert(line.subrange(0, line.len() as int) =~= line);
    let s = line + seq!['\n'] + rest;
    lemma_lines_moved(s, (line.len() + 1) as int, (line.len() + 1) as int);
    assert(s.skip((line.len() + 1) as int) =~= rest);
    assert(s.subrange(0, line.len() as int) =~= line);
    let longer = line.push('\r');
    let t = longer + seq!['\n'] + rest;
    assert(is_one_line(longer)) by {
        assert forall|i: int| #![trigger longer[i]] 0 <= i < longer.len() implies longer[i] != '\n' by {
            if i < line.len() {
                assert(longer[i] == line[i]);
            }
        }
    }
    lemma_first_feed(longer, rest, 0);
    lemma_lines_moved(t, (longer.len() + 1) as int, (longer.len() + 1) as int);
    assert(t.skip((longer.len() + 1) as int) =~= rest);
    assert(t.subrange(0, longer.len() as int) =~= longer);
    assert(longer.drop_last() =~= line);
}

/// The last line that names an executable decides, whatever those before it name and
/// whatever else stands behind it.
pub proof fn law_the_last_name_decides(found: Seq<Option<Seq<char>>>, k: nat, i: int)
    requires
        k <= found.len(),
    ensures
        0 <= i < k && found[i] is Some && (forall|j: int| #![trigger found[j]] i < j < k ==> found[j] is None)
            ==> last_present(found, k) == found[i],
        last_present(found, k) is None <==> forall|j: int| #![trigger found[j]] 0 <= j < k ==> found[j] is None,
    decreases k,
{
    if k > 0 {
        law_the_last_name_decides(found, (k - 1) as nat, i);
    }
}

/// Messages that are text name what their last line with an executable names; bytes that
/// are no text name nothing.
pub proof fn law_builds_name_their_executable(messages: Seq<u8>, i: int)
    ensures
        !valid_utf8(messages) ==> executable_in(messages) is None,
        valid_utf8(messages) ==> ({
            let lines = lines_of(decode_utf8(messages));
            0 <= i < lines.len() && json_string_field(lines[i], "executable"@) is Some && (forall|j: int|
                #![trigger lines[j]]
                i < j < lines.len() ==> json_string_field(lines[j], "executable"@) is None) ==> executable_in(messages)
                == json_string_field(lines[i], "executable"@)
        }),
{
    if valid_utf8(messages) {
        let lines = lines_of(decode_utf8(messages));
        let found = executables_of(lines);
        law_the_last_name_decides(found, lines.len(), i);
        if 0 <= i < lines.len() && (forall|j: int|
            #![trigger lines[j]]
            i < j < lines.len() ==> json_string_field(lines[j], "executable"@) is None) {
            assert forall|j: int| #![trigger found[j]] i < j < lines.len() implies found[j] is None by {
                let _ = lines[j];
            }
        }
    }
}

/// What the user set is used or is an error, and nothing else is tried in its place. Only
/// where nothing is set is the bundled helper used, if it is there; and only where it is
/// not is one built, in a workspace with a manifest.
pub proof fn law_the_users_helper_comes_first(facts: HelperFacts, step: Result<HelperStep, BeamWorker>)
    requires
        resolves(facts, step),
    ensures
        facts.configured is Some ==> (step is Ok <==> facts.configured->0.is_file),
        step matches Ok(HelperStep::Use(path)) ==> {
            ||| facts.configured matches Some(set) && set.is_file && path@ == set.path@
            ||| facts.configured is None && (facts.bundled matches Some(own) && own.is_file && path@ == own.path@)
        },
        step matches Ok(HelperStep::Build) ==> facts.configured is None && facts.workspace_manifest == Some(true) && !(
        facts.bundled matches Some(own) && own.is_file),
        facts.configured is None ==> (facts.bundled matches Some(own) ==> own.is_file ==> step is Ok && step->Ok_0 is Use),
        step matches Err(error) ==> error is HelperUnavailable,
        facts.configured is None && facts.workspace_manifest == Some(true) ==> step is Ok,
        facts.configured is None && facts.workspace_manifest != Some(true) && !(facts.bundled matches Some(own)
            && own.is_file) ==> step is Err,
{
}

/// A helper can be used if and only if it was started with both pipes, was told what to
/// compile for, and has answered without an error. Nothing is waited for but a helper that
/// has answered; what went wrong is passed on.
pub proof fn law_helpers_are_used_once_they_answered(path: Seq<char>, event: SpawnEvent, step: SpawnStep)
    requires
        spawns(path, event, step),
    ensures
        step is Started <==> (event matches SpawnEvent::Ready(Ok(Some(ready))) && ready.error is None),
        step is WriteInit <==> (event matches SpawnEvent::Spawned(Ok((input, output))) && input && output),
        step is ReadReady <==> (event matches SpawnEvent::Written(Ok(_))),
        step matches SpawnStep::Failed { wait, .. } ==> (wait <==> (event matches SpawnEvent::Ready(Ok(Some(_))))),
        event matches SpawnEvent::Spawned(Err(why)) ==> (step matches SpawnStep::Failed {
            error: BeamWorker::SpawnHelper { path: shown, source },
            ..
        } && shown@ == path && source == why),
        event matches SpawnEvent::Written(Err(why)) ==> (step matches SpawnStep::Failed {
            error: BeamWorker::Frame { source, .. },
            ..
        } && source == why),
        event matches SpawnEvent::Ready(Err(why)) ==> (step matches SpawnStep::Failed {
            error: BeamWorker::Frame { source, .. },
            ..
        } && source == why),
{
}

/// A helper is ready if and only if it answered, and without an error.
pub proof fn law_ready_helpers_say_so(ready: Option<WorkerReady>, checked: Result<(), BeamWorker>)
    requires
        is_checked(ready, checked),
    ensures
        checked is Ok <==> (ready matches Some(answer) && answer.error is None),
        checked matches Err(error) ==> error is HelperUnavailable,
{
}

} // verus!
