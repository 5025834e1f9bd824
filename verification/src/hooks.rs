//! The agent hooks: which harness event to act on, and what to answer.

use vstd::prelude::*;
use crate::json::{member, JsonValue};
use crate::report::{decimal, decimal_string, digit_char, fail_line, fail_text, join_lines};
use crate::scan::{Violation, ViolationView};
use crate::sort::seq_views;
use crate::text::{all_digits, chars_of, digits_value, is_whitespace, parse_usize, str_eq, trim, trim_end, trim_start};

verus! {

#[verifier::external_type_specification]
#[verifier::external_body]
pub struct ExJsonError(serde_json::Error);

/// The agent harness a hook runs under.
#[derive(Clone, Copy, Debug, PartialEq, Eq, Structural)]
pub enum Harness {
    Claude,
    Codex,
    Cursor,
    Grok,
}

/// A hook's input, each field under the name the harnesses share.
#[derive(Debug)]
pub struct HookInput {
    pub hook_event_name: String,
    pub session_id: String,
    pub cwd: Option<String>,
    pub workspace_root: Option<String>,
    pub workspace_roots: Vec<String>,
    pub tool_name: Option<String>,
    pub tool_input: JsonValue,
    pub file_path: Option<String>,
    pub status: Option<String>,
}

/// What a hook does with an event.
#[derive(Debug)]
pub enum Event {
    /// Nothing.
    Ignore,
    /// Checks one edited file.
    File(String),
    /// Checks the changes of the repository.
    Changed,
    /// Checks the changes before the agent stops.
    Stop,
}

/// An event as values.
pub enum EventView {
    Ignore,
    File(Seq<char>),
    Changed,
    Stop,
}

impl View for Event {
    type V = EventView;

    open spec fn view(&self) -> EventView {
        match self {
            Event::Ignore => EventView::Ignore,
            Event::File(p) => EventView::File(p@),
            Event::Changed => EventView::Changed,
            Event::Stop => EventView::Stop,
        }
    }
}

pub open spec fn opt_view(o: Option<String>) -> Option<Seq<char>> {
    match o {
        Some(s) => Some(s@),
        None => None,
    }
}

// ---------------------------------------------------------------- classify

/// The harness reports that the agent stopped, and did not abort.
pub open spec fn is_stop_event(harness: Harness, input: HookInput) -> bool {
    let name = input.hook_event_name@;
    let event_matches = match harness {
        Harness::Claude | Harness::Codex => name == "Stop"@,
        Harness::Cursor | Harness::Grok => name == "Stop"@ || name == "stop"@,
    };
    event_matches && match input.status {
        None => true,
        Some(s) => s@ == "completed"@,
    }
}

/// `is_stop_event`.
pub fn stop_event(harness: Harness, input: &HookInput) -> (r: bool)
    ensures
        r == is_stop_event(harness, *input),
{
    let name = input.hook_event_name.as_str();
    let event_matches = match harness {
        Harness::Claude | Harness::Codex => str_eq(name, "Stop"),
        Harness::Cursor | Harness::Grok => str_eq(name, "Stop") || str_eq(name, "stop"),
    };
    event_matches && match &input.status {
        None => true,
        Some(s) => str_eq(s.as_str(), "completed"),
    }
}

/// The harness reports that a tool ran.
pub open spec fn is_post_tool_event(harness: Harness, event: Seq<char>) -> bool {
    match harness {
        Harness::Claude | Harness::Codex => event == "PostToolUse"@,
        Harness::Cursor | Harness::Grok => event == "PostToolUse"@ || event == "post_tool_use"@,
    }
}

/// `is_post_tool_event`.
pub fn post_tool_event(harness: Harness, event: &str) -> (r: bool)
    ensures
        r == is_post_tool_event(harness, event@),
{
    match harness {
        Harness::Claude | Harness::Codex => str_eq(event, "PostToolUse"),
        Harness::Cursor | Harness::Grok => str_eq(event, "PostToolUse") || str_eq(event, "post_tool_use"),
    }
}

/// The tool edits files, for this harness.
pub open spec fn is_edit_tool(harness: Harness, tool: Option<Seq<char>>) -> bool {
    match tool {
        None => false,
        Some(t) => match harness {
            Harness::Claude => t == "Edit"@ || t == "Write"@ || t == "MultiEdit"@,
            Harness::Codex => t == "apply_patch"@ || t == "Edit"@ || t == "Write"@,
            Harness::Cursor | Harness::Grok => t == "apply_patch"@ || t == "edit"@ || t == "write"@ || t
                == "search_replace"@ || t == "Edit"@ || t == "Write"@ || t == "MultiEdit"@,
        },
    }
}

/// `is_edit_tool`.
pub fn post_tool(harness: Harness, tool: Option<&str>) -> (r: bool)
    ensures
        r == is_edit_tool(
            harness,
            match tool {
                Some(t) => Some(t@),
                None => None,
            },
        ),
{
    match tool {
        None => false,
        Some(t) => match harness {
            Harness::Claude => str_eq(t, "Edit") || str_eq(t, "Write") || str_eq(t, "MultiEdit"),
            Harness::Codex => str_eq(t, "apply_patch") || str_eq(t, "Edit") || str_eq(t, "Write"),
            Harness::Cursor | Harness::Grok => str_eq(t, "apply_patch") || str_eq(t, "edit") || str_eq(t, "write")
                || str_eq(t, "search_replace") || str_eq(t, "Edit") || str_eq(t, "Write") || str_eq(
                t,
                "MultiEdit",
            ),
        },
    }
}

/// The edited file a tool's input names: the first of `file_path`,
/// `filePath` and `path` that is present, when it is a string.
pub open spec fn tool_file_path(v: JsonValue) -> Option<Seq<char>> {
    let m = if member(v, "file_path"@) is Some {
        member(v, "file_path"@)
    } else if member(v, "filePath"@) is Some {
        member(v, "filePath"@)
    } else {
        member(v, "path"@)
    };
    match m {
        Some(JsonValue::Text(t)) => Some(t@),
        _ => None,
    }
}

/// `tool_file_path`.
pub fn file_path(v: &JsonValue) -> (r: Option<String>)
    ensures
        opt_view(r) == tool_file_path(*v),
{
    let m = match v.get("file_path") {
        Some(x) => Some(x),
        None => match v.get("filePath") {
            Some(x) => Some(x),
            None => v.get("path"),
        },
    };
    match m {
        Some(x) => match x.as_str() {
            Some(s) => Some(s.to_owned()),
            None => None,
        },
        None => None,
    }
}

/// What a hook does with its input: a stop is checked as such; Cursor's
/// file edit checks the file it names (else the changes); an editing tool
/// checks the file its input names, else the one the hook names, else the
/// changes; everything else is ignored.
pub open spec fn classified(harness: Harness, input: HookInput) -> EventView {
    if is_stop_event(harness, input) {
        EventView::Stop
    } else if harness == Harness::Cursor && input.hook_event_name@ == "afterFileEdit"@ {
        match input.file_path {
            Some(p) => EventView::File(p@),
            None => EventView::Changed,
        }
    } else if is_post_tool_event(harness, input.hook_event_name@) && is_edit_tool(harness, opt_view(input.tool_name)) {
        match tool_file_path(input.tool_input) {
            Some(p) => EventView::File(p),
            None => match input.file_path {
                Some(p) => EventView::File(p@),
                None => EventView::Changed,
            },
        }
    } else {
        EventView::Ignore
    }
}

/// `classified`.
pub fn classify(harness: Harness, input: &HookInput) -> (r: Event)
    ensures
        r@ == classified(harness, *input),
{
    if stop_event(harness, input) {
        return Event::Stop;
    }
    if harness == Harness::Cursor && str_eq(input.hook_event_name.as_str(), "afterFileEdit") {
        return match &input.file_path {
            Some(p) => Event::File(p.clone()),
            None => Event::Changed,
        };
    }
    let tool = match &input.tool_name {
        Some(t) => Some(t.as_str()),
        None => None,
    };
    if post_tool_event(harness, input.hook_event_name.as_str()) && post_tool(harness, tool) {
        return match file_path(&input.tool_input) {
            Some(p) => Event::File(p),
            None => match &input.file_path {
                Some(p) => Event::File(p.clone()),
                None => Event::Changed,
            },
        };
    }
    Event::Ignore
}

// ------------------------------------------------------------ directories

/// The directories the environment names, in the order a hook falls back
/// on them: `CURSOR_PROJECT_DIR`, `GROK_WORKSPACE_ROOT`,
/// `CLAUDE_PROJECT_DIR`, then the process's current directory.
#[derive(Clone, Debug)]
pub struct HookEnv {
    pub cursor_project_dir: Option<String>,
    pub grok_workspace_root: Option<String>,
    pub claude_project_dir: Option<String>,
    pub current_dir: Option<String>,
}

/// The directory a hook works in: the input's `cwd`, workspace root or first
/// workspace root, else the environment's directories in order, else `.`.
pub open spec fn hook_directory(input: HookInput, env: HookEnv) -> Seq<char> {
    if input.cwd is Some {
        input.cwd->Some_0@
    } else if input.workspace_root is Some {
        input.workspace_root->Some_0@
    } else if input.workspace_roots@.len() > 0 {
        input.workspace_roots@[0]@
    } else if env.cursor_project_dir is Some {
        env.cursor_project_dir->Some_0@
    } else if env.grok_workspace_root is Some {
        env.grok_workspace_root->Some_0@
    } else if env.claude_project_dir is Some {
        env.claude_project_dir->Some_0@
    } else if env.current_dir is Some {
        env.current_dir->Some_0@
    } else {
        "."@
    }
}

/// `hook_directory`.
pub fn working_directory(input: &HookInput, env: &HookEnv) -> (r: String)
    ensures
        r@ == hook_directory(*input, *env),
{
    if let Some(p) = &input.cwd {
        return p.clone();
    }
    if let Some(p) = &input.workspace_root {
        return p.clone();
    }
    if input.workspace_roots.len() > 0 {
        return input.workspace_roots[0].clone();
    }
    if let Some(p) = &env.cursor_project_dir {
        return p.clone();
    }
    if let Some(p) = &env.grok_workspace_root {
        return p.clone();
    }
    if let Some(p) = &env.claude_project_dir {
        return p.clone();
    }
    if let Some(p) = &env.current_dir {
        return p.clone();
    }
    ".".to_owned()
}

// ---------------------------------------------------------------- sessions

/// Characters a session's state file name keeps.
pub open spec fn safe_char(c: char) -> bool {
    ('0' <= c && c <= '9') || ('a' <= c && c <= 'z') || ('A' <= c && c <= 'Z') || c == '.' || c == '_' || c == '-'
}

/// At most this many characters of a session id name its state.
pub const SESSION_ID_LIMIT: usize = 128;

/// A session id as a file name: its first `SESSION_ID_LIMIT` characters,
/// each unsafe one replaced by `_`; `unkeyed` for an empty id.
pub open spec fn sanitized(id: Seq<char>) -> Seq<char> {
    let n = if id.len() < SESSION_ID_LIMIT {
        id.len() as int
    } else {
        SESSION_ID_LIMIT as int
    };
    let t = id.take(n).map_values(|c: char| if safe_char(c) { c } else { '_' });
    if t.len() == 0 {
        "unkeyed"@
    } else {
        t
    }
}

/// `sanitized`.
pub fn sanitized_session_id(session_id: &str) -> (r: String)
    ensures
        r@ == sanitized(session_id@),
{
    let chars = chars_of(session_id);
    let n = if chars.len() < SESSION_ID_LIMIT {
        chars.len()
    } else {
        SESSION_ID_LIMIT
    };
    let ghost f = |c: char| if safe_char(c) { c } else { '_' };
    let mut out = String::new();
    let mut i: usize = 0;
    while i < n
        invariant
            i <= n <= chars@.len(),
            chars@ == session_id@,
            out@ == chars@.take(i as int).map_values(|c: char| if safe_char(c) { c } else { '_' }),
        decreases n - i,
    {
        let c = chars[i];
        let safe = ('0' <= c && c <= '9') || ('a' <= c && c <= 'z') || ('A' <= c && c <= 'Z') || c == '.' || c
            == '_' || c == '-';
        if safe {
            let one = vstd::string::StrSliceExecFns::substring_char(session_id, i, i + 1);
            assert(one@ =~= seq![c]);
            out.append(one);
        } else {
            proof {
                reveal_strlit("_");
            }
            out.append("_");
        }
        assert(chars@.take(i + 1).map_values(|c: char| if safe_char(c) { c } else { '_' }) =~= chars@.take(
            i as int,
        ).map_values(|c: char| if safe_char(c) { c } else { '_' }).push(if safe_char(c) { c } else { '_' }));
        i = i + 1;
    }
    if n == 0 {
        return "unkeyed".to_owned();
    }
    out
}

/// The name of a session's state file in the state directory.
pub open spec fn state_file_name(id: Seq<char>) -> Seq<char> {
    sanitized(id) + ".count"@
}

/// `state_file_name`.
pub fn state_file(session_id: &str) -> (r: String)
    ensures
        r@ == state_file_name(session_id@),
{
    let mut s = sanitized_session_id(session_id);
    s.append(".count");
    s
}

/// The count a state file holds: its trimmed text as a number, else 0
/// (also when there is no file).
pub open spec fn stored_count(text: Option<Seq<char>>) -> int {
    match text {
        Some(t) => match crate::text::parse_usize(crate::text::trim(t)) {
            Some(n) => n as int,
            None => 0,
        },
        None => 0,
    }
}

/// A stored text as a value.
pub open spec fn opt_str(text: Option<&str>) -> Option<Seq<char>> {
    match text {
        Some(t) => Some(t@),
        None => None,
    }
}

/// The count after one more block: the stored count plus one, staying at
/// the largest count.
pub open spec fn next_count_spec(text: Option<Seq<char>>) -> int {
    if stored_count(text) < usize::MAX {
        stored_count(text) + 1
    } else {
        usize::MAX as int
    }
}

/// `next_count_spec`.
pub fn next_count(text: Option<&str>) -> (r: usize)
    ensures
        r as int == next_count_spec(opt_str(text)),
{
    let current: usize = match text {
        Some(t) => {
            let v = chars_of(t);
            let (a, b) = crate::text::trim_bounds(&v, 0, v.len());
            assert(v@.subrange(0, v@.len() as int) =~= v@);
            match crate::text::parse_usize_range(&v, a, b) {
                Some(n) => n,
                None => 0,
            }
        },
        None => 0,
    };
    current.saturating_add(1)
}

// ---------------------------------------------------------------- feedback

/// The lower-case hexadecimal digit of `n < 16`.
pub open spec fn hex_digit(n: int) -> char {
    if n < 10 {
        (48 + n) as char
    } else {
        (87 + n) as char
    }
}

/// How `serde_json` writes one character inside a string literal: `"` and
/// `\` behind a backslash; backspace, form feed, newline, carriage return
/// and tab as `\b`, `\f`, `\n`, `\r`, `\t`; other characters below
/// U+0020 as `\u00` and two lower-case hex digits; the rest unchanged.
pub open spec fn json_escape(c: char) -> Seq<char> {
    if c == '"' {
        seq!['\\', '"']
    } else if c == '\\' {
        seq!['\\', '\\']
    } else if c == '\u{8}' {
        seq!['\\', 'b']
    } else if c == '\u{c}' {
        seq!['\\', 'f']
    } else if c == '\n' {
        seq!['\\', 'n']
    } else if c == '\r' {
        seq!['\\', 'r']
    } else if c == '\t' {
        seq!['\\', 't']
    } else if (c as int) < 0x20 {
        seq!['\\', 'u', '0', '0', hex_digit((c as int) / 16), hex_digit((c as int) % 16)]
    } else {
        seq![c]
    }
}

/// The characters of `s`, each escaped.
pub open spec fn json_escaped(s: Seq<char>) -> Seq<char>
    decreases s.len(),
{
    if s.len() == 0 {
        seq![]
    } else {
        json_escaped(s.drop_last()) + json_escape(s.last())
    }
}

/// The JSON string literal of `s`.
pub open spec fn json_quoted(s: Seq<char>) -> Seq<char> {
    seq!['"'] + json_escaped(s) + seq!['"']
}

/// `serde_json::to_string` of a string: the JSON string literal. Writing
/// into the in-memory buffer `to_string` uses cannot fail, and a string
/// always serializes, so the result is never an error.
#[verifier::external_body]
fn json_string(s: &str) -> (r: Result<String, serde_json::Error>)
    ensures
        r is Ok,
        r matches Ok(t) ==> t@ == json_quoted(s@),
{
    serde_json::to_string(s)
}

/// `json_quoted`.
fn quoted(s: &str) -> (r: String)
    ensures
        r@ == json_quoted(s@),
{
    match json_string(s) {
        Ok(t) => t,
        Err(_) => {
            proof {
                assert(false);
            }
            String::new()
        },
    }
}

/// What a hook answers: text for standard error and for standard output,
/// and its exit code.
#[derive(Debug)]
pub struct Feedback {
    pub stderr: Option<String>,
    pub stdout: Option<String>,
    pub code: u8,
}

/// Feedback as values.
pub struct FeedbackView {
    pub stderr: Option<Seq<char>>,
    pub stdout: Option<Seq<char>>,
    pub code: int,
}

impl View for Feedback {
    type V = FeedbackView;

    open spec fn view(&self) -> FeedbackView {
        FeedbackView { stderr: opt_view(self.stderr), stdout: opt_view(self.stdout), code: self.code as int }
    }
}

/// How each harness takes a reason: Grok reads standard error (a stop
/// blocks with code 2), Cursor reads standard error after an edit and a
/// follow-up message at a stop, the other two read a block decision.
pub open spec fn feedback_for(harness: Harness, reason: Seq<char>, stop: bool) -> FeedbackView {
    match (harness, stop) {
        (Harness::Grok, true) => FeedbackView { stderr: Some(reason), stdout: None, code: 2 },
        (Harness::Grok, false) | (Harness::Cursor, false) => FeedbackView {
            stderr: Some(reason),
            stdout: None,
            code: 0,
        },
        (Harness::Cursor, true) => FeedbackView {
            stderr: None,
            stdout: Some("{\"followup_message\":"@ + json_quoted(reason) + "}"@),
            code: 0,
        },
        _ => FeedbackView {
            stderr: None,
            stdout: Some("{\"decision\":\"block\",\"reason\":"@ + json_quoted(reason) + "}"@),
            code: 0,
        },
    }
}

/// `feedback_for`.
pub fn emit_feedback(harness: Harness, reason: &str, stop: bool) -> (r: Feedback)
    ensures
        r@ == feedback_for(harness, reason@, stop),
{
    match (harness, stop) {
        (Harness::Grok, true) => Feedback { stderr: Some(reason.to_owned()), stdout: None, code: 2 },
        (Harness::Grok, false) | (Harness::Cursor, false) => Feedback {
            stderr: Some(reason.to_owned()),
            stdout: None,
            code: 0,
        },
        (Harness::Cursor, true) => {
            let q = quoted(reason);
            let mut s = "{\"followup_message\":".to_owned();
            s.append(q.as_str());
            s.append("}");
            Feedback { stderr: None, stdout: Some(s), code: 0 }
        },
        _ => {
            let q = quoted(reason);
            let mut s = "{\"decision\":\"block\",\"reason\":".to_owned();
            s.append(q.as_str());
            s.append("}");
            Feedback { stderr: None, stdout: Some(s), code: 0 }
        },
    }
}

/// The violations, one line each, joined by newlines.
pub open spec fn violations_text(vs: Seq<ViolationView>) -> Seq<char> {
    join_lines(vs.map_values(|v: ViolationView| fail_line(v)))
}

/// `violations_text`.
pub fn text_report(violations: &Vec<Violation>) -> (r: String)
    ensures
        r@ == violations_text(seq_views(violations@)),
{
    let ghost vs = seq_views(violations@);
    let mut out = String::new();
    let mut i: usize = 0;
    while i < violations.len()
        invariant
            i <= violations@.len(),
            vs == seq_views(violations@),
            out@ == join_lines(vs.take(i as int).map_values(|v: ViolationView| fail_line(v))),
        decreases violations@.len() - i,
    {
        let ghost items = vs.take(i + 1).map_values(|v: ViolationView| fail_line(v));
        assert(items.drop_last() =~= vs.take(i as int).map_values(|v: ViolationView| fail_line(v)));
        assert(vs[i as int] == violations@[i as int]@);
        if i > 0 {
            out.append("\n");
        } else {
            assert(out@ =~= Seq::<char>::empty());
        }
        let t = fail_text(&violations[i]);
        out.append(t.as_str());
        i = i + 1;
    }
    assert(vs.take(i as int) =~= vs);
    out
}

/// What a stop hook says of violations after `count` blocks in the session:
/// past `max_blocks` it gives up and reports them as unresolved without
/// blocking; else it blocks the stop and asks for a refactor.
pub open spec fn stop_answer(harness: Harness, vs: Seq<ViolationView>, count: int, max_blocks: int) -> FeedbackView {
    if count > max_blocks {
        FeedbackView { stderr: Some("UNRESOLVED "@ + violations_text(vs)), stdout: None, code: 0 }
    } else {
        feedback_for(
            harness,
            violations_text(vs) + "\nRefactor the listed functions (see the complexity-gate skill), then finish."@,
            true,
        )
    }
}

/// `stop_answer`.
pub fn stop_feedback(harness: Harness, violations: &Vec<Violation>, count: usize, max_blocks: usize) -> (r: Feedback)
    ensures
        r@ == stop_answer(harness, seq_views(violations@), count as int, max_blocks as int),
{
    let report = text_report(violations);
    if count > max_blocks {
        let mut s = "UNRESOLVED ".to_owned();
        s.append(report.as_str());
        return Feedback { stderr: Some(s), stdout: None, code: 0 };
    }
    let mut reason = report;
    reason.append("\nRefactor the listed functions (see the complexity-gate skill), then finish.");
    emit_feedback(harness, reason.as_str(), true)
}

/// What a stop hook does once it has scanned the session's changes.
pub enum StopStep {
    /// Nothing blocks the stop: the session's block counter is cleared and
    /// the hook answers nothing.
    Release,
    /// Violations remain: the counter becomes `count`, stored as the text
    /// `stored`, and the hook answers `feedback`.
    Block { count: usize, stored: String, feedback: Feedback },
}

/// The stop hook's decision: release a clean stop, else count one more
/// block (from the counter's stored text) and answer with `stop_answer`.
pub fn stop_step(harness: Harness, violations: &Vec<Violation>, stored: Option<&str>, max_blocks: usize) -> (r:
    StopStep)
    ensures
        r is Release <==> violations@.len() == 0,
        r matches StopStep::Block { count, stored: text, feedback } ==> {
            &&& count as int == next_count_spec(opt_str(stored))
            &&& text@ == decimal(count as nat)
            &&& feedback@ == stop_answer(harness, seq_views(violations@), count as int, max_blocks as int)
        },
{
    if violations.len() == 0 {
        return StopStep::Release;
    }
    let count = next_count(stored);
    StopStep::Block {
        count,
        stored: decimal_string(count),
        feedback: stop_feedback(harness, violations, count, max_blocks),
    }
}

/// What a hook says after an edit: nothing when there are no violations,
/// else the violations as feedback that does not stop the agent.
pub fn edit_feedback(harness: Harness, violations: &Vec<Violation>) -> (r: Option<Feedback>)
    ensures
        r is Some <==> violations@.len() > 0,
        r matches Some(f) ==> f@ == feedback_for(harness, violations_text(seq_views(violations@)), false),
{
    if violations.len() == 0 {
        return None;
    }
    let report = text_report(violations);
    Some(emit_feedback(harness, report.as_str(), false))
}

// -------------------------------------------------------------------- laws

/// The loop guard: past `max_blocks` blocks in a session, a stop hook lets
/// the agent stop, reporting the violations as unresolved on standard
/// error.
pub proof fn lemma_stop_gives_up_after_max_blocks(
    harness: Harness,
    vs: Seq<ViolationView>,
    count: int,
    max_blocks: int,
)
    requires
        count > max_blocks,
    ensures
        stop_answer(harness, vs, count, max_blocks).stdout is None,
        stop_answer(harness, vs, count, max_blocks).code == 0,
        stop_answer(harness, vs, count, max_blocks).stderr == Some("UNRESOLVED "@ + violations_text(vs)),
{
}

/// Up to `max_blocks` blocks, a stop hook with violations keeps the agent
/// going: with an answer on standard output (a block decision, or Cursor's
/// follow-up message), or with exit code 2 under Grok.
pub proof fn lemma_stop_blocks_until_max_blocks(
    harness: Harness,
    vs: Seq<ViolationView>,
    count: int,
    max_blocks: int,
)
    requires
        count <= max_blocks,
    ensures
        harness == Harness::Grok ==> stop_answer(harness, vs, count, max_blocks).code == 2,
        harness != Harness::Grok ==> stop_answer(harness, vs, count, max_blocks).stdout is Some,
{
}

proof fn lemma_digit_char(d: int)
    requires
        0 <= d < 10,
    ensures
        '0' <= digit_char(d) <= '9',
        digit_char(d) as u32 - '0' as u32 == d,
{
}

/// A count's decimal text: digits only, spelling the count.
proof fn lemma_decimal_digits(n: nat)
    ensures
        decimal(n).len() > 0,
        all_digits(decimal(n)),
        digits_value(decimal(n)) == n,
    decreases n,
{
    let s = decimal(n);
    if n < 10 {
        lemma_digit_char(n as int);
        assert(s.drop_last() =~= Seq::<char>::empty());
        assert(digits_value(s) == digits_value(s.drop_last()) * 10 + (s.last() as u32 - '0' as u32));
    } else {
        lemma_decimal_digits(n / 10);
        lemma_digit_char((n % 10) as int);
        assert(s.drop_last() =~= decimal(n / 10));
        assert(s.last() == digit_char((n % 10) as int));
        let q = n / 10;
        let d = n % 10;
        assert(q * 10 + d == n) by (nonlinear_arith)
            requires
                q == n / 10,
                d == n % 10,
        ;
        assert(digits_value(s) == digits_value(decimal(q)) * 10 + d);
        assert forall|i: int| 0 <= i < s.len() implies '0' <= #[trigger] s[i] && s[i] <= '9' by {
            if i < s.len() - 1 {
                assert(s[i] == decimal(n / 10)[i]);
            }
        }
    }
}

/// The counter a stop stores reads back as that count.
pub proof fn lemma_stored_count_reads_back(k: nat)
    requires
        k <= usize::MAX,
    ensures
        stored_count(Some(decimal(k))) == k,
{
    let s = decimal(k);
    lemma_decimal_digits(k);
    lemma_digit_char(0);
    assert(!is_whitespace(s[0]));
    assert(!is_whitespace(s.last()));
    assert(trim_start(s) == s);
    assert(trim_end(s) == s);
    assert(trim(s) == s);
    assert(s[0] != '+');
    assert(parse_usize(s) == Some(k as usize));
}

/// The loop guard over consecutive failing stops in a session: the first
/// finds no counter, each later one the text the one before stored
/// (`stop_step`'s `stored`), so the k-th stores `k`; it blocks (exit code 2
/// under Grok, a block answer on standard output otherwise) exactly when
/// `k <= max_blocks`, and past that reports UNRESOLVED without blocking.
pub proof fn lemma_stop_loop_guard(harness: Harness, vs: Seq<ViolationView>, max_blocks: int, k: nat)
    requires
        1 <= k < usize::MAX,
    ensures
        next_count_spec(if k == 1 { None } else { Some(decimal((k - 1) as nat)) }) == k,
        k <= max_blocks && harness == Harness::Grok ==> stop_answer(harness, vs, k as int, max_blocks).code == 2,
        k <= max_blocks && harness != Harness::Grok ==> stop_answer(harness, vs, k as int, max_blocks).stdout is Some,
        k > max_blocks ==> stop_answer(harness, vs, k as int, max_blocks).stdout is None && stop_answer(
            harness,
            vs,
            k as int,
            max_blocks,
        ).code == 0 && stop_answer(harness, vs, k as int, max_blocks).stderr == Some(
            "UNRESOLVED "@ + violations_text(vs),
        ),
{
    if k > 1 {
        lemma_stored_count_reads_back((k - 1) as nat);
    }
}

/// A hook fails with a non-zero code only to block a stop under Grok.
pub proof fn lemma_feedback_code(harness: Harness, reason: Seq<char>, stop: bool)
    ensures
        feedback_for(harness, reason, stop).code == if harness == Harness::Grok && stop {
            2int
        } else {
            0int
        },
{
}

/// A session's state file name is never empty, has at most
/// `SESSION_ID_LIMIT` characters and only letters, digits, `.`, `_` and
/// `-`.
pub proof fn lemma_sanitized_is_bounded_and_safe(id: Seq<char>)
    ensures
        0 < sanitized(id).len() <= SESSION_ID_LIMIT,
        forall|i: int| 0 <= i < sanitized(id).len() ==> safe_char(#[trigger] sanitized(id)[i]),
{
    reveal_strlit("unkeyed");
    let n = if id.len() < SESSION_ID_LIMIT {
        id.len() as int
    } else {
        SESSION_ID_LIMIT as int
    };
    let t = id.take(n).map_values(|c: char| if safe_char(c) { c } else { '_' });
    assert forall|i: int| 0 <= i < t.len() implies safe_char(#[trigger] t[i]) by {
        assert(t[i] == (if safe_char(id.take(n)[i]) { id.take(n)[i] } else { '_' }));
    }
}

} // verus!
