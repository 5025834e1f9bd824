use complexity_gate::hooks::{
    classify, edit_feedback, emit_feedback, next_count, sanitized_session_id, state_file, stop_feedback, stop_step,
    StopStep,
    working_directory, Event, Harness, HookEnv, HookInput,
};
use complexity_gate::json::JsonValue;
use complexity_gate::scan::Violation;

fn input(event: &str, tool: Option<&str>, tool_input: JsonValue) -> HookInput {
    HookInput {
        hook_event_name: event.to_owned(),
        session_id: "s".to_owned(),
        cwd: Some("/tmp".to_owned()),
        workspace_root: None,
        workspace_roots: Vec::new(),
        tool_name: tool.map(str::to_owned),
        tool_input,
        file_path: None,
        status: None,
    }
}

fn bare(event: &str) -> HookInput {
    HookInput {
        hook_event_name: event.to_owned(),
        session_id: String::new(),
        cwd: None,
        workspace_root: None,
        workspace_roots: Vec::new(),
        tool_name: None,
        tool_input: JsonValue::Null,
        file_path: None,
        status: None,
    }
}

fn object(members: &[(&str, JsonValue)]) -> JsonValue {
    JsonValue::Object(members.iter().map(|(k, v)| ((*k).to_owned(), clone_json(v))).collect())
}

fn clone_json(v: &JsonValue) -> JsonValue {
    match v {
        JsonValue::Null => JsonValue::Null,
        JsonValue::Bool(b) => JsonValue::Bool(*b),
        JsonValue::Number(n) => JsonValue::Number(n.clone()),
        JsonValue::Text(t) => JsonValue::Text(t.clone()),
        JsonValue::Array(items) => JsonValue::Array(items.iter().map(clone_json).collect()),
        JsonValue::Object(members) => {
            JsonValue::Object(members.iter().map(|(k, v)| (k.clone(), clone_json(v))).collect())
        }
    }
}

fn text(s: &str) -> JsonValue {
    JsonValue::Text(s.to_owned())
}

fn no_env() -> HookEnv {
    HookEnv { cursor_project_dir: None, grok_workspace_root: None, claude_project_dir: None, current_dir: None }
}

fn violation(file: &str, line: usize, function: &str, metric: &str, value: usize, limit: usize) -> Violation {
    Violation {
        file: file.to_owned(),
        line,
        function: function.to_owned(),
        metric: metric.to_owned(),
        value,
        limit,
    }
}

#[test]
fn claude_post_edit_uses_file_path() {
    let event = classify(Harness::Claude, &input("PostToolUse", Some("Edit"), object(&[("file_path", text("a.rs"))])));
    assert!(matches!(event, Event::File(path) if path == "a.rs"));
}

#[test]
fn codex_apply_patch_without_path_falls_back_to_changed() {
    let event = classify(
        Harness::Codex,
        &input("PostToolUse", Some("apply_patch"), object(&[("command", text("patch"))])),
    );
    assert!(matches!(event, Event::Changed));
}

#[test]
fn grok_accepts_native_camel_case_input() {
    let mut parsed = bare("post_tool_use");
    parsed.session_id = "s".to_owned();
    parsed.workspace_root = Some("/repo".to_owned());
    parsed.tool_name = Some("search_replace".to_owned());
    parsed.tool_input = object(&[("path", text("a.rs"))]);
    let event = classify(Harness::Grok, &parsed);
    assert!(matches!(event, Event::File(path) if path == "a.rs"));
    assert_eq!(working_directory(&parsed, &no_env()), "/repo");
}

#[test]
fn cursor_uses_native_file_and_workspace_fields() {
    let mut parsed = bare("afterFileEdit");
    parsed.session_id = "s".to_owned();
    parsed.workspace_roots = vec!["/repo".to_owned()];
    parsed.file_path = Some("a.rs".to_owned());
    let event = classify(Harness::Cursor, &parsed);
    assert!(matches!(event, Event::File(path) if path == "a.rs"));
    assert_eq!(working_directory(&parsed, &no_env()), "/repo");
}

#[test]
fn cursor_ignores_aborted_stop() {
    let mut parsed = bare("stop");
    parsed.status = Some("aborted".to_owned());
    assert!(matches!(classify(Harness::Cursor, &parsed), Event::Ignore));
}

#[test]
fn optional_hook_fields_default_before_classification() {
    let parsed = bare("Other");
    assert!(parsed.session_id.is_empty());
    assert!(parsed.cwd.is_none());
    assert!(matches!(classify(Harness::Claude, &parsed), Event::Ignore));
}

#[test]
fn session_ids_are_sanitized_and_bounded() {
    assert_eq!(sanitized_session_id("agent/a:b"), "agent_a_b");
    assert_eq!(sanitized_session_id(""), "unkeyed");
    assert_eq!(sanitized_session_id(&"x".repeat(200)).len(), 128);
}

#[test]
fn sanitized_ids_keep_safe_characters_and_cap_long_unicode() {
    assert_eq!(sanitized_session_id("Ab-9._z"), "Ab-9._z");
    assert_eq!(sanitized_session_id("é ü"), "___");
    let long: String = "ä".repeat(300);
    let id = sanitized_session_id(&long);
    assert_eq!(id.chars().count(), 128);
    assert!(id.chars().all(|c| c == '_'));
}

#[test]
fn state_files_are_named_by_sanitized_session() {
    assert_eq!(state_file("same/session"), "same_session.count");
    assert_eq!(state_file(""), "unkeyed.count");
}

#[test]
fn stop_statuses_other_than_completed_are_ignored() {
    let mut completed = bare("Stop");
    completed.status = Some("completed".to_owned());
    assert!(matches!(classify(Harness::Claude, &completed), Event::Stop));
    let mut lower = bare("stop");
    lower.status = None;
    assert!(matches!(classify(Harness::Claude, &lower), Event::Ignore));
    assert!(matches!(classify(Harness::Grok, &lower), Event::Stop));
}

#[test]
fn tool_path_keys_are_tried_in_order() {
    let first = input(
        "PostToolUse",
        Some("Write"),
        object(&[("path", text("c.rs")), ("filePath", text("b.rs")), ("file_path", text("a.rs"))]),
    );
    assert!(matches!(classify(Harness::Claude, &first), Event::File(p) if p == "a.rs"));
    let not_text = input(
        "PostToolUse",
        Some("Write"),
        object(&[("file_path", JsonValue::Number("3".to_owned())), ("path", text("c.rs"))]),
    );
    assert!(matches!(classify(Harness::Claude, &not_text), Event::Changed));
    let mut fallback = input("PostToolUse", Some("Edit"), JsonValue::Null);
    fallback.file_path = Some("top.rs".to_owned());
    assert!(matches!(classify(Harness::Codex, &fallback), Event::File(p) if p == "top.rs"));
}

#[test]
fn other_tools_and_events_are_ignored() {
    let read = input("PostToolUse", Some("Read"), object(&[("file_path", text("a.rs"))]));
    assert!(matches!(classify(Harness::Claude, &read), Event::Ignore));
    let edit = input("post_tool_use", Some("Edit"), object(&[("file_path", text("a.rs"))]));
    assert!(matches!(classify(Harness::Claude, &edit), Event::Ignore));
    assert!(matches!(classify(Harness::Cursor, &edit), Event::File(p) if p == "a.rs"));
    let after = bare("afterFileEdit");
    assert!(matches!(classify(Harness::Cursor, &after), Event::Changed));
    assert!(matches!(classify(Harness::Claude, &after), Event::Ignore));
}

#[test]
fn working_directory_falls_back_through_the_environment() {
    let env = HookEnv {
        cursor_project_dir: None,
        grok_workspace_root: Some("/grok".to_owned()),
        claude_project_dir: Some("/project".to_owned()),
        current_dir: Some("/here".to_owned()),
    };
    assert_eq!(working_directory(&bare("Stop"), &env), "/grok");
    assert_eq!(working_directory(&bare("Stop"), &no_env()), ".");
    let mut with_cwd = bare("Stop");
    with_cwd.cwd = Some("/work".to_owned());
    with_cwd.workspace_root = Some("/repo".to_owned());
    assert_eq!(working_directory(&with_cwd, &env), "/work");
}

#[test]
fn counters_count_up_from_what_is_stored() {
    assert_eq!(next_count(None), 1);
    assert_eq!(next_count(Some(" 4\n")), 5);
    assert_eq!(next_count(Some("+2")), 3);
    assert_eq!(next_count(Some("garbage")), 1);
    assert_eq!(next_count(Some("")), 1);
    assert_eq!(next_count(Some(&usize::MAX.to_string())), usize::MAX);
}

#[test]
fn feedback_matches_each_harness() {
    let claude = emit_feedback(Harness::Claude, "FAIL \"x\"", false);
    assert_eq!(claude.stdout.as_deref(), Some(r#"{"decision":"block","reason":"FAIL \"x\""}"#));
    assert_eq!(claude.code, 0);
    let cursor = emit_feedback(Harness::Cursor, "line1\nline2", true);
    assert_eq!(cursor.stdout.as_deref(), Some(r#"{"followup_message":"line1\nline2"}"#));
    let cursor_edit = emit_feedback(Harness::Cursor, "r", false);
    assert_eq!(cursor_edit.stderr.as_deref(), Some("r"));
    assert!(cursor_edit.stdout.is_none());
    let grok = emit_feedback(Harness::Grok, "r", true);
    assert_eq!(grok.stderr.as_deref(), Some("r"));
    assert_eq!(grok.code, 2);
}

#[test]
fn stop_blocks_until_the_limit_then_reports_unresolved() {
    let violations = vec![violation("bad.js", 1, "bad", "depth", 1, 0)];
    let blocked = stop_feedback(Harness::Claude, &violations, 3, 3);
    assert_eq!(
        blocked.stdout.as_deref(),
        Some(
            r#"{"decision":"block","reason":"FAIL bad.js:1 bad  depth 1 > 0\nRefactor the listed functions (see the complexity-gate skill), then finish."}"#
        )
    );
    assert!(blocked.stderr.is_none());
    let released = stop_feedback(Harness::Claude, &violations, 4, 3);
    assert!(released.stdout.is_none());
    assert_eq!(released.stderr.as_deref(), Some("UNRESOLVED FAIL bad.js:1 bad  depth 1 > 0"));
    assert_eq!(released.code, 0);
}

#[test]
fn edits_without_violations_say_nothing() {
    assert!(edit_feedback(Harness::Claude, &Vec::new()).is_none());
    let violations = vec![
        violation("a.js", 2, "f", "complexity", 16, 15),
        violation("a.js", 9, "g", "params", 7, 6),
    ];
    let f = edit_feedback(Harness::Grok, &violations).unwrap();
    assert_eq!(f.stderr.as_deref(), Some("FAIL a.js:2 f  complexity 16 > 15\nFAIL a.js:9 g  params 7 > 6"));
    assert_eq!(f.code, 0);
}

#[test]
fn json_answers_escape_control_characters_as_serde_json_does() {
    let f = emit_feedback(Harness::Codex, "a\tb\u{1}c\\d\u{7f}", true);
    assert_eq!(f.stdout.as_deref(), Some("{\"decision\":\"block\",\"reason\":\"a\\tb\\u0001c\\\\d\u{7f}\"}"));
}

#[test]
fn stop_step_releases_clean_stops_and_counts_blocks() {
    assert!(matches!(stop_step(Harness::Claude, &Vec::new(), Some("2"), 3), StopStep::Release));
    let violations = vec![violation("bad.js", 1, "bad", "depth", 1, 0)];
    match stop_step(Harness::Grok, &violations, Some("2\n"), 3) {
        StopStep::Block { count, stored, feedback } => {
            assert_eq!(count, 3);
            assert_eq!(stored, "3");
            assert_eq!(feedback.code, 2);
        }
        StopStep::Release => panic!("a stop with violations was released"),
    }
    match stop_step(Harness::Grok, &violations, Some("3"), 3) {
        StopStep::Block { count, feedback, .. } => {
            assert_eq!(count, 4);
            assert_eq!(feedback.code, 0);
            assert_eq!(feedback.stderr.as_deref(), Some("UNRESOLVED FAIL bad.js:1 bad  depth 1 > 0"));
        }
        StopStep::Release => panic!("a stop with violations was released"),
    }
}

#[test]
fn stop_loop_guard_blocks_three_then_releases_without_reset() {
    let violations = vec![violation("bad.js", 1, "bad", "depth", 1, 0)];
    let mut stored: Option<String> = None;
    for k in 1..=5usize {
        match stop_step(Harness::Claude, &violations, stored.as_deref(), 3) {
            StopStep::Block { count, stored: text, feedback } => {
                assert_eq!(count, k);
                if k <= 3 {
                    assert!(feedback.stdout.unwrap().contains(r#""decision":"block""#));
                    assert!(feedback.stderr.is_none());
                } else {
                    assert!(feedback.stdout.is_none());
                    assert!(feedback.stderr.unwrap().starts_with("UNRESOLVED FAIL"));
                }
                stored = Some(text);
            }
            StopStep::Release => panic!("a stop with violations was released"),
        }
    }
    assert_eq!(stored.as_deref(), Some("5"));
}
