use complexity_gate::config::{Config, HookConfig, LanguageConfig, LimitOverrides, Limits, TestsConfig};
use complexity_gate::diff::{ChangedFiles, DiffSpans, FileSpans, LineRange};
use complexity_gate::scan::{
    changed_file_selected, changed_spans, collect_files, extension_reason_exec, relative, scan, scan_roots,
    FoundFile, ScanError, ScanFile, ScanOptions, SourceError, Unverified,
};

const DEEP: &str = "function deep(x) { if (x) { if (x) { if (x) { if (x) { if (x) { return 1; } } } } } return 0; }\n";

fn config() -> Config {
    Config {
        limits: Limits { complexity: 15, depth: 4, lines: 100, params: 6, bool_ops: 3, widget_depth: 7 },
        tests: TestsConfig { patterns: vec!["**/*.test.*".to_owned()], exempt: vec!["depth".to_owned()] },
        ignore: vec!["**/dist/**".to_owned()],
        languages: vec![(
            "rust".to_owned(),
            LanguageConfig { limits: Some(LimitOverrides { complexity: None, depth: Some(0), lines: None, params: None, bool_ops: None, widget_depth: None }) },
        )],
        hook: HookConfig { max_blocks: 3 },
    }
}

fn file(path: &str, source: &str) -> ScanFile {
    ScanFile { path: path.to_owned(), config: Ok(config()), source: Ok(source.to_owned()) }
}

fn options(changed: Option<ChangedFiles>) -> ScanOptions {
    ScanOptions { cwd: "/w".to_owned(), paths: Vec::new(), explicit_config: None, changed }
}

#[test]
fn violations_unverified_and_functions_are_sorted() {
    let files = vec![
        file("/w/z.rs", "fn a() { if true { } }\n"),
        file("/w/b.js", DEEP),
        file("/w/note.txt", "text"),
        file("/w/Makefile", "all:"),
    ];
    let result = scan(&options(None), files).unwrap();
    assert_eq!(result.checked, 2);
    let found: Vec<(&str, usize, &str, usize, usize)> = result
        .violations
        .iter()
        .map(|v| (v.file.as_str(), v.line, v.metric.as_str(), v.value, v.limit))
        .collect();
    assert_eq!(found, vec![("b.js", 1, "depth", 5, 4), ("z.rs", 1, "depth", 1, 0)]);
    assert_eq!(result.violations[0].function, "deep");
    let unverified: Vec<(&str, &str)> =
        result.unverified.iter().map(|u| (u.file.as_str(), u.reason.as_str())).collect();
    assert_eq!(
        unverified,
        vec![("Makefile", "no grammar for extensionless file"), ("note.txt", "no grammar for .txt")]
    );
    assert_eq!(result.functions[0].0, "b.js");
    assert_eq!(result.functions[1].0, "z.rs");
}

#[test]
fn ignored_and_test_files() {
    let files = vec![file("/w/dist/x.js", DEEP), file("/w/a.test.js", DEEP)];
    let result = scan(&options(None), files).unwrap();
    assert!(result.violations.is_empty());
    assert_eq!(result.checked, 1);
    assert_eq!(result.functions[0].0, "a.test.js");
}

#[test]
fn diffs_limit_files_and_functions() {
    let source = "function one(x) { if (x) { if (x) { if (x) { if (x) { if (x) { return 1; } } } } } }\n\nfunction two(x) { if (x) { if (x) { if (x) { if (x) { if (x) { return 1; } } } } } }\n";
    let changed = ChangedFiles {
        repo_root: "/w".to_owned(),
        spans: DiffSpans { files: vec![FileSpans { path: "a.js".to_owned(), ranges: vec![LineRange { start: 3, end: 3 }] }] },
        untracked: vec!["new.js".to_owned()],
        fallback: false,
    };
    let files = vec![file("/w/a.js", source), file("/w/new.js", source), file("/w/old.js", source)];
    let result = scan(&options(Some(changed)), files).unwrap();
    let found: Vec<(&str, usize)> = result.violations.iter().map(|v| (v.file.as_str(), v.line)).collect();
    assert_eq!(found, vec![("a.js", 3), ("new.js", 1), ("new.js", 3)]);
    assert_eq!(result.checked, 3);
}

#[test]
fn first_failing_file_stops_the_scan() {
    let broken = ScanFile { path: "/w/a.js".to_owned(), config: Err("bad config".to_owned()), source: Ok(String::new()) };
    let unreadable = ScanFile { path: "/w/b.js".to_owned(), config: Ok(config()), source: Err(SourceError::Unreadable("cannot read".to_owned())) };
    assert!(matches!(scan(&options(None), vec![broken]), Err(ScanError::Config(m)) if m == "bad config"));
    assert!(matches!(scan(&options(None), vec![unreadable]), Err(ScanError::Read(m)) if m == "cannot read"));
    let skipped = ScanFile { path: "/w/x.kt".to_owned(), config: Err("never loaded".to_owned()), source: Err(SourceError::Unreadable("never read".to_owned())) };
    assert!(scan(&options(None), vec![skipped]).is_ok());
    let mut bad_globs = config();
    bad_globs.ignore = vec!["a[".to_owned()];
    let globbed = ScanFile { path: "/w/c.js".to_owned(), config: Ok(bad_globs), source: Ok(String::new()) };
    assert!(matches!(scan(&options(None), vec![globbed]), Err(ScanError::Glob(_))));
}

#[test]
fn roots_and_collected_files() {
    assert_eq!(scan_roots(&options(None)), vec!["/w"]);
    let with_paths = ScanOptions {
        cwd: "/w".to_owned(),
        paths: vec!["src".to_owned(), "/abs/x.js".to_owned()],
        explicit_config: None,
        changed: None,
    };
    assert_eq!(scan_roots(&with_paths), vec!["/w/src", "/abs/x.js"]);
    let set = Config::matcher(&vec!["**/dist/**".to_owned()]).unwrap();
    let found = vec![
        FoundFile { path: "/w/src/b.js".to_owned(), root: false },
        FoundFile { path: "/w/dist/c.js".to_owned(), root: false },
        FoundFile { path: "/w/dist/root.js".to_owned(), root: true },
        FoundFile { path: "/w/src/a.js".to_owned(), root: false },
        FoundFile { path: "/w/src//a.js".to_owned(), root: false },
    ];
    assert_eq!(collect_files(found, &set), vec!["/w/dist/root.js", "/w/src/a.js", "/w/src/b.js"]);
}

#[test]
fn selection_by_diff() {
    let changed = Some(ChangedFiles {
        repo_root: "/w".to_owned(),
        spans: DiffSpans { files: vec![FileSpans { path: "a.js".to_owned(), ranges: vec![LineRange { start: 1, end: 2 }] }] },
        untracked: vec!["u.js".to_owned()],
        fallback: false,
    });
    assert!(changed_file_selected("a.js", &changed));
    assert!(changed_file_selected("u.js", &changed));
    assert!(!changed_file_selected("b.js", &changed));
    assert!(changed_file_selected("b.js", &None));
    assert_eq!(changed_spans("a.js", &changed), Some(&vec![LineRange { start: 1, end: 2 }]));
    assert_eq!(changed_spans("u.js", &changed), None);
    assert_eq!(relative("/w", "/w/src/a.js"), "src/a.js");
    assert_eq!(relative("/w", "/elsewhere/a.js"), "../elsewhere/a.js");
    assert_eq!(extension_reason_exec("/w/Foo.kt"), "no grammar for .kt");
}

#[test]
fn text_that_is_not_utf8_is_reported_unverified() {
    let bad = ScanFile { path: "/w/bad.py".to_owned(), config: Ok(config()), source: Err(SourceError::NotUtf8) };
    let good = file("/w/ok.js", "function ok() { return 1; }\n");
    let result = scan(&options(None), vec![bad, good]).unwrap();
    assert!(result.violations.is_empty());
    assert_eq!(result.unverified, vec![Unverified { file: "bad.py".to_owned(), reason: "not valid UTF-8".to_owned() }]);
    assert_eq!(result.checked, 1);
}

fn changes(root: &str, spans: Vec<(&str, usize)>, untracked: Vec<&str>) -> ChangedFiles {
    ChangedFiles {
        repo_root: root.to_owned(),
        spans: DiffSpans {
            files: spans
                .into_iter()
                .map(|(path, line)| FileSpans { path: path.to_owned(), ranges: vec![LineRange { start: line, end: line }] })
                .collect(),
        },
        untracked: untracked.into_iter().map(|path| path.to_owned()).collect(),
        fallback: false,
    }
}

#[test]
fn changes_are_looked_up_from_the_repository_root() {
    let c = changes("/r", vec![("src/sub/x.js", 1), ("top.js", 1)], Vec::new());
    let nested = ScanOptions { cwd: "/r/src/sub".to_owned(), paths: Vec::new(), explicit_config: None, changed: Some(c) };
    assert_eq!(scan_roots(&nested), vec!["/r"]);
    let files = vec![file("/r/src/sub/x.js", DEEP), file("/r/top.js", DEEP), file("/r/src/sub/new.js", DEEP)];
    let result = scan(&nested, files).unwrap();
    let found: Vec<&str> = result.violations.iter().map(|v| v.file.as_str()).collect();
    assert_eq!(found, vec!["../../top.js", "x.js"]);
    assert!(result.notes.is_empty());
}

#[test]
fn patterns_match_paths_from_the_repository_root() {
    let mut c = config();
    c.ignore = vec!["**/ignored.js".to_owned()];
    c.tests = TestsConfig { patterns: vec!["**/test/**".to_owned()], exempt: vec!["lines".to_owned()] };
    let long = format!("function big() {{\n{}\n}}\n", "return 1;\n".repeat(101));
    let mut fallback = changes("/r", Vec::new(), Vec::new());
    fallback.fallback = true;
    let opts = ScanOptions { cwd: "/r/pkg/test".to_owned(), paths: Vec::new(), explicit_config: None, changed: Some(fallback) };
    let files = vec![
        ScanFile { path: "/r/pkg/test/big.js".to_owned(), config: Ok(c.clone()), source: Ok(long) },
        ScanFile { path: "/r/pkg/test/ignored.js".to_owned(), config: Ok(c), source: Ok(DEEP.to_owned()) },
    ];
    let result = scan(&opts, files).unwrap();
    assert!(result.violations.is_empty());
    assert_eq!(result.checked, 1);
    assert_eq!(result.functions[0].0, "big.js");
}

#[test]
fn a_changed_configuration_file_is_noted() {
    let c = changes("/r", vec![(".complexity-gate.json", 1), ("pkg/a.js", 1)], vec!["pkg/.complexity-gate.json"]);
    let opts = ScanOptions { cwd: "/r".to_owned(), paths: Vec::new(), explicit_config: None, changed: Some(c) };
    let result = scan(&opts, Vec::new()).unwrap();
    assert_eq!(
        result.notes,
        vec![
            ".complexity-gate.json changed in this diff".to_owned(),
            "pkg/.complexity-gate.json changed in this diff".to_owned(),
        ]
    );
}

#[test]
fn paths_outside_the_working_directory_are_shown_with_parent_steps() {
    assert_eq!(relative("/r/src/sub", "/r/src/sub/x.js"), "x.js");
    assert_eq!(relative("/r/src/sub", "/r/top.js"), "../../top.js");
    assert_eq!(relative("/r/src", "/r/untracked.js"), "../untracked.js");
    assert_eq!(relative("/r/src", "/other/a.js"), "../../other/a.js");
}

#[test]
fn readability_metrics_have_default_limits() {
    let files = vec![
        file("/w/boolean.js", "function opaque(a,b,c,d,e) { return a && b && c && d && e; }\n"),
        file(
            "/w/widget.dart",
            "class Screen { Widget build(context) => A(child: B(child: C(child: D(child: E(child: F(child: G(child: H(child: I())))))))); }\n",
        ),
    ];
    let result = scan(&options(None), files).unwrap();
    let found: Vec<(&str, &str, usize, usize)> =
        result.violations.iter().map(|v| (v.file.as_str(), v.metric.as_str(), v.value, v.limit)).collect();
    assert!(found.contains(&("boolean.js", "bool_ops", 4, 3)), "{found:?}");
    assert!(found.contains(&("widget.dart", "widget_depth", 9, 7)), "{found:?}");
}

#[test]
fn directory_noise_is_silent_and_invalid_utf8_is_unverified() {
    let set = Config::matcher(&config().ignore).unwrap();
    let walked = vec![
        FoundFile { path: "/w/README.md".to_owned(), root: false },
        FoundFile { path: "/w/bad.py".to_owned(), root: false },
    ];
    let kept = collect_files(walked, &set);
    assert_eq!(kept, vec!["/w/bad.py"]);
    let files: Vec<ScanFile> = kept
        .into_iter()
        .map(|path| ScanFile { path, config: Ok(config()), source: Err(SourceError::NotUtf8) })
        .collect();
    let result = scan(&options(None), files).unwrap();
    assert!(result.violations.is_empty());
    assert_eq!(result.unverified, vec![Unverified { file: "bad.py".to_owned(), reason: "not valid UTF-8".to_owned() }]);
    let named = vec![FoundFile { path: "/w/README.md".to_owned(), root: true }];
    assert_eq!(collect_files(named, &set), vec!["/w/README.md"]);
}
