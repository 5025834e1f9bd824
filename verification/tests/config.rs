use complexity_gate::config::{
    merge_config_text, merge_patch, validate_config, validate_keys, validate_languages, Config, ConfigError, HookConfig, LanguageConfig, LimitOverrides,
    Limits, TestsConfig, ConfigLoadError,
};
use complexity_gate::scan::{collect_files, FoundFile};
use complexity_gate::json::{shallow_merge, JsonValue};

fn num(n: usize) -> JsonValue {
    JsonValue::Number(n.to_string())
}

fn text(s: &str) -> JsonValue {
    JsonValue::Text(s.to_owned())
}

fn obj(members: Vec<(&str, JsonValue)>) -> JsonValue {
    JsonValue::Object(members.into_iter().map(|(k, v)| (k.to_owned(), v)).collect())
}

fn defaults() -> JsonValue {
    obj(vec![
        ("hook", obj(vec![("max_blocks", num(3))])),
        ("ignore", JsonValue::Array(vec![text("**/node_modules/**")])),
        ("languages", obj(vec![])),
        ("limits", obj(vec![("complexity", num(15)), ("depth", num(4)), ("lines", num(100)), ("params", num(6))])),
        ("tests", obj(vec![("exempt", JsonValue::Array(vec![text("lines")])), ("patterns", JsonValue::Array(vec![]))])),
    ])
}

fn number_at<'a>(v: &'a JsonValue, section: &str, key: &str) -> Option<&'a str> {
    match v.get(section)?.get(key)? {
        JsonValue::Number(n) => Some(n.as_str()),
        _ => None,
    }
}

fn config(languages: Vec<(String, LanguageConfig)>) -> Config {
    Config {
        limits: Limits { complexity: 15, depth: 4, lines: 100, params: 6, bool_ops: 3, widget_depth: 7 },
        tests: TestsConfig { patterns: vec!["**/*.test.*".to_owned()], exempt: vec!["lines".to_owned()] },
        ignore: vec!["**/dist/**".to_owned()],
        languages,
        hook: HookConfig { max_blocks: 3 },
    }
}

fn error_text(r: Result<(), ConfigError>) -> String {
    r.unwrap_err().message()
}

#[test]
fn partial_top_level_objects_merge() {
    let mut base = defaults();
    merge_patch(&mut base, obj(vec![("limits", obj(vec![("complexity", num(7))]))]), "config.json").unwrap();
    assert_eq!(number_at(&base, "limits", "complexity"), Some("7"));
    assert_eq!(number_at(&base, "limits", "depth"), Some("4"));
}

#[test]
fn partial_language_limits_inherit_global_values() {
    let overrides = LimitOverrides { complexity: Some(4), depth: None, lines: None, params: None, bool_ops: None, widget_depth: None };
    let c = config(vec![("rust".to_owned(), LanguageConfig { limits: Some(overrides) })]);
    let limits = c.limits_for("rust");
    assert_eq!(limits.complexity, 4);
    assert_eq!(limits.depth, 4);
    assert_eq!(c.limits_for("go"), c.limits);
}

#[test]
fn unknown_nested_key_names_full_path() {
    let error = error_text(validate_keys(&obj(vec![("hook", obj(vec![("blocks", num(2))]))]), "config.json"));
    assert!(error.contains("hook.blocks"));
    assert_eq!(error, "unknown config key `hook.blocks` in config.json");
}

#[test]
fn key_errors_name_what_is_wrong() {
    assert_eq!(error_text(validate_keys(&JsonValue::Array(vec![]), "c.json")), "config c.json must be an object");
    assert_eq!(error_text(validate_keys(&obj(vec![("unknown", JsonValue::Bool(true))]), "c.json")), "unknown config key `unknown` in c.json");
    assert_eq!(error_text(validate_keys(&obj(vec![("limits", num(1))]), "c.json")), "limits in c.json must be an object");
    assert_eq!(error_text(validate_keys(&obj(vec![("languages", obj(vec![("rust", num(1))]))]), "c.json")), "languages.rust must be an object");
    assert_eq!(
        error_text(validate_keys(&obj(vec![("languages", obj(vec![("rust", obj(vec![("extra", num(1))]))]))]), "c.json")),
        "unknown config key `languages.rust.extra` in c.json"
    );
    assert_eq!(
        error_text(validate_keys(
            &obj(vec![("languages", obj(vec![("go", obj(vec![("limits", obj(vec![("depth", num(2)), ("width", num(1))]))]))]))]),
            "c.json"
        )),
        "unknown config key `limits.width` in c.json"
    );
    assert!(validate_keys(&defaults(), "<built-in>").is_ok());
}

#[test]
fn refused_patches_leave_the_configuration() {
    let mut base = defaults();
    assert!(merge_patch(&mut base, obj(vec![("hook", obj(vec![("blocks", num(2))]))]), "c.json").is_err());
    assert_eq!(number_at(&base, "hook", "max_blocks"), Some("3"));
}

#[test]
fn patches_replace_values_and_extend_objects() {
    let mut base = defaults();
    shallow_merge(&mut base, obj(vec![("ignore", JsonValue::Array(vec![])), ("hook", obj(vec![("max_blocks", num(9))]))]));
    assert!(matches!(base.get("ignore"), Some(JsonValue::Array(items)) if items.is_empty()));
    assert_eq!(number_at(&base, "hook", "max_blocks"), Some("9"));
    shallow_merge(&mut base, obj(vec![("limits", num(1)), ("extra", JsonValue::Null)]));
    assert!(matches!(base.get("limits"), Some(JsonValue::Number(n)) if n == "1"));
    assert!(matches!(base.get("extra"), Some(JsonValue::Null)));
    let mut scalar = JsonValue::Bool(false);
    shallow_merge(&mut scalar, defaults());
    assert!(matches!(scalar, JsonValue::Bool(false)));
}

#[test]
fn languages_must_have_a_grammar() {
    let ok = config(vec![("go".to_owned(), LanguageConfig { limits: None })]);
    assert!(validate_languages(&ok).is_ok());
    let bad = config(vec![
        ("kotlin".to_owned(), LanguageConfig { limits: None }),
        ("zig".to_owned(), LanguageConfig { limits: None }),
    ]);
    assert_eq!(error_text(validate_languages(&bad)), "unknown config key `languages.kotlin`");
}

#[test]
fn matchers_follow_glob_patterns() {
    let set = Config::matcher(&vec!["**/*.test.*".to_owned(), "**/test/**".to_owned()]).unwrap();
    let found = ["src/a.test.js", "pkg/test/b.js", "src/a.js"]
        .iter()
        .map(|path| FoundFile { path: (*path).to_owned(), root: false })
        .collect();
    assert_eq!(collect_files(found, &set), vec!["src/a.js"]);
    assert!(Config::matcher(&vec!["a[".to_owned()]).is_err());
}

#[test]
fn test_exemptions_other_than_lines_are_refused() {
    let mut c = config(Vec::new());
    assert!(validate_config(&c).is_ok());
    c.tests.exempt = vec!["lines".to_owned(), "depth".to_owned()];
    let error = validate_config(&c).unwrap_err();
    assert!(matches!(&error, ConfigError::UnsupportedExempt { value } if value == "depth"));
    let message = error.message();
    assert!(message.contains("tests.exempt") && message.contains("depth"), "{message}");
}

#[test]
fn a_language_named_twice_is_refused() {
    let c = config(vec![
        ("go".to_owned(), LanguageConfig { limits: None }),
        ("rust".to_owned(), LanguageConfig { limits: None }),
        ("go".to_owned(), LanguageConfig { limits: None }),
    ]);
    let error = validate_config(&c).unwrap_err();
    assert!(matches!(&error, ConfigError::DuplicateLanguage { name } if name == "go"));
    assert_eq!(error.message(), "language `go` is configured twice");
    let unknown = config(vec![("zig".to_owned(), LanguageConfig { limits: None })]);
    assert!(matches!(validate_config(&unknown), Err(ConfigError::UnknownLanguage { name }) if name == "zig"));
}

#[test]
fn config_text_is_parsed_then_merged() {
    let mut base = defaults();
    merge_config_text(&mut base, r#"{"limits":{"depth":3},"hook":{"max_blocks":5}}"#, "c.json").unwrap();
    assert_eq!(number_at(&base, "limits", "depth"), Some("3"));
    assert_eq!(number_at(&base, "limits", "complexity"), Some("15"));
    assert_eq!(number_at(&base, "hook", "max_blocks"), Some("5"));
    let before = format!("{base:?}");
    assert!(matches!(merge_config_text(&mut base, "{not json", "c.json"), Err(ConfigLoadError::Json(_))));
    assert_eq!(format!("{base:?}"), before);
    match merge_config_text(&mut base, r#"{"unknown":true}"#, "c.json") {
        Err(ConfigLoadError::Config(error)) => assert_eq!(error.message(), "unknown config key `unknown` in c.json"),
        other => panic!("expected a key error, got {other:?}"),
    }
    assert_eq!(format!("{base:?}"), before);
    let mut empty = JsonValue::Object(Vec::new());
    merge_config_text(&mut empty, r#"{"limits":{"complexity":15,"depth":4}}"#, "<built-in>").unwrap();
    assert_eq!(number_at(&empty, "limits", "depth"), Some("4"));
}
