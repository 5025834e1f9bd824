//! The configuration: limits, test-file rules, ignores, per-language limits
//! and the hook's loop guard.

use vstd::prelude::*;
use crate::glob::{build_matcher, matcher_builds, set_patterns, strings_view};
use crate::text::{byte_len, str_eq};
use crate::json::{
    entry, find_key, json_text, json_text_value, key_from, lemma_key_from, shallow_merge, shallow_merged,
    two_level_unique, JsonValue,
};

verus! {

/// Per-function limits.
#[derive(Clone, Copy, Debug, PartialEq, Eq, Structural)]
pub struct Limits {
    pub complexity: usize,
    pub depth: usize,
    pub lines: usize,
    pub params: usize,
    pub bool_ops: usize,
    pub widget_depth: usize,
}

/// Which files are tests, and which metrics they are exempt from.
#[derive(Clone, Debug)]
pub struct TestsConfig {
    pub patterns: Vec<String>,
    pub exempt: Vec<String>,
}

/// The Stop hook's loop guard.
#[derive(Clone, Copy, Debug, PartialEq, Eq, Structural)]
pub struct HookConfig {
    pub max_blocks: usize,
}

/// Limits one language overrides.
#[derive(Clone, Copy, Debug, PartialEq, Eq, Structural)]
pub struct LimitOverrides {
    pub complexity: Option<usize>,
    pub depth: Option<usize>,
    pub lines: Option<usize>,
    pub params: Option<usize>,
    pub bool_ops: Option<usize>,
    pub widget_depth: Option<usize>,
}

/// One language's settings.
#[derive(Clone, Copy, Debug, PartialEq, Eq, Structural)]
pub struct LanguageConfig {
    pub limits: Option<LimitOverrides>,
}

/// The effective configuration. `languages` is ordered by name with each
/// name once.
#[derive(Clone, Debug)]
pub struct Config {
    pub limits: Limits,
    pub tests: TestsConfig,
    pub ignore: Vec<String>,
    pub languages: Vec<(String, LanguageConfig)>,
    pub hook: HookConfig,
}

/// A configuration with the files it was resolved from, in order.
#[derive(Clone, Debug)]
pub struct ConfigResolution {
    pub config: Config,
    pub chain: Vec<String>,
}

/// The settings recorded for a language name.
pub open spec fn language_lookup(langs: Seq<(String, LanguageConfig)>, name: Seq<char>) -> Option<LanguageConfig>
    decreases langs.len(),
{
    if langs.len() == 0 {
        None
    } else if langs[0].0@ == name {
        Some(langs[0].1)
    } else {
        language_lookup(langs.drop_first(), name)
    }
}

pub open spec fn or_default(o: Option<usize>, d: usize) -> usize {
    match o {
        Some(v) => v,
        None => d,
    }
}

/// The limits for a language: each overridden value, else the global one.
pub open spec fn effective_limits(global: Limits, entry: Option<LanguageConfig>) -> Limits {
    match entry {
        Some(LanguageConfig { limits: Some(o) }) => Limits {
            complexity: or_default(o.complexity, global.complexity),
            depth: or_default(o.depth, global.depth),
            lines: or_default(o.lines, global.lines),
            params: or_default(o.params, global.params),
            bool_ops: or_default(o.bool_ops, global.bool_ops),
            widget_depth: or_default(o.widget_depth, global.widget_depth),
        },
        _ => global,
    }
}

impl Config {
    /// The limits that apply to a language (by its configuration name).
    pub fn limits_for(&self, language: &str) -> (r: Limits)
        ensures
            r == effective_limits(self.limits, language_lookup(self.languages@, language@)),
    {
        let mut i: usize = 0;
        let ghost all = self.languages@;
        assert(all.skip(0) =~= all);
        while i < self.languages.len()
            invariant
                i <= all.len(),
                all == self.languages@,
                language_lookup(all, language@) == language_lookup(all.skip(i as int), language@),
            decreases all.len() - i,
        {
            assert(all.skip(i as int)[0] == all[i as int]);
            if str_eq(self.languages[i].0.as_str(), language) {
                let entry = self.languages[i].1;
                return match entry.limits {
                    Some(o) => Limits {
                        complexity: match o.complexity { Some(v) => v, None => self.limits.complexity },
                        depth: match o.depth { Some(v) => v, None => self.limits.depth },
                        lines: match o.lines { Some(v) => v, None => self.limits.lines },
                        params: match o.params { Some(v) => v, None => self.limits.params },
                        bool_ops: match o.bool_ops { Some(v) => v, None => self.limits.bool_ops },
                        widget_depth: match o.widget_depth { Some(v) => v, None => self.limits.widget_depth },
                    },
                    None => self.limits,
                };
            }
            assert(all.skip(i as int).drop_first() =~= all.skip(i + 1));
            i = i + 1;
        }
        self.limits
    }

    /// A glob set of all `patterns`; an error when one of them is not a glob
    /// or they do not compile.
    pub fn matcher(patterns: &Vec<String>) -> (r: Result<globset::GlobSet, globset::Error>)
        ensures
            r is Ok <==> matcher_builds(strings_view(patterns@)),
            r matches Ok(s) ==> set_patterns(s) == strings_view(patterns@),
    {
        build_matcher(patterns)
    }
}

// -------------------------------------------------------------- validation

/// Why a configuration is refused.
#[derive(Debug)]
pub enum ConfigError {
    /// A configuration file's JSON is not an object.
    NotAnObject { path: String },
    /// A section (`limits`, `tests`, `hook` or `languages`) is not an object.
    SectionNotAnObject { key: String, path: String },
    /// A language's settings are not an object.
    LanguageNotAnObject { name: String },
    /// A key the configuration does not have, by its full name.
    UnknownKey { key: String, path: String },
    /// A language without a grammar.
    UnknownLanguage { name: String },
    /// A language named twice.
    DuplicateLanguage { name: String },
    /// A `tests.exempt` entry other than `lines`, the one metric test files
    /// may be exempt from.
    UnsupportedExempt { value: String },
}

/// A configuration error as values.
pub enum ConfigErrorView {
    NotAnObject { path: Seq<char> },
    SectionNotAnObject { key: Seq<char>, path: Seq<char> },
    LanguageNotAnObject { name: Seq<char> },
    UnknownKey { key: Seq<char>, path: Seq<char> },
    UnknownLanguage { name: Seq<char> },
    DuplicateLanguage { name: Seq<char> },
    UnsupportedExempt { value: Seq<char> },
}

impl View for ConfigError {
    type V = ConfigErrorView;

    open spec fn view(&self) -> ConfigErrorView {
        match self {
            ConfigError::NotAnObject { path } => ConfigErrorView::NotAnObject { path: path@ },
            ConfigError::SectionNotAnObject { key, path } => ConfigErrorView::SectionNotAnObject {
                key: key@,
                path: path@,
            },
            ConfigError::LanguageNotAnObject { name } => ConfigErrorView::LanguageNotAnObject { name: name@ },
            ConfigError::UnknownKey { key, path } => ConfigErrorView::UnknownKey { key: key@, path: path@ },
            ConfigError::UnknownLanguage { name } => ConfigErrorView::UnknownLanguage { name: name@ },
            ConfigError::DuplicateLanguage { name } => ConfigErrorView::DuplicateLanguage { name: name@ },
            ConfigError::UnsupportedExempt { value } => ConfigErrorView::UnsupportedExempt { value: value@ },
        }
    }
}

/// The message of a configuration error.
pub open spec fn error_message(e: ConfigErrorView) -> Seq<char> {
    match e {
        ConfigErrorView::NotAnObject { path } => "config "@ + path + " must be an object"@,
        ConfigErrorView::SectionNotAnObject { key, path } => key + " in "@ + path + " must be an object"@,
        ConfigErrorView::LanguageNotAnObject { name } => "languages."@ + name + " must be an object"@,
        ConfigErrorView::UnknownKey { key, path } => "unknown config key `"@ + key + "` in "@ + path,
        ConfigErrorView::UnknownLanguage { name } => "unknown config key `languages."@ + name + "`"@,
        ConfigErrorView::DuplicateLanguage { name } => "language `"@ + name + "` is configured twice"@,
        ConfigErrorView::UnsupportedExempt { value } => "tests.exempt may only hold `lines`, not `"@ + value
            + "`"@,
    }
}

impl ConfigError {
    /// `error_message`.
    pub fn message(&self) -> (r: String)
        ensures
            r@ == error_message(self@),
    {
        match self {
            ConfigError::NotAnObject { path } => {
                let mut s = "config ".to_owned();
                s.append(path.as_str());
                s.append(" must be an object");
                s
            },
            ConfigError::SectionNotAnObject { key, path } => {
                let mut s = key.clone();
                s.append(" in ");
                s.append(path.as_str());
                s.append(" must be an object");
                s
            },
            ConfigError::LanguageNotAnObject { name } => {
                let mut s = "languages.".to_owned();
                s.append(name.as_str());
                s.append(" must be an object");
                s
            },
            ConfigError::UnknownKey { key, path } => {
                let mut s = "unknown config key `".to_owned();
                s.append(key.as_str());
                s.append("` in ");
                s.append(path.as_str());
                s
            },
            ConfigError::UnknownLanguage { name } => {
                let mut s = "unknown config key `languages.".to_owned();
                s.append(name.as_str());
                s.append("`");
                s
            },
            ConfigError::DuplicateLanguage { name } => {
                let mut s = "language `".to_owned();
                s.append(name.as_str());
                s.append("` is configured twice");
                s
            },
            ConfigError::UnsupportedExempt { value } => {
                let mut s = "tests.exempt may only hold `lines`, not `".to_owned();
                s.append(value.as_str());
                s.append("`");
                s
            },
        }
    }
}

/// The keys each part of a configuration may hold.
#[derive(Clone, Copy, Debug, PartialEq, Eq, Structural)]
pub enum KeySet {
    /// `limits`, `tests`, `ignore`, `languages`, `hook`.
    Top,
    /// `complexity`, `depth`, `lines`, `params`, `bool_ops`, `widget_depth`.
    Limits,
    /// `patterns`, `exempt`.
    Tests,
    /// `max_blocks`.
    Hook,
    /// `limits`.
    Language,
}

pub open spec fn allows(set: KeySet, k: Seq<char>) -> bool {
    match set {
        KeySet::Top => k == "limits"@ || k == "tests"@ || k == "ignore"@ || k == "languages"@ || k == "hook"@,
        KeySet::Limits => k == "complexity"@ || k == "depth"@ || k == "lines"@ || k == "params"@ || k
            == "bool_ops"@ || k == "widget_depth"@,
        KeySet::Tests => k == "patterns"@ || k == "exempt"@,
        KeySet::Hook => k == "max_blocks"@,
        KeySet::Language => k == "limits"@,
    }
}

fn allows_exec(set: KeySet, k: &str) -> (r: bool)
    ensures
        r == allows(set, k@),
{
    match set {
        KeySet::Top => str_eq(k, "limits") || str_eq(k, "tests") || str_eq(k, "ignore") || str_eq(k, "languages")
            || str_eq(k, "hook"),
        KeySet::Limits => str_eq(k, "complexity") || str_eq(k, "depth") || str_eq(k, "lines") || str_eq(
            k,
            "params",
        ) || str_eq(k, "bool_ops") || str_eq(k, "widget_depth"),
        KeySet::Tests => str_eq(k, "patterns") || str_eq(k, "exempt"),
        KeySet::Hook => str_eq(k, "max_blocks"),
        KeySet::Language => str_eq(k, "limits"),
    }
}

/// The first member at or after `i` whose key the set does not allow, or
/// the number of members.
pub open spec fn unknown_from(e: Seq<(String, JsonValue)>, set: KeySet, i: int) -> int
    decreases e.len() - i,
{
    if i < 0 || i >= e.len() {
        e.len() as int
    } else if !allows(set, e[i].0@) {
        i
    } else {
        unknown_from(e, set, i + 1)
    }
}

/// A key's full name under a prefix.
pub open spec fn qualified(prefix: Seq<char>, key: Seq<char>) -> Seq<char> {
    if prefix.len() == 0 {
        key
    } else {
        prefix + "."@ + key
    }
}

/// The first key of an object that the set does not allow, named under
/// `prefix`.
pub open spec fn allowed_error(
    e: Seq<(String, JsonValue)>,
    set: KeySet,
    prefix: Seq<char>,
    path: Seq<char>,
) -> Option<ConfigErrorView> {
    let i = unknown_from(e, set, 0);
    if 0 <= i < e.len() {
        Some(ConfigErrorView::UnknownKey { key: qualified(prefix, e[i].0@), path })
    } else {
        None
    }
}

/// A section `key` of `root`, when present, must be an object with allowed
/// keys.
pub open spec fn section_error(
    root: Seq<(String, JsonValue)>,
    key: Seq<char>,
    set: KeySet,
    path: Seq<char>,
) -> Option<ConfigErrorView> {
    match entry(root, key) {
        None => None,
        Some(JsonValue::Object(e)) => allowed_error(e@, set, key, path),
        Some(_) => Some(ConfigErrorView::SectionNotAnObject { key, path }),
    }
}

/// Each language's settings must be an object with only `limits`, itself
/// with allowed keys; the first problem in order.
pub open spec fn languages_error(langs: Seq<(String, JsonValue)>, path: Seq<char>) -> Option<ConfigErrorView>
    decreases langs.len(),
{
    if langs.len() == 0 {
        None
    } else {
        let name = langs[0].0@;
        match langs[0].1 {
            JsonValue::Object(e) => match allowed_error(e@, KeySet::Language, "languages."@ + name, path) {
                Some(x) => Some(x),
                None => match section_error(e@, "limits"@, KeySet::Limits, path) {
                    Some(x) => Some(x),
                    None => languages_error(langs.drop_first(), path),
                },
            },
            _ => Some(ConfigErrorView::LanguageNotAnObject { name }),
        }
    }
}

/// The `languages` section, when present, must be an object of valid
/// language settings.
pub open spec fn language_keys_error(root: Seq<(String, JsonValue)>, path: Seq<char>) -> Option<ConfigErrorView> {
    match entry(root, "languages"@) {
        None => None,
        Some(JsonValue::Object(l)) => languages_error(l@, path),
        Some(_) => Some(ConfigErrorView::SectionNotAnObject { key: "languages"@, path }),
    }
}

pub open spec fn or_else(a: Option<ConfigErrorView>, b: Option<ConfigErrorView>) -> Option<ConfigErrorView> {
    if a is Some {
        a
    } else {
        b
    }
}

/// The first problem with the keys of a configuration file from `path`: it
/// must be an object; its keys, those of `limits`, `tests` and `hook`, and
/// the languages' are checked in that order.
pub open spec fn keys_error(v: JsonValue, path: Seq<char>) -> Option<ConfigErrorView> {
    match v {
        JsonValue::Object(root) => or_else(
            allowed_error(root@, KeySet::Top, seq![], path),
            or_else(
                section_error(root@, "limits"@, KeySet::Limits, path),
                or_else(
                    section_error(root@, "tests"@, KeySet::Tests, path),
                    or_else(section_error(root@, "hook"@, KeySet::Hook, path), language_keys_error(root@, path)),
                ),
            ),
        ),
        _ => Some(ConfigErrorView::NotAnObject { path }),
    }
}

fn qualified_exec(prefix: &str, key: &str) -> (r: String)
    ensures
        r@ == qualified(prefix@, key@),
{
    let n = byte_len(prefix);
    proof {
        if prefix@.len() == 0 {
            assert(prefix@ =~= Seq::<char>::empty());
            assert(vstd::utf8::encode_utf8(prefix@) =~= Seq::<u8>::empty());
        } else {
            crate::text::lemma_encode_len_ge(prefix@);
        }
    }
    if n == 0 {
        key.to_owned()
    } else {
        let mut s = prefix.to_owned();
        s.append(".");
        s.append(key);
        s
    }
}

/// `allowed_error`.
fn allowed(e: &Vec<(String, JsonValue)>, set: KeySet, prefix: &str, path: &str) -> (r: Result<(), ConfigError>)
    ensures
        match r {
            Ok(()) => allowed_error(e@, set, prefix@, path@) is None,
            Err(x) => allowed_error(e@, set, prefix@, path@) == Some(x@),
        },
{
    let mut i: usize = 0;
    while i < e.len()
        invariant
            i <= e@.len(),
            unknown_from(e@, set, i as int) == unknown_from(e@, set, 0),
        decreases e@.len() - i,
    {
        if !allows_exec(set, e[i].0.as_str()) {
            let key = qualified_exec(prefix, e[i].0.as_str());
            return Err(ConfigError::UnknownKey { key, path: path.to_owned() });
        }
        i = i + 1;
    }
    Ok(())
}

/// `section_error`.
fn nested_keys(root: &Vec<(String, JsonValue)>, key: &str, set: KeySet, path: &str) -> (r: Result<(), ConfigError>)
    ensures
        match r {
            Ok(()) => section_error(root@, key@, set, path@) is None,
            Err(x) => section_error(root@, key@, set, path@) == Some(x@),
        },
{
    proof {
        lemma_key_from(root@, key@, 0);
    }
    match find_key(root, key) {
        None => Ok(()),
        Some(i) => match &root[i].1 {
            JsonValue::Object(e) => allowed(e, set, key, path),
            _ => Err(ConfigError::SectionNotAnObject { key: key.to_owned(), path: path.to_owned() }),
        },
    }
}

/// `languages_error`.
fn validate_language_entries(langs: &Vec<(String, JsonValue)>, path: &str) -> (r: Result<(), ConfigError>)
    ensures
        match r {
            Ok(()) => languages_error(langs@, path@) is None,
            Err(x) => languages_error(langs@, path@) == Some(x@),
        },
{
    let mut i: usize = 0;
    assert(langs@.skip(0) =~= langs@);
    while i < langs.len()
        invariant
            i <= langs@.len(),
            languages_error(langs@, path@) == languages_error(langs@.skip(i as int), path@),
        decreases langs@.len() - i,
    {
        let ghost rest = langs@.skip(i as int);
        assert(rest[0] == langs@[i as int]);
        assert(rest.drop_first() =~= langs@.skip(i + 1));
        let name = &langs[i].0;
        match &langs[i].1 {
            JsonValue::Object(e) => {
                let mut prefix = "languages.".to_owned();
                prefix.append(name.as_str());
                allowed(e, KeySet::Language, prefix.as_str(), path)?;
                nested_keys(e, "limits", KeySet::Limits, path)?;
            },
            _ => {
                return Err(ConfigError::LanguageNotAnObject { name: name.clone() });
            },
        }
        i = i + 1;
    }
    Ok(())
}

/// `keys_error`: the keys of a configuration file from `path`.
pub fn validate_keys(value: &JsonValue, path: &str) -> (r: Result<(), ConfigError>)
    ensures
        match r {
            Ok(()) => keys_error(*value, path@) is None,
            Err(x) => keys_error(*value, path@) == Some(x@),
        },
{
    let root = match value {
        JsonValue::Object(root) => root,
        _ => {
            return Err(ConfigError::NotAnObject { path: path.to_owned() });
        },
    };
    assert(Seq::<char>::empty() == ""@) by {
        reveal_strlit("");
    }
    allowed(root, KeySet::Top, "", path)?;
    nested_keys(root, "limits", KeySet::Limits, path)?;
    nested_keys(root, "tests", KeySet::Tests, path)?;
    nested_keys(root, "hook", KeySet::Hook, path)?;
    proof {
        lemma_key_from(root@, "languages"@, 0);
    }
    match find_key(root, "languages") {
        None => Ok(()),
        Some(i) => match &root[i].1 {
            JsonValue::Object(l) => validate_language_entries(l, path),
            _ => Err(ConfigError::SectionNotAnObject { key: "languages".to_owned(), path: path.to_owned() }),
        },
    }
}

/// Merges one configuration file's JSON (from `path`) over the
/// configuration so far, after checking its keys; an error leaves the
/// configuration as it was.
pub fn merge_patch(base: &mut JsonValue, patch: JsonValue, path: &str) -> (r: Result<(), ConfigError>)
    requires
        two_level_unique(*old(base)),
        two_level_unique(patch),
    ensures
        match r {
            Ok(()) => keys_error(patch, path@) is None && shallow_merged(*old(base), patch, *final(base)),
            Err(x) => keys_error(patch, path@) == Some(x@) && *final(base) == *old(base),
        },
        two_level_unique(*final(base)),
{
    validate_keys(&patch, path)?;
    shallow_merge(base, patch);
    Ok(())
}

/// Why a configuration file's text could not be merged.
#[derive(Debug)]
pub enum ConfigLoadError {
    /// The text is not JSON.
    Json(serde_json::Error),
    /// The JSON is not a configuration (`keys_error`).
    Config(ConfigError),
}

/// Merges the configuration file `path`, given as its text, over the
/// configuration so far: an error when the text is not JSON; else
/// `merge_patch` of the value it holds. On any error the configuration
/// stays as it was.
pub fn merge_config_text(base: &mut JsonValue, text: &str, path: &str) -> (r: Result<(), ConfigLoadError>)
    requires
        two_level_unique(*old(base)),
    ensures
        (r matches Err(ConfigLoadError::Json(_))) <==> json_text_value(text@) is None,
        json_text_value(text@) matches Some(patch) ==> match r {
            Ok(()) => keys_error(patch, path@) is None && shallow_merged(*old(base), patch, *final(base)),
            Err(ConfigLoadError::Config(x)) => keys_error(patch, path@) == Some(x@),
            Err(ConfigLoadError::Json(_)) => false,
        },
        r is Err ==> *final(base) == *old(base),
        two_level_unique(*final(base)),
{
    let patch = match json_text(text) {
        Ok(v) => v,
        Err(e) => {
            return Err(ConfigLoadError::Json(e));
        },
    };
    match merge_patch(base, patch, path) {
        Ok(()) => Ok(()),
        Err(x) => Err(ConfigLoadError::Config(x)),
    }
}

/// The languages the configuration may name.
pub open spec fn known_language(name: Seq<char>) -> bool {
    name == "javascript"@ || name == "typescript"@ || name == "svelte"@ || name == "dart"@ || name == "rust"@
        || name == "python"@ || name == "go"@
}

/// The first language (in order) the configuration names without a
/// grammar.
pub open spec fn unknown_language_from(langs: Seq<(String, LanguageConfig)>, i: int) -> int
    decreases langs.len() - i,
{
    if i < 0 || i >= langs.len() {
        langs.len() as int
    } else if !known_language(langs[i].0@) {
        i
    } else {
        unknown_language_from(langs, i + 1)
    }
}

/// Refuses a configuration that names a language without a grammar: the
/// first such name in order.
pub fn validate_languages(config: &Config) -> (r: Result<(), ConfigError>)
    ensures
        match r {
            Ok(()) => unknown_language_from(config.languages@, 0) == config.languages@.len(),
            Err(x) => {
                let i = unknown_language_from(config.languages@, 0);
                i < config.languages@.len() && x@ == ConfigErrorView::UnknownLanguage {
                    name: config.languages@[i].0@,
                }
            },
        },
{
    let mut i: usize = 0;
    while i < config.languages.len()
        invariant
            i <= config.languages@.len(),
            unknown_language_from(config.languages@, i as int) == unknown_language_from(config.languages@, 0),
        decreases config.languages@.len() - i,
    {
        let name = config.languages[i].0.as_str();
        if !(str_eq(name, "javascript") || str_eq(name, "typescript") || str_eq(name, "svelte") || str_eq(
            name,
            "dart",
        ) || str_eq(name, "rust") || str_eq(name, "python") || str_eq(name, "go")) {
            return Err(ConfigError::UnknownLanguage { name: config.languages[i].0.clone() });
        }
        i = i + 1;
    }
    Ok(())
}

/// No language is named twice: what a map keyed by name gave the
/// original layout, and what `language_lookup` relies on to find the one
/// entry of a name.
pub open spec fn unique_names(langs: Seq<(String, LanguageConfig)>) -> bool {
    forall|i: int, j: int| 0 <= i < j < langs.len() ==> langs[i].0@ != langs[j].0@
}

/// Some entry before `i` has the name of entry `i`.
pub open spec fn named_before(langs: Seq<(String, LanguageConfig)>, i: int) -> bool {
    exists|j: int| 0 <= j < i && langs[j].0@ == langs[i].0@
}

/// The first entry from `i` on whose name an earlier entry has.
pub open spec fn duplicate_from(langs: Seq<(String, LanguageConfig)>, i: int) -> int
    decreases langs.len() - i,
{
    if i < 0 || i >= langs.len() {
        langs.len() as int
    } else if named_before(langs, i) {
        i
    } else {
        duplicate_from(langs, i + 1)
    }
}

/// The first `tests.exempt` entry from `i` on that is not `lines`.
pub open spec fn bad_exempt_from(exempt: Seq<String>, i: int) -> int
    decreases exempt.len() - i,
{
    if i < 0 || i >= exempt.len() {
        exempt.len() as int
    } else if exempt[i]@ != "lines"@ {
        i
    } else {
        bad_exempt_from(exempt, i + 1)
    }
}

/// What `validate_config` refuses a configuration for, in the order it
/// looks: a language without a grammar, a language named twice, a
/// `tests.exempt` entry other than `lines`.
pub open spec fn config_error(config: Config) -> Option<ConfigErrorView> {
    let langs = config.languages@;
    let u = unknown_language_from(langs, 0);
    let d = duplicate_from(langs, 0);
    let x = bad_exempt_from(config.tests.exempt@, 0);
    if u < langs.len() {
        Some(ConfigErrorView::UnknownLanguage { name: langs[u].0@ })
    } else if d < langs.len() {
        Some(ConfigErrorView::DuplicateLanguage { name: langs[d].0@ })
    } else if x < config.tests.exempt@.len() {
        Some(ConfigErrorView::UnsupportedExempt { value: config.tests.exempt@[x]@ })
    } else {
        None
    }
}

/// Checks a loaded configuration: `config_error`. One that passes names
/// each language once.
pub fn validate_config(config: &Config) -> (r: Result<(), ConfigError>)
    ensures
        match r {
            Ok(()) => config_error(*config) is None,
            Err(x) => config_error(*config) == Some(x@),
        },
        r is Ok ==> unique_names(config.languages@),
{
    validate_languages(config)?;
    let n = config.languages.len();
    let mut i: usize = 0;
    while i < n
        invariant
            n == config.languages@.len(),
            i <= n,
            duplicate_from(config.languages@, i as int) == duplicate_from(config.languages@, 0),
            unknown_language_from(config.languages@, 0) == n,
            forall|a: int, b: int| 0 <= a < b < i ==> config.languages@[a].0@ != config.languages@[b].0@,
        decreases n - i,
    {
        let mut j: usize = 0;
        while j < i
            invariant
                n == config.languages@.len(),
                j <= i < n,
                duplicate_from(config.languages@, i as int) == duplicate_from(config.languages@, 0),
                unknown_language_from(config.languages@, 0) == n,
                forall|a: int| 0 <= a < j ==> config.languages@[a].0@ != config.languages@[i as int].0@,
            decreases i - j,
        {
            if str_eq(config.languages[j].0.as_str(), config.languages[i].0.as_str()) {
                assert(named_before(config.languages@, i as int));
                return Err(ConfigError::DuplicateLanguage { name: config.languages[i].0.clone() });
            }
            j = j + 1;
        }
        assert(!named_before(config.languages@, i as int));
        i = i + 1;
    }
    let m = config.tests.exempt.len();
    let mut k: usize = 0;
    while k < m
        invariant
            m == config.tests.exempt@.len(),
            k <= m,
            bad_exempt_from(config.tests.exempt@, k as int) == bad_exempt_from(config.tests.exempt@, 0),
            unknown_language_from(config.languages@, 0) == config.languages@.len(),
            duplicate_from(config.languages@, 0) == config.languages@.len(),
        decreases m - k,
    {
        proof {
            reveal_strlit("lines");
        }
        if !str_eq(config.tests.exempt[k].as_str(), "lines") {
            return Err(ConfigError::UnsupportedExempt { value: config.tests.exempt[k].clone() });
        }
        k = k + 1;
    }
    Ok(())
}

// ----------------------------------------------------------- limit laws

proof fn lemma_lookup_finds(langs: Seq<(String, LanguageConfig)>, name: Seq<char>, i: int)
    requires
        unique_names(langs),
        0 <= i < langs.len(),
        langs[i].0@ == name,
    ensures
        language_lookup(langs, name) == Some(langs[i].1),
    decreases langs.len(),
{
    if i > 0 {
        assert(langs[0].0@ != langs[i].0@);
        let rest = langs.drop_first();
        assert(rest[i - 1] == langs[i]);
        assert forall|a: int, b: int| 0 <= a < b < rest.len() implies rest[a].0@ != rest[b].0@ by {
            assert(rest[a] == langs[a + 1] && rest[b] == langs[b + 1]);
        }
        lemma_lookup_finds(rest, name, i - 1);
    }
}

proof fn lemma_lookup_misses(langs: Seq<(String, LanguageConfig)>, name: Seq<char>)
    requires
        forall|i: int| 0 <= i < langs.len() ==> langs[i].0@ != name,
    ensures
        language_lookup(langs, name) is None,
    decreases langs.len(),
{
    if langs.len() > 0 {
        let rest = langs.drop_first();
        assert forall|i: int| 0 <= i < rest.len() implies rest[i].0@ != name by {
            assert(rest[i] == langs[i + 1]);
        }
        lemma_lookup_misses(rest, name);
    }
}

/// The limits a configured language gets (`Config::limits_for`): for each
/// metric, the value its entry overrides it with, else the global limit.
pub proof fn lemma_language_overrides_win(config: Config, name: Seq<char>, i: int)
    requires
        unique_names(config.languages@),
        0 <= i < config.languages@.len(),
        config.languages@[i].0@ == name,
    ensures
        (match config.languages@[i].1.limits {
            Some(o) => match o.complexity {
                Some(v) => effective_limits(config.limits, language_lookup(config.languages@, name)).complexity == v,
                None => effective_limits(config.limits, language_lookup(config.languages@, name)).complexity
                    == config.limits.complexity,
            },
            None => effective_limits(config.limits, language_lookup(config.languages@, name)).complexity
                == config.limits.complexity,
        }),
        (match config.languages@[i].1.limits {
            Some(o) => match o.depth {
                Some(v) => effective_limits(config.limits, language_lookup(config.languages@, name)).depth == v,
                None => effective_limits(config.limits, language_lookup(config.languages@, name)).depth
                    == config.limits.depth,
            },
            None => effective_limits(config.limits, language_lookup(config.languages@, name)).depth
                == config.limits.depth,
        }),
        (match config.languages@[i].1.limits {
            Some(o) => match o.lines {
                Some(v) => effective_limits(config.limits, language_lookup(config.languages@, name)).lines == v,
                None => effective_limits(config.limits, language_lookup(config.languages@, name)).lines
                    == config.limits.lines,
            },
            None => effective_limits(config.limits, language_lookup(config.languages@, name)).lines
                == config.limits.lines,
        }),
        (match config.languages@[i].1.limits {
            Some(o) => match o.params {
                Some(v) => effective_limits(config.limits, language_lookup(config.languages@, name)).params == v,
                None => effective_limits(config.limits, language_lookup(config.languages@, name)).params
                    == config.limits.params,
            },
            None => effective_limits(config.limits, language_lookup(config.languages@, name)).params
                == config.limits.params,
        }),
        (match config.languages@[i].1.limits {
            Some(o) => match o.bool_ops {
                Some(v) => effective_limits(config.limits, language_lookup(config.languages@, name)).bool_ops == v,
                None => effective_limits(config.limits, language_lookup(config.languages@, name)).bool_ops
                    == config.limits.bool_ops,
            },
            None => effective_limits(config.limits, language_lookup(config.languages@, name)).bool_ops
                == config.limits.bool_ops,
        }),
        (match config.languages@[i].1.limits {
            Some(o) => match o.widget_depth {
                Some(v) => effective_limits(config.limits, language_lookup(config.languages@, name)).widget_depth == v,
                None => effective_limits(config.limits, language_lookup(config.languages@, name)).widget_depth
                    == config.limits.widget_depth,
            },
            None => effective_limits(config.limits, language_lookup(config.languages@, name)).widget_depth
                == config.limits.widget_depth,
        }),
{
    lemma_lookup_finds(config.languages@, name, i);
}

/// A language the configuration does not name gets the global limits.
pub proof fn lemma_unconfigured_language_gets_global_limits(config: Config, name: Seq<char>)
    requires
        forall|i: int| 0 <= i < config.languages@.len() ==> config.languages@[i].0@ != name,
    ensures
        effective_limits(config.limits, language_lookup(config.languages@, name)) == config.limits,
{
    lemma_lookup_misses(config.languages@, name);
}

} // verus!
