//! Checking files against the limits: which functions count and which
//! violate a limit.

use vstd::prelude::*;
use crate::config::{effective_limits, language_lookup, Config, Limits};
use crate::diff::{spans_lookup, spans_view, ChangedFiles, DiffSpans, LineRange};
use crate::glob::{glob_set_matches, matcher_builds, set_patterns, strings_view};
use crate::language::{language_name, path_language, FunctionMetrics, Language, MetricsView};
use crate::path::{
    extension, file_name, join, last_index_before, lemma_last_index_before, path_eq, same_path, strip_prefix, PartKind,
};
use crate::parse::{parse_source, source_metrics};
use crate::path::{path_order, seq_order, str_compare, path_compare};
use crate::sort::{lemma_sort_by_permutes, lemma_sort_by_sorted, seq_views, sort_by, sorted_by, stable_sort, SortKey};
use crate::syntax::ParseError;
use crate::measure::views;
use crate::glob::set_is_match;
use crate::text::str_eq;

verus! {

/// A function over a limit.
#[derive(Clone, Debug, PartialEq, Eq)]
pub struct Violation {
    pub file: String,
    pub line: usize,
    pub function: String,
    pub metric: String,
    pub value: usize,
    pub limit: usize,
}

/// A file no grammar measures, and why.
#[derive(Clone, Debug, PartialEq, Eq)]
pub struct Unverified {
    pub file: String,
    pub reason: String,
}

/// The outcome of a scan.
#[derive(Clone, Debug)]
pub struct ScanResult {
    pub checked: usize,
    pub violations: Vec<Violation>,
    pub unverified: Vec<Unverified>,
    pub functions: Vec<(String, FunctionMetrics)>,
    /// Notes for the reader, such as a configuration file the diff changes.
    pub notes: Vec<String>,
}

/// What to scan: from `cwd`, the `paths` (the directory itself when none),
/// with an explicit configuration file if given, limited to a diff if
/// given.
#[derive(Clone, Debug)]
pub struct ScanOptions {
    pub cwd: String,
    pub paths: Vec<String>,
    pub explicit_config: Option<String>,
    pub changed: Option<ChangedFiles>,
}

/// A violation as values.
pub struct ViolationView {
    pub file: Seq<char>,
    pub line: int,
    pub function: Seq<char>,
    pub metric: Seq<char>,
    pub value: int,
    pub limit: int,
}

impl View for Violation {
    type V = ViolationView;

    open spec fn view(&self) -> ViolationView {
        ViolationView {
            file: self.file@,
            line: self.line as int,
            function: self.function@,
            metric: self.metric@,
            value: self.value as int,
            limit: self.limit as int,
        }
    }
}

// ----------------------------------------------------------------- selection

/// Whether `p` equals (as a path) one of `v`.
pub open spec fn path_listed(v: Seq<String>, p: Seq<char>) -> bool {
    exists|i: int| 0 <= i < v.len() && same_path(#[trigger] v[i]@, p)
}

/// Whether a file takes part in a scan limited by `changed`: every file
/// without a diff or in the fallback; else files with changed ranges and
/// untracked files.
pub open spec fn file_selected(p: Seq<char>, changed: Option<ChangedFiles>) -> bool {
    match changed {
        None => true,
        Some(c) => c.fallback || spans_lookup(spans_view(c.spans.files@), p) is Some || path_listed(
            c.untracked@,
            p,
        ),
    }
}

/// The ranges that limit which functions of a file count: none (all count)
/// without a diff, in the fallback and for untracked files.
pub open spec fn file_spans(p: Seq<char>, changed: Option<ChangedFiles>) -> Option<Seq<LineRange>> {
    match changed {
        None => None,
        Some(c) => if c.fallback || path_listed(c.untracked@, p) {
            None
        } else {
            spans_lookup(spans_view(c.spans.files@), p)
        },
    }
}

/// A function is touched when its lines meet one of the ranges.
pub open spec fn touches(m: MetricsView, ranges: Seq<LineRange>) -> bool {
    exists|i: int|
        0 <= i < ranges.len() && #[trigger] ranges[i].start <= m.end_line && m.line <= ranges[i].end
}

fn path_listed_exec(v: &Vec<String>, p: &str) -> (r: bool)
    ensures
        r == path_listed(v@, p@),
{
    let mut i: usize = 0;
    while i < v.len()
        invariant
            i <= v@.len(),
            forall|j: int| 0 <= j < i ==> !same_path(#[trigger] v@[j]@, p@),
        decreases v@.len() - i,
    {
        if path_eq(v[i].as_str(), p) {
            return true;
        }
        i = i + 1;
    }
    false
}

/// `file_selected`.
pub fn changed_file_selected(p: &str, changed: &Option<ChangedFiles>) -> (r: bool)
    ensures
        r == file_selected(p@, *changed),
{
    match changed {
        None => true,
        Some(c) => c.fallback || c.spans.contains_key(p) || path_listed_exec(&c.untracked, p),
    }
}

/// `file_spans`.
pub fn changed_spans<'a>(p: &str, changed: &'a Option<ChangedFiles>) -> (r: Option<&'a Vec<LineRange>>)
    ensures
        match r {
            Some(v) => file_spans(p@, *changed) == Some(v@),
            None => file_spans(p@, *changed) is None,
        },
{
    match changed {
        None => None,
        Some(c) => if c.fallback || path_listed_exec(&c.untracked, p) {
            None
        } else {
            c.spans.get(p)
        },
    }
}

/// `touches`.
pub fn touches_exec(m: &FunctionMetrics, ranges: &Vec<LineRange>) -> (r: bool)
    ensures
        r == touches(m@, ranges@),
{
    let mut i: usize = 0;
    while i < ranges.len()
        invariant
            i <= ranges@.len(),
            forall|j: int| 0 <= j < i ==> !(#[trigger] ranges@[j].start <= m@.end_line && m@.line <= ranges@[j].end),
        decreases ranges@.len() - i,
    {
        if ranges[i].intersects(m.line, m.end_line) {
            return true;
        }
        i = i + 1;
    }
    false
}

// ------------------------------------------------------------------- paths

/// The directory above `d`: up to its last `/`, or the root for a
/// top-level directory; none for the root itself and for a name without
/// `/`.
pub open spec fn parent_dir(d: Seq<char>) -> Option<Seq<char>> {
    let i = last_index_before(d, '/', d.len() as int);
    if d.len() <= 1 || i < 0 {
        None
    } else if i == 0 {
        Some(seq!['/'])
    } else {
        Some(d.take(i))
    }
}

/// `n` steps up: `../` written `n` times.
pub open spec fn ups(n: nat) -> Seq<char>
    decreases n,
{
    if n == 0 {
        seq![]
    } else {
        ups((n - 1) as nat) + "../"@
    }
}

/// `p` relative to `dir`, reached from `n` levels below `dir`: from the
/// nearest ancestor of `dir` that `p` lies under, the `../` steps up to it
/// and then the rest of `p`; `p` itself when no ancestor holds it.
pub open spec fn up_path(dir: Seq<char>, p: Seq<char>, n: nat) -> Seq<char>
    decreases dir.len(),
{
    match strip_prefix(p, dir) {
        Some(rest) => ups(n) + rest,
        None => match parent_dir(dir) {
            Some(d) => if d.len() < dir.len() {
                up_path(d, p, n + 1)
            } else {
                p
            },
            None => p,
        },
    }
}

/// A path as the scan reports it: relative to `cwd`, with `../` steps for a
/// path outside it (`../../top.js` from `src/sub`).
pub open spec fn display_path(cwd: Seq<char>, p: Seq<char>) -> Seq<char> {
    up_path(cwd, p, 0)
}

proof fn lemma_parent_dir(d: Seq<char>)
    ensures
        parent_dir(d) matches Some(q) ==> q.len() < d.len(),
{
    lemma_last_index_before(d, '/', d.len() as int);
}

/// `parent_dir`.
fn parent_dir_exec(d: &str) -> (r: Option<String>)
    ensures
        match r {
            Some(q) => parent_dir(d@) == Some(q@),
            None => parent_dir(d@) is None,
        },
{
    let v = crate::text::chars_of(d);
    let n = v.len();
    let mut i = n;
    while i > 0 && v[i - 1] != '/'
        invariant
            i <= n == v@.len(),
            v@ == d@,
            last_index_before(d@, '/', n as int) == last_index_before(d@, '/', i as int),
        decreases i,
    {
        i = i - 1;
    }
    proof {
        lemma_last_index_before(d@, '/', n as int);
    }
    if n <= 1 || i == 0 {
        return None;
    }
    let k = i - 1;
    if k == 0 {
        let root = "/".to_owned();
        proof {
            reveal_strlit("/");
        }
        assert(root@ =~= seq!['/']);
        return Some(root);
    }
    let q = vstd::string::StrSliceExecFns::substring_char(d, 0, k);
    assert(q@ =~= d@.take(k as int));
    Some(q.to_owned())
}

/// `display_path`.
pub fn relative(cwd: &str, p: &str) -> (r: String)
    ensures
        r@ == display_path(cwd@, p@),
{
    let mut dir: String = cwd.to_owned();
    let mut prefix = String::new();
    let ghost mut n: nat = 0;
    assert(prefix@ =~= ups(0));
    loop
        invariant
            up_path(dir@, p@, n) == display_path(cwd@, p@),
            prefix@ == ups(n),
        decreases dir@.len(),
    {
        if let Some(rest) = crate::path::strip_path_prefix(p, dir.as_str()) {
            prefix.append(rest.as_str());
            return prefix;
        }
        match parent_dir_exec(dir.as_str()) {
            Some(d) => {
                proof {
                    lemma_parent_dir(dir@);
                }
                let ghost old_prefix = prefix@;
                prefix.append("../");
                proof {
                    reveal_strlit("../");
                    n = n + 1;
                }
                assert(prefix@ =~= ups(n));
                dir = d;
            },
            None => {
                return p.to_owned();
            },
        }
    }
}

/// A path as a diff and the ignore and test patterns see it: relative to
/// the root of the scan's changes (`ChangedFiles::repo_root`: the
/// repository root, or outside a repository the root the fallback was made
/// for), and without changes relative to `cwd`. Reports still show
/// `display_path`.
pub open spec fn root_path(cwd: Seq<char>, changed: Option<ChangedFiles>, p: Seq<char>) -> Seq<char> {
    match changed {
        Some(c) => display_path(c.repo_root@, p),
        None => display_path(cwd, p),
    }
}

/// `root_path`.
pub fn root_relative(cwd: &str, changed: &Option<ChangedFiles>, p: &str) -> (r: String)
    ensures
        r@ == root_path(cwd@, *changed, p@),
{
    match changed {
        Some(c) => relative(c.repo_root.as_str(), p),
        None => relative(cwd, p),
    }
}

/// A path made absolute against `cwd` (`cwd.join(p)` unless `p` is absolute).
pub fn absolute(cwd: &str, p: &str) -> (r: String)
    ensures
        r@ == join(cwd@, p@),
{
    crate::path::join_paths(cwd, p)
}

/// Why a file is unverified: the grammar it lacks.
pub open spec fn extension_reason(p: Seq<char>) -> Seq<char> {
    match extension(p) {
        Some(e) => "no grammar for ."@ + e,
        None => "no grammar for extensionless file"@,
    }
}

/// `extension_reason`.
pub fn extension_reason_exec(p: &str) -> (r: String)
    ensures
        r@ == extension_reason(p@),
{
    let v = crate::text::chars_of(p);
    match crate::path::extension_range(&v) {
        Some((lo, hi)) => {
            let mut out = "no grammar for .".to_owned();
            let e = vstd::string::StrSliceExecFns::substring_char(p, lo, hi);
            out.append(e);
            out
        },
        None => "no grammar for extensionless file".to_owned(),
    }
}

// -------------------------------------------------------------- violations

/// Whether `metric` is one of the listed names.
fn listed(v: &Vec<String>, metric: &str) -> (r: bool)
    ensures
        r == strings_view(v@).contains(metric@),
{
    let mut i: usize = 0;
    while i < v.len()
        invariant
            i <= v@.len(),
            forall|j: int| 0 <= j < i ==> v@[j]@ != metric@,
        decreases v@.len() - i,
    {
        if str_eq(v[i].as_str(), metric) {
            assert(strings_view(v@)[i as int] == metric@);
            return true;
        }
        i = i + 1;
    }
    assert(!strings_view(v@).contains(metric@)) by {
        if strings_view(v@).contains(metric@) {
            let j = choose|j: int| 0 <= j < strings_view(v@).len() && strings_view(v@)[j] == metric@;
            assert(v@[j]@ == metric@);
        }
    }
    false
}

/// The violation of one metric: none when the value is within the limit,
/// or when the file is a test file exempt from the metric.
pub open spec fn metric_violation(
    file: Seq<char>,
    m: MetricsView,
    metric: Seq<char>,
    value: int,
    limit: int,
    exempt: Seq<Seq<char>>,
    test_file: bool,
) -> Seq<ViolationView> {
    if value <= limit || (test_file && exempt.contains(metric)) {
        seq![]
    } else {
        seq![ViolationView { file, line: m.line, function: m.function, metric, value, limit }]
    }
}

/// The violations of one function, checked in the order complexity, depth,
/// lines, params, bool_ops, widget_depth.
pub open spec fn function_violations(
    file: Seq<char>,
    m: MetricsView,
    limits: Limits,
    exempt: Seq<Seq<char>>,
    test_file: bool,
) -> Seq<ViolationView> {
    metric_violation(file, m, "complexity"@, m.complexity, limits.complexity as int, exempt, test_file)
        + metric_violation(file, m, "depth"@, m.depth, limits.depth as int, exempt, test_file)
        + metric_violation(file, m, "lines"@, m.lines, limits.lines as int, exempt, test_file)
        + metric_violation(file, m, "params"@, m.params, limits.params as int, exempt, test_file)
        + metric_violation(file, m, "bool_ops"@, m.bool_ops, limits.bool_ops as int, exempt, test_file)
        + metric_violation(file, m, "widget_depth"@, m.widget_depth, limits.widget_depth as int, exempt, test_file)
}

fn add_metric(
    file: &str,
    m: &FunctionMetrics,
    metric: &str,
    value: usize,
    limit: usize,
    exempt: &Vec<String>,
    test_file: bool,
    out: &mut Vec<Violation>,
)
    ensures
        seq_views(final(out)@) == seq_views(old(out)@) + metric_violation(
            file@,
            m@,
            metric@,
            value as int,
            limit as int,
            strings_view(exempt@),
            test_file,
        ),
{
    if value <= limit || (test_file && listed(exempt, metric)) {
        assert(seq_views(out@) =~= seq_views(out@) + Seq::<ViolationView>::empty());
        return;
    }
    let v = Violation {
        file: file.to_owned(),
        line: m.line,
        function: m.function.clone(),
        metric: metric.to_owned(),
        value,
        limit,
    };
    let ghost before = out@;
    out.push(v);
    assert(seq_views(out@) =~= seq_views(before).push(v@));
}

/// Records the violations of one function.
fn add_violations(
    file: &str,
    m: &FunctionMetrics,
    limits: &Limits,
    exempt: &Vec<String>,
    test_file: bool,
    out: &mut Vec<Violation>,
)
    ensures
        seq_views(final(out)@) == seq_views(old(out)@) + function_violations(
            file@,
            m@,
            *limits,
            strings_view(exempt@),
            test_file,
        ),
{
    let ghost start = seq_views(out@);
    let ghost ex = strings_view(exempt@);
    add_metric(file, m, "complexity", m.complexity, limits.complexity, exempt, test_file, out);
    add_metric(file, m, "depth", m.depth, limits.depth, exempt, test_file, out);
    add_metric(file, m, "lines", m.lines, limits.lines, exempt, test_file, out);
    add_metric(file, m, "params", m.params, limits.params, exempt, test_file, out);
    add_metric(file, m, "bool_ops", m.bool_ops, limits.bool_ops, exempt, test_file, out);
    add_metric(file, m, "widget_depth", m.widget_depth, limits.widget_depth, exempt, test_file, out);
    assert(seq_views(out@) =~= start + function_violations(file@, m@, *limits, ex, test_file));
}

// -------------------------------------------------------------------- scan

/// A file to scan, with what loading it gave: the configuration in force
/// for it (or why it could not be loaded) and its text (or why it could not
/// be read).
pub struct ScanFile {
    pub path: String,
    pub config: Result<Config, String>,
    pub source: Result<String, SourceError>,
}

/// Why a file's text is not there.
#[derive(Clone, Debug)]
pub enum SourceError {
    /// The file's bytes are not UTF-8: the file is reported unverified.
    NotUtf8,
    /// The file could not be read, for the reason given: the scan stops.
    Unreadable(String),
}

/// Why a file whose bytes are not UTF-8 is not measured.
pub open spec fn not_utf8_reason() -> Seq<char> {
    "not valid UTF-8"@
}

/// Why a scan stopped.
#[derive(Debug)]
pub enum ScanError {
    /// A file's configuration could not be loaded.
    Config(String),
    /// An ignore or test pattern could not be made a matcher.
    Glob(globset::Error),
    /// A file could not be read.
    Read(String),
    /// A file could not be parsed.
    Parse(ParseError),
}

impl View for Unverified {
    type V = (Seq<char>, Seq<char>);

    open spec fn view(&self) -> (Seq<char>, Seq<char>) {
        (self.file@, self.reason@)
    }
}

/// What a scan found, as values.
pub struct ScanView {
    pub checked: int,
    pub violations: Seq<ViolationView>,
    pub unverified: Seq<(Seq<char>, Seq<char>)>,
    pub functions: Seq<(Seq<char>, MetricsView)>,
    pub notes: Seq<Seq<char>>,
}

impl View for ScanResult {
    type V = ScanView;

    open spec fn view(&self) -> ScanView {
        ScanView {
            checked: self.checked as int,
            violations: seq_views(self.violations@),
            unverified: seq_views(self.unverified@),
            functions: seq_views(self.functions@),
            notes: strings_view(self.notes@),
        }
    }
}

/// Violations are ordered by file (as paths), line, then metric name.
impl SortKey for Violation {
    open spec fn key_le(a: ViolationView, b: ViolationView) -> bool {
        path_order(a.file, b.file) < 0 || (path_order(a.file, b.file) == 0 && (a.line < b.line || (a.line
            == b.line && seq_order(a.metric, b.metric) <= 0)))
    }

    proof fn lemma_key_total(a: ViolationView, b: ViolationView) {
        crate::path::lemma_path_order(a.file, b.file, b.file);
        crate::path::lemma_seq_order(a.metric, b.metric, b.metric);
    }

    proof fn lemma_key_transitive(a: ViolationView, b: ViolationView, c: ViolationView) {
        crate::path::lemma_path_order(a.file, b.file, c.file);
        crate::path::lemma_path_order(b.file, c.file, a.file);
        crate::path::lemma_seq_order(a.metric, b.metric, c.metric);
        crate::path::lemma_seq_order(b.metric, c.metric, a.metric);
    }

    fn key_le_exec(&self, other: &Self) -> (r: bool) {
        let f = path_compare(self.file.as_str(), other.file.as_str());
        if f != 0 {
            return f < 0;
        }
        if self.line != other.line {
            return self.line < other.line;
        }
        str_compare(self.metric.as_str(), other.metric.as_str()) <= 0
    }
}

/// Unverified files are ordered by file (as paths).
impl SortKey for Unverified {
    open spec fn key_le(a: (Seq<char>, Seq<char>), b: (Seq<char>, Seq<char>)) -> bool {
        path_order(a.0, b.0) <= 0
    }

    proof fn lemma_key_total(a: (Seq<char>, Seq<char>), b: (Seq<char>, Seq<char>)) {
        crate::path::lemma_path_order(a.0, b.0, b.0);
    }

    proof fn lemma_key_transitive(a: (Seq<char>, Seq<char>), b: (Seq<char>, Seq<char>), c: (Seq<char>, Seq<char>)) {
        crate::path::lemma_path_order(a.0, b.0, c.0);
        crate::path::lemma_path_order(b.0, c.0, a.0);
    }

    fn key_le_exec(&self, other: &Self) -> (r: bool) {
        path_compare(self.file.as_str(), other.file.as_str()) <= 0
    }
}

/// Measured functions are ordered by file (as paths), then start line.
impl SortKey for (String, FunctionMetrics) {
    open spec fn key_le(a: (Seq<char>, MetricsView), b: (Seq<char>, MetricsView)) -> bool {
        path_order(a.0, b.0) < 0 || (path_order(a.0, b.0) == 0 && a.1.line <= b.1.line)
    }

    proof fn lemma_key_total(a: (Seq<char>, MetricsView), b: (Seq<char>, MetricsView)) {
        crate::path::lemma_path_order(a.0, b.0, b.0);
    }

    proof fn lemma_key_transitive(
        a: (Seq<char>, MetricsView),
        b: (Seq<char>, MetricsView),
        c: (Seq<char>, MetricsView),
    ) {
        crate::path::lemma_path_order(a.0, b.0, c.0);
        crate::path::lemma_path_order(b.0, c.0, a.0);
    }

    fn key_le_exec(&self, other: &Self) -> (r: bool) {
        let f = path_compare(self.0.as_str(), other.0.as_str());
        if f != 0 {
            return f < 0;
        }
        self.1.line <= other.1.line
    }
}

/// The functions that count: all, or those touching one of the ranges.
pub open spec fn counted(ms: Seq<MetricsView>, spans: Option<Seq<LineRange>>) -> Seq<MetricsView>
    decreases ms.len(),
{
    if ms.len() == 0 {
        seq![]
    } else {
        let prev = counted(ms.drop_last(), spans);
        match spans {
            Some(r) => if touches(ms.last(), r) {
                prev.push(ms.last())
            } else {
                prev
            },
            None => prev.push(ms.last()),
        }
    }
}

/// The violations of the functions, in order.
pub open spec fn all_violations(
    file: Seq<char>,
    ms: Seq<MetricsView>,
    limits: Limits,
    exempt: Seq<Seq<char>>,
    test_file: bool,
) -> Seq<ViolationView>
    decreases ms.len(),
{
    if ms.len() == 0 {
        seq![]
    } else {
        all_violations(file, ms.drop_last(), limits, exempt, test_file) + function_violations(
            file,
            ms.last(),
            limits,
            exempt,
            test_file,
        )
    }
}

/// The functions, each with its file.
pub open spec fn with_file(file: Seq<char>, ms: Seq<MetricsView>) -> Seq<(Seq<char>, MetricsView)> {
    ms.map_values(|m: MetricsView| (file, m))
}

/// What files add to a scan.
pub struct Findings {
    pub violations: Seq<ViolationView>,
    pub unverified: Seq<(Seq<char>, Seq<char>)>,
    pub functions: Seq<(Seq<char>, MetricsView)>,
}

pub open spec fn no_findings() -> Findings {
    Findings { violations: seq![], unverified: seq![], functions: seq![] }
}

/// The file takes part in the scan and has a grammar, so its configuration
/// is loaded.
pub open spec fn needs_config(cwd: Seq<char>, changed: Option<ChangedFiles>, f: ScanFile) -> bool {
    file_selected(root_path(cwd, changed, f.path@), changed) && path_language(f.path@) is Some
}

/// The configuration ignores the path (as `root_path` gives it).
pub open spec fn ignored(config: Config, display: Seq<char>) -> bool {
    glob_set_matches(strings_view(config.ignore@), display)
}

/// The configuration counts the path (as `root_path` gives it) as a test
/// file.
pub open spec fn test_file(config: Config, display: Seq<char>) -> bool {
    glob_set_matches(strings_view(config.tests.patterns@), display)
}

/// What one file adds to a scan, given the metrics its text parsed to: an
/// unverified entry when no grammar reads it, else its counted functions
/// and their violations under the limits for its language, unless it is
/// not selected or is ignored.
pub open spec fn file_findings(
    cwd: Seq<char>,
    changed: Option<ChangedFiles>,
    f: ScanFile,
    parsed: Seq<MetricsView>,
) -> Findings {
    let display = display_path(cwd, f.path@);
    let key = root_path(cwd, changed, f.path@);
    if !file_selected(key, changed) {
        no_findings()
    } else {
        match path_language(f.path@) {
            None => Findings {
                violations: seq![],
                unverified: seq![(display, extension_reason(f.path@))],
                functions: seq![],
            },
            Some(lang) => match f.config {
                Ok(config) => if ignored(config, key) {
                    no_findings()
                } else if f.source matches Err(SourceError::NotUtf8) {
                    Findings { violations: seq![], unverified: seq![(display, not_utf8_reason())], functions: seq![] }
                } else {
                    let limits = effective_limits(
                        config.limits,
                        language_lookup(config.languages@, language_name(lang)),
                    );
                    let ms = counted(parsed, file_spans(key, changed));
                    Findings {
                        violations: all_violations(
                            display,
                            ms,
                            limits,
                            strings_view(config.tests.exempt@),
                            test_file(config, key),
                        ),
                        unverified: seq![],
                        functions: with_file(display, ms),
                    }
                },
                Err(_) => no_findings(),
            },
        }
    }
}

/// The file does not stop the scan, its text parsing to `parsed`: its
/// configuration loaded and its ignore patterns compiled; and it is
/// ignored, or its bytes are not UTF-8, or its text parses to `parsed` and
/// its test patterns compile.
pub open spec fn file_passes(
    cwd: Seq<char>,
    changed: Option<ChangedFiles>,
    f: ScanFile,
    parsed: Seq<MetricsView>,
) -> bool {
    needs_config(cwd, changed, f) ==> match f.config {
        Ok(config) => matcher_builds(strings_view(config.ignore@)) && (ignored(config, root_path(cwd, changed, f.path@))
            || match f.source {
            Ok(text) => source_metrics(path_language(f.path@)->Some_0, text@) == Some(parsed) && matcher_builds(
                strings_view(config.tests.patterns@),
            ),
            Err(SourceError::NotUtf8) => true,
            Err(SourceError::Unreadable(_)) => false,
        }),
        Err(_) => false,
    }
}

/// The file does not stop the scan: `file_passes` for the metrics its text
/// parses to.
pub open spec fn file_ok(cwd: Seq<char>, changed: Option<ChangedFiles>, f: ScanFile) -> bool {
    needs_config(cwd, changed, f) ==> match f.config {
        Ok(config) => matcher_builds(strings_view(config.ignore@)) && (ignored(config, root_path(cwd, changed, f.path@))
            || match f.source {
            Ok(text) => source_metrics(path_language(f.path@)->Some_0, text@) is Some && matcher_builds(
                strings_view(config.tests.patterns@),
            ),
            Err(SourceError::NotUtf8) => true,
            Err(SourceError::Unreadable(_)) => false,
        }),
        Err(_) => false,
    }
}

/// The file stops the scan with `e`, checked in this order: its
/// configuration failed to load; its ignore patterns do not compile; its
/// text could not be read; it does not parse; its test patterns do not
/// compile.
pub open spec fn file_fails(cwd: Seq<char>, changed: Option<ChangedFiles>, f: ScanFile, e: ScanError) -> bool {
    let display = root_path(cwd, changed, f.path@);
    let lang = path_language(f.path@)->Some_0;
    needs_config(cwd, changed, f) && match e {
        ScanError::Config(m) => (f.config matches Err(x) && x@ == m@),
        ScanError::Glob(_) => match f.config {
            Ok(c) => !matcher_builds(strings_view(c.ignore@)) || (!ignored(c, display) && match f.source {
                Ok(t) => source_metrics(lang, t@) is Some && !matcher_builds(strings_view(c.tests.patterns@)),
                Err(_) => false,
            }),
            Err(_) => false,
        },
        ScanError::Read(m) => f.config matches Ok(c) && matcher_builds(strings_view(c.ignore@)) && !ignored(
            c,
            display,
        ) && (f.source matches Err(SourceError::Unreadable(x)) && x@ == m@),
        ScanError::Parse(_) => f.config matches Ok(c) && matcher_builds(strings_view(c.ignore@)) && !ignored(
            c,
            display,
        ) && (f.source matches Ok(t) && source_metrics(lang, t@) is None),
    }
}

/// The findings of the files in order, each parsed as in `parsed`.
pub open spec fn scan_fold(
    cwd: Seq<char>,
    changed: Option<ChangedFiles>,
    files: Seq<ScanFile>,
    parsed: Seq<Seq<MetricsView>>,
) -> Findings
    decreases files.len(),
{
    if files.len() == 0 {
        no_findings()
    } else {
        let prev = scan_fold(cwd, changed, files.drop_last(), parsed.drop_last());
        let add = file_findings(cwd, changed, files.last(), parsed.last());
        Findings {
            violations: prev.violations + add.violations,
            unverified: prev.unverified + add.unverified,
            functions: prev.functions + add.functions,
        }
    }
}

/// A scan's result: the findings, each list sorted, and how many functions
/// counted.
pub open spec fn scan_outcome(
    cwd: Seq<char>,
    changed: Option<ChangedFiles>,
    files: Seq<ScanFile>,
    parsed: Seq<Seq<MetricsView>>,
) -> ScanView {
    let all = scan_fold(cwd, changed, files, parsed);
    ScanView {
        checked: all.functions.len() as int,
        violations: sort_by::<Violation>(all.violations),
        unverified: sort_by::<Unverified>(all.unverified),
        functions: sort_by::<(String, FunctionMetrics)>(all.functions),
        notes: change_notes(changed),
    }
}

/// Every file passes, each parsed as in `parsed`.
pub open spec fn all_pass(
    cwd: Seq<char>,
    changed: Option<ChangedFiles>,
    files: Seq<ScanFile>,
    parsed: Seq<Seq<MetricsView>>,
) -> bool {
    &&& parsed.len() == files.len()
    &&& forall|i: int| 0 <= i < files.len() ==> file_passes(cwd, changed, files[i], #[trigger] parsed[i])
}

/// The files before `k` all pass, for some parse of each.
pub open spec fn prefix_passes(
    cwd: Seq<char>,
    changed: Option<ChangedFiles>,
    files: Seq<ScanFile>,
    k: int,
) -> bool {
    exists|parsed: Seq<Seq<MetricsView>>| all_pass(cwd, changed, files.take(k), parsed)
}

/// File `k` is the first whose configuration is loaded, and loading it
/// failed.
pub open spec fn first_config_failure(
    cwd: Seq<char>,
    changed: Option<ChangedFiles>,
    files: Seq<ScanFile>,
    k: int,
) -> bool {
    &&& 0 <= k < files.len()
    &&& needs_config(cwd, changed, files[k])
    &&& files[k].config is Err
    &&& forall|j: int| 0 <= j < k ==> !needs_config(cwd, changed, #[trigger] files[j])
}

/// The text of a file, where it was read, is within what the measurements
/// count in a `usize`.
pub open spec fn source_fits(f: ScanFile) -> bool {
    f.source matches Ok(t) ==> t@.len() <= usize::MAX / 8
}

/// The error is the file's configuration error.
pub open spec fn config_error_of(e: ScanError, f: ScanFile) -> bool {
    e matches ScanError::Config(m) && f.config matches Err(x) && m@ == x@
}

/// Scans one file, adding what it finds.
fn scan_file(
    cwd: &str,
    changed: &Option<ChangedFiles>,
    f: &ScanFile,
    violations: &mut Vec<Violation>,
    unverified: &mut Vec<Unverified>,
    functions: &mut Vec<(String, FunctionMetrics)>,
) -> (r: Result<(), ScanError>)
    requires
        source_fits(*f),
    ensures
        r is Ok ==> exists|parsed: Seq<MetricsView>|
            {
                &&& file_passes(cwd@, *changed, *f, parsed)
                &&& seq_views(final(violations)@) == seq_views(old(violations)@) + file_findings(
                    cwd@,
                    *changed,
                    *f,
                    parsed,
                ).violations
                &&& seq_views(final(unverified)@) == seq_views(old(unverified)@) + file_findings(
                    cwd@,
                    *changed,
                    *f,
                    parsed,
                ).unverified
                &&& seq_views(final(functions)@) == seq_views(old(functions)@) + file_findings(
                    cwd@,
                    *changed,
                    *f,
                    parsed,
                ).functions
            },
        r matches Err(e) ==> file_fails(cwd@, *changed, *f, e),
        file_ok(cwd@, *changed, *f) ==> r is Ok,
        needs_config(cwd@, *changed, *f) && f.config is Err ==> (r matches Err(e) && config_error_of(e, *f)),
{
    let ghost v0 = seq_views(violations@);
    let ghost u0 = seq_views(unverified@);
    let ghost fn0 = seq_views(functions@);
    let display = relative(cwd, f.path.as_str());
    let key = root_relative(cwd, changed, f.path.as_str());
    if !changed_file_selected(key.as_str(), changed) {
        assert(seq_views(violations@) =~= v0 + no_findings().violations);
        assert(seq_views(unverified@) =~= u0 + no_findings().unverified);
        assert(seq_views(functions@) =~= fn0 + no_findings().functions);
        assert(file_passes(cwd@, *changed, *f, seq![]));
        return Ok(());
    }
    let language = match Language::from_path(f.path.as_str()) {
        Some(l) => l,
        None => {
            let u = Unverified { file: display, reason: extension_reason_exec(f.path.as_str()) };
            unverified.push(u);
            assert(seq_views(violations@) =~= v0 + Seq::<ViolationView>::empty());
            assert(seq_views(unverified@) =~= u0 + seq![u@]);
            assert(seq_views(functions@) =~= fn0 + Seq::<(Seq<char>, MetricsView)>::empty());
            assert(file_passes(cwd@, *changed, *f, seq![]));
            return Ok(());
        },
    };
    let config = match &f.config {
        Ok(c) => c,
        Err(m) => {
            return Err(ScanError::Config(m.clone()));
        },
    };
    let ignore = match Config::matcher(&config.ignore) {
        Ok(s) => s,
        Err(e) => {
            return Err(ScanError::Glob(e));
        },
    };
    if set_is_match(&ignore, key.as_str()) {
        assert(seq_views(violations@) =~= v0 + no_findings().violations);
        assert(seq_views(unverified@) =~= u0 + no_findings().unverified);
        assert(seq_views(functions@) =~= fn0 + no_findings().functions);
        assert(file_passes(cwd@, *changed, *f, seq![]));
        return Ok(());
    }
    let text = match &f.source {
        Ok(t) => t,
        Err(SourceError::NotUtf8) => {
            let u = Unverified { file: display, reason: "not valid UTF-8".to_owned() };
            unverified.push(u);
            proof {
                reveal_strlit("not valid UTF-8");
            }
            assert(seq_views(violations@) =~= v0 + Seq::<ViolationView>::empty());
            assert(seq_views(unverified@) =~= u0 + seq![u@]);
            assert(seq_views(functions@) =~= fn0 + Seq::<(Seq<char>, MetricsView)>::empty());
            assert(file_passes(cwd@, *changed, *f, seq![]));
            return Ok(());
        },
        Err(SourceError::Unreadable(m)) => {
            return Err(ScanError::Read(m.clone()));
        },
    };
    let metrics = match parse_source(language, text.as_str()) {
        Ok(v) => v,
        Err(e) => {
            return Err(ScanError::Parse(e));
        },
    };
    let tests = match Config::matcher(&config.tests.patterns) {
        Ok(s) => s,
        Err(e) => {
            return Err(ScanError::Glob(e));
        },
    };
    let is_test = set_is_match(&tests, key.as_str());
    let spans = changed_spans(key.as_str(), changed);
    let limits = config.limits_for(language.name());
    let ghost parsed = views(metrics@);
    let ghost sp = file_spans(key@, *changed);
    let ghost ex = strings_view(config.tests.exempt@);
    assert(sp == match spans {
        Some(v) => Some(v@),
        None => None::<Seq<LineRange>>,
    });
    let mut k: usize = 0;
    assert(parsed.take(0) =~= Seq::<MetricsView>::empty());
    while k < metrics.len()
        invariant
            k <= metrics@.len(),
            parsed == views(metrics@),
            sp == match spans {
                Some(v) => Some(v@),
                None => None::<Seq<LineRange>>,
            },
            ex == strings_view(config.tests.exempt@),
            seq_views(violations@) == v0 + all_violations(
                display@,
                counted(parsed.take(k as int), sp),
                limits,
                ex,
                is_test,
            ),
            seq_views(unverified@) == u0,
            seq_views(functions@) == fn0 + with_file(display@, counted(parsed.take(k as int), sp)),
        decreases metrics@.len() - k,
    {
        let m = &metrics[k];
        assert(parsed.take(k + 1).drop_last() =~= parsed.take(k as int));
        assert(parsed.take(k + 1).last() == m@);
        let keep = match spans {
            Some(ranges) => touches_exec(m, ranges),
            None => true,
        };
        let ghost c0 = counted(parsed.take(k as int), sp);
        if keep {
            assert(counted(parsed.take(k + 1), sp) == c0.push(m@));
            assert(c0.push(m@).drop_last() =~= c0);
            add_violations(display.as_str(), m, &limits, &config.tests.exempt, is_test, violations);
            let ghost before = functions@;
            functions.push((display.clone(), m.clone()));
            assert(seq_views(functions@) =~= seq_views(before).push((display@, m@)));
            assert(with_file(display@, c0.push(m@)) =~= with_file(display@, c0).push((display@, m@)));
            assert(seq_views(violations@) =~= v0 + all_violations(display@, c0.push(m@), limits, ex, is_test));
        } else {
            assert(counted(parsed.take(k + 1), sp) == c0);
        }
        k = k + 1;
    }
    assert(parsed.take(k as int) =~= parsed);
    assert(file_passes(cwd@, *changed, *f, parsed));
    Ok(())
}

/// Scans the files in order: each selected file with a grammar is
/// measured under its configuration, each selected file without one is
/// reported unverified; then the violations, unverified files and
/// functions are sorted (`scan_outcome`). The first file that fails stops
/// the scan.
pub fn scan(options: &ScanOptions, files: Vec<ScanFile>) -> (r: Result<ScanResult, ScanError>)
    requires
        forall|i: int|
            0 <= i < files@.len() ==> source_fits(#[trigger] files@[i]),
    ensures
        r matches Ok(res) ==> exists|parsed: Seq<Seq<MetricsView>>|
            all_pass(options.cwd@, options.changed, files@, parsed) && res@ == scan_outcome(
                options.cwd@,
                options.changed,
                files@,
                parsed,
            ),
        r matches Err(e) ==> exists|k: int|
            0 <= k < files@.len() && prefix_passes(options.cwd@, options.changed, files@, k) && file_fails(
                options.cwd@,
                options.changed,
                #[trigger] files@[k],
                e,
            ),
        (forall|i: int| 0 <= i < files@.len() ==> file_ok(options.cwd@, options.changed, #[trigger] files@[i]))
            ==> r is Ok,
        forall|k: int|
            first_config_failure(options.cwd@, options.changed, files@, k) ==> (r matches Err(e)
                && config_error_of(e, files@[k])),
{
    let cwd = options.cwd.as_str();
    let changed = &options.changed;
    let mut violations: Vec<Violation> = Vec::new();
    let mut unverified: Vec<Unverified> = Vec::new();
    let mut functions: Vec<(String, FunctionMetrics)> = Vec::new();
    let ghost mut parsed: Seq<Seq<MetricsView>> = seq![];
    let ghost all_ok = forall|j: int| 0 <= j < files@.len() ==> file_ok(cwd@, *changed, #[trigger] files@[j]);
    let mut i: usize = 0;
    assert(files@.take(0) =~= Seq::<ScanFile>::empty());
    while i < files.len()
        invariant
            i <= files@.len(),
            cwd@ == options.cwd@,
            *changed == options.changed,
            forall|j: int|
                0 <= j < files@.len() ==> source_fits(#[trigger] files@[j]),
            all_pass(cwd@, *changed, files@.take(i as int), parsed),
            seq_views(violations@) == scan_fold(cwd@, *changed, files@.take(i as int), parsed).violations,
            seq_views(unverified@) == scan_fold(cwd@, *changed, files@.take(i as int), parsed).unverified,
            seq_views(functions@) == scan_fold(cwd@, *changed, files@.take(i as int), parsed).functions,
            forall|k: int| 0 <= k < i ==> !first_config_failure(cwd@, *changed, files@, k),
            all_ok == forall|j: int| 0 <= j < files@.len() ==> file_ok(cwd@, *changed, #[trigger] files@[j]),
        decreases files@.len() - i,
    {
        let ghost pre = files@.take(i as int);
        match scan_file(cwd, changed, &files[i], &mut violations, &mut unverified, &mut functions) {
            Ok(()) => {
                let ghost p = choose|p: Seq<MetricsView>|
                    {
                        &&& file_passes(cwd@, *changed, files@[i as int], p)
                        &&& seq_views(violations@) == scan_fold(cwd@, *changed, pre, parsed).violations
                            + file_findings(cwd@, *changed, files@[i as int], p).violations
                        &&& seq_views(unverified@) == scan_fold(cwd@, *changed, pre, parsed).unverified
                            + file_findings(cwd@, *changed, files@[i as int], p).unverified
                        &&& seq_views(functions@) == scan_fold(cwd@, *changed, pre, parsed).functions
                            + file_findings(cwd@, *changed, files@[i as int], p).functions
                    };
                let ghost old_parsed = parsed;
                proof {
                    parsed = parsed.push(p);
                }
                assert(files@.take(i + 1).drop_last() =~= pre);
                assert(files@.take(i + 1).last() == files@[i as int]);
                assert(parsed.drop_last() =~= old_parsed);
                assert forall|j: int| 0 <= j < i + 1 implies file_passes(
                    cwd@,
                    *changed,
                    files@.take(i + 1)[j],
                    #[trigger] parsed[j],
                ) by {
                    if j < i {
                        assert(files@.take(i + 1)[j] == pre[j]);
                    }
                }
                assert(!first_config_failure(cwd@, *changed, files@, i as int));
            },
            Err(e) => {
                assert(all_pass(cwd@, *changed, files@.take(i as int), parsed));
                assert(prefix_passes(cwd@, *changed, files@, i as int));
                assert(file_fails(cwd@, *changed, files@[i as int], e));
                assert(!file_ok(cwd@, *changed, files@[i as int]));
                assert forall|k: int| first_config_failure(cwd@, *changed, files@, k) implies config_error_of(e, files@[k]) by {
                    if k > i {
                        assert(!needs_config(cwd@, *changed, files@[i as int]));
                    }
                }
                return Err(e);
            },
        }
        i = i + 1;
    }
    assert(files@.take(i as int) =~= files@);
    let checked = functions.len();
    let violations = stable_sort(violations);
    let unverified = stable_sort(unverified);
    let functions = stable_sort(functions);
    let notes = change_notes_exec(changed);
    Ok(ScanResult { checked, violations, unverified, functions, notes })
}

// ------------------------------------------------------------------ notes

/// The file name a configuration file has.
pub open spec fn config_file_name() -> Seq<char> {
    ".complexity-gate.json"@
}

/// The note for each configuration file among `keys`, in order.
pub open spec fn config_notes(keys: Seq<Seq<char>>) -> Seq<Seq<char>>
    decreases keys.len(),
{
    if keys.len() == 0 {
        seq![]
    } else {
        config_notes(keys.drop_last()) + if file_name(keys.last()) == Some(config_file_name()) {
            seq![keys.last() + " changed in this diff"@]
        } else {
            seq![]
        }
    }
}

/// The paths a diff names: those with changed lines, then the untracked
/// ones.
pub open spec fn changed_paths(c: ChangedFiles) -> Seq<Seq<char>> {
    spans_view(c.spans.files@).map_values(|e: (Seq<char>, Seq<LineRange>)| e.0) + strings_view(c.untracked@)
}

/// What a scan notes: each configuration file the diff changes (a changed
/// limit applies to this very diff). Without a diff, or in the fallback,
/// nothing.
pub open spec fn change_notes(changed: Option<ChangedFiles>) -> Seq<Seq<char>> {
    match changed {
        Some(c) => if c.fallback {
            seq![]
        } else {
            config_notes(changed_paths(c))
        },
        None => seq![],
    }
}

/// Whether the path names a configuration file.
fn is_config_file(p: &str) -> (r: bool)
    ensures
        r == (file_name(p@) == Some(config_file_name())),
{
    let v = crate::text::chars_of(p);
    let ps = crate::path::parts_of(&v);
    proof {
        crate::path::lemma_path_parts_bounds(v@);
        reveal_strlit(".complexity-gate.json");
    }
    if ps.len() == 0 {
        return false;
    }
    let last = ps[ps.len() - 1];
    if last.kind != PartKind::Normal {
        return false;
    }
    let name = vstd::string::StrSliceExecFns::substring_char(p, last.lo, last.hi);
    str_eq(name, ".complexity-gate.json")
}

/// Adds the note for `keys[k]` (which `p` spells) to the notes of the keys
/// before it.
fn add_config_note(p: &str, out: &mut Vec<String>, keys: Ghost<Seq<Seq<char>>>, k: Ghost<int>)
    requires
        0 <= k@ < keys@.len(),
        keys@[k@] == p@,
        strings_view(old(out)@) == config_notes(keys@.take(k@)),
    ensures
        strings_view(final(out)@) == config_notes(keys@.take(k@ + 1)),
{
    assert(keys@.take(k@ + 1).drop_last() =~= keys@.take(k@));
    assert(keys@.take(k@ + 1).last() == p@);
    if is_config_file(p) {
        let mut note = p.to_owned();
        note.append(" changed in this diff");
        let ghost before = out@;
        out.push(note);
        proof {
            reveal_strlit(" changed in this diff");
        }
        assert(strings_view(out@) =~= strings_view(before).push(note@));
    }
}

/// `change_notes`.
pub fn change_notes_exec(changed: &Option<ChangedFiles>) -> (r: Vec<String>)
    ensures
        strings_view(r@) == change_notes(*changed),
{
    let mut out: Vec<String> = Vec::new();
    let c = match changed {
        Some(c) => c,
        None => {
            assert(strings_view(out@) =~= Seq::<Seq<char>>::empty());
            return out;
        },
    };
    if c.fallback {
        assert(strings_view(out@) =~= Seq::<Seq<char>>::empty());
        return out;
    }
    let ghost keys = changed_paths(*c);
    let n = c.spans.files.len();
    let m = c.untracked.len();
    assert(keys.take(0) =~= Seq::<Seq<char>>::empty());
    let mut k: usize = 0;
    while k < n
        invariant
            n == c.spans.files@.len(),
            m == c.untracked@.len(),
            keys == changed_paths(*c),
            keys.len() == n + m,
            k <= n,
            strings_view(out@) == config_notes(keys.take(k as int)),
        decreases n - k,
    {
        let p = c.spans.files[k].path.as_str();
        assert(keys[k as int] == p@);
        add_config_note(p, &mut out, Ghost(keys), Ghost(k as int));
        k = k + 1;
    }
    let mut j: usize = 0;
    while j < m
        invariant
            n == c.spans.files@.len(),
            m == c.untracked@.len(),
            keys == changed_paths(*c),
            keys.len() == n + m,
            j <= m,
            strings_view(out@) == config_notes(keys.take(n + j)),
        decreases m - j,
    {
        let p = c.untracked[j].as_str();
        assert(keys[n + j] == p@);
        add_config_note(p, &mut out, Ghost(keys), Ghost(n + j));
        j = j + 1;
    }
    let ghost i = n + j;
    assert(keys.take(i) =~= keys);
    out
}

// ------------------------------------------------------------ file lists

/// The roots a scan walks: each given path made absolute against `cwd`;
/// without paths, the repository root when the scan is limited to a diff
/// (changed files anywhere in the repository count), else `cwd`.
pub open spec fn roots_of(cwd: Seq<char>, paths: Seq<Seq<char>>, changed: Option<ChangedFiles>) -> Seq<Seq<char>> {
    if paths.len() == 0 {
        match changed {
            Some(c) => if c.fallback {
                seq![cwd]
            } else {
                seq![c.repo_root@]
            },
            None => seq![cwd],
        }
    } else {
        paths.map_values(|p: Seq<char>| join(cwd, p))
    }
}

/// `roots_of` the options.
pub fn scan_roots(options: &ScanOptions) -> (r: Vec<String>)
    ensures
        strings_view(r@) == roots_of(options.cwd@, strings_view(options.paths@), options.changed),
{
    let mut out: Vec<String> = Vec::new();
    if options.paths.len() == 0 {
        let root = match &options.changed {
            Some(c) => if c.fallback {
                options.cwd.clone()
            } else {
                c.repo_root.clone()
            },
            None => options.cwd.clone(),
        };
        out.push(root);
        assert(strings_view(out@) =~= seq![root@]);
        return out;
    }
    let mut i: usize = 0;
    while i < options.paths.len()
        invariant
            i <= options.paths@.len(),
            options.paths@.len() > 0,
            strings_view(out@) == roots_of(options.cwd@, strings_view(options.paths@), options.changed).take(i as int),
        decreases options.paths@.len() - i,
    {
        let ghost before = out@;
        let a = absolute(options.cwd.as_str(), options.paths[i].as_str());
        out.push(a);
        assert(strings_view(options.paths@)[i as int] == options.paths@[i as int]@);
        assert(roots_of(options.cwd@, strings_view(options.paths@), options.changed)[i as int] == a@);
        assert(strings_view(out@) =~= strings_view(before).push(a@));
        assert(strings_view(out@) =~= roots_of(options.cwd@, strings_view(options.paths@), options.changed).take(
            i + 1,
        ));
        i = i + 1;
    }
    assert(roots_of(options.cwd@, strings_view(options.paths@), options.changed).take(i as int) =~= roots_of(
        options.cwd@,
        strings_view(options.paths@),
        options.changed,
    ));
    out
}

/// A file a walk found, and whether it was given as a root itself (a root
/// file is kept whatever the ignore patterns say).
#[derive(Clone, Debug)]
pub struct FoundFile {
    pub path: String,
    pub root: bool,
}

impl View for FoundFile {
    type V = (Seq<char>, bool);

    open spec fn view(&self) -> (Seq<char>, bool) {
        (self.path@, self.root)
    }
}

/// Found files are ordered by path.
impl SortKey for FoundFile {
    open spec fn key_le(a: (Seq<char>, bool), b: (Seq<char>, bool)) -> bool {
        path_order(a.0, b.0) <= 0
    }

    proof fn lemma_key_total(a: (Seq<char>, bool), b: (Seq<char>, bool)) {
        crate::path::lemma_path_order(a.0, b.0, b.0);
    }

    proof fn lemma_key_transitive(a: (Seq<char>, bool), b: (Seq<char>, bool), c: (Seq<char>, bool)) {
        crate::path::lemma_path_order(a.0, b.0, c.0);
        crate::path::lemma_path_order(b.0, c.0, a.0);
    }

    fn key_le_exec(&self, other: &Self) -> (r: bool) {
        path_compare(self.path.as_str(), other.path.as_str()) <= 0
    }
}

/// The found files a scan keeps: every root named on the command line; of
/// the files met while walking a directory, those with a grammar that no
/// ignore pattern matches (a walked `README.md` is noise, not a finding).
pub open spec fn kept_files(found: Seq<(Seq<char>, bool)>, ignore: Seq<Seq<char>>) -> Seq<(Seq<char>, bool)>
    decreases found.len(),
{
    if found.len() == 0 {
        seq![]
    } else {
        let prev = kept_files(found.drop_last(), ignore);
        let f = found.last();
        if f.1 || (path_language(f.0) is Some && !glob_set_matches(ignore, f.0)) {
            prev.push(f)
        } else {
            prev
        }
    }
}

/// The paths with each run of equal paths kept once (its first).
pub open spec fn dedup_paths(s: Seq<(Seq<char>, bool)>) -> Seq<Seq<char>>
    decreases s.len(),
{
    if s.len() == 0 {
        seq![]
    } else {
        let d = dedup_paths(s.drop_last());
        if d.len() > 0 && same_path(d.last(), s.last().0) {
            d
        } else {
            d.push(s.last().0)
        }
    }
}

/// The files a scan reads: the kept files in path order, each path once.
pub open spec fn collected(found: Seq<(Seq<char>, bool)>, ignore: Seq<Seq<char>>) -> Seq<Seq<char>> {
    dedup_paths(sort_by::<FoundFile>(kept_files(found, ignore)))
}

/// `collected` with the patterns of the ignore matcher.
pub fn collect_files(found: Vec<FoundFile>, ignore: &globset::GlobSet) -> (r: Vec<String>)
    ensures
        strings_view(r@) == collected(seq_views(found@), set_patterns(*ignore)),
{
    let ghost fv = seq_views(found@);
    let ghost pats = set_patterns(*ignore);
    let mut kept: Vec<FoundFile> = Vec::new();
    let mut i: usize = 0;
    assert(fv.take(0) =~= Seq::<(Seq<char>, bool)>::empty());
    while i < found.len()
        invariant
            i <= found@.len(),
            fv == seq_views(found@),
            pats == set_patterns(*ignore),
            seq_views(kept@) == kept_files(fv.take(i as int), pats),
        decreases found@.len() - i,
    {
        assert(fv.take(i + 1).drop_last() =~= fv.take(i as int));
        assert(fv.take(i + 1).last() == found@[i as int]@);
        let f = &found[i];
        if f.root || (Language::from_path(f.path.as_str()).is_some() && !set_is_match(ignore, f.path.as_str())) {
            let ghost before = kept@;
            let g = FoundFile { path: f.path.clone(), root: f.root };
            kept.push(g);
            assert(seq_views(kept@) =~= seq_views(before).push(g@));
        }
        i = i + 1;
    }
    assert(fv.take(i as int) =~= fv);
    let sorted = stable_sort(kept);
    let ghost sv = seq_views(sorted@);
    let mut out: Vec<String> = Vec::new();
    let mut j: usize = 0;
    assert(sv.take(0) =~= Seq::<(Seq<char>, bool)>::empty());
    while j < sorted.len()
        invariant
            j <= sorted@.len(),
            sv == seq_views(sorted@),
            strings_view(out@) == dedup_paths(sv.take(j as int)),
        decreases sorted@.len() - j,
    {
        assert(sv.take(j + 1).drop_last() =~= sv.take(j as int));
        assert(sv.take(j + 1).last() == sorted@[j as int]@);
        let n = out.len();
        if n > 0 && path_eq(out[n - 1].as_str(), sorted[j].path.as_str()) {
            assert(strings_view(out@).last() == out@[n - 1]@);
        } else {
            let ghost before = out@;
            out.push(sorted[j].path.clone());
            assert(strings_view(out@) =~= strings_view(before).push(sorted@[j as int].path@));
            if n > 0 {
                assert(strings_view(before).last() == before[n - 1]@);
            }
        }
        j = j + 1;
    }
    assert(sv.take(j as int) =~= sv);
    out
}

// -------------------------------------------------------------------- laws

/// A violation is a metric over its limit: each violation of a function
/// names one of the six metrics, has a value above its limit, and is not
/// one a test file is exempt from.
pub proof fn lemma_violations_exceed_limits(
    file: Seq<char>,
    m: MetricsView,
    limits: Limits,
    exempt: Seq<Seq<char>>,
    test_file: bool,
)
    ensures
        forall|i: int|
            0 <= i < function_violations(file, m, limits, exempt, test_file).len() ==> {
                let v = #[trigger] function_violations(file, m, limits, exempt, test_file)[i];
                &&& v.value > v.limit
                &&& v.file == file && v.line == m.line && v.function == m.function
                &&& (v.metric == "complexity"@ || v.metric == "depth"@ || v.metric == "lines"@ || v.metric == "params"@
                    || v.metric == "bool_ops"@ || v.metric == "widget_depth"@)
                &&& !(test_file && exempt.contains(v.metric))
            },
{
}

/// The violation a function over `limit` on `metric` is reported with.
pub open spec fn excess(file: Seq<char>, m: MetricsView, metric: Seq<char>, value: int, limit: int) -> ViolationView {
    ViolationView { file, line: m.line, function: m.function, metric, value, limit }
}

/// Every metric over its limit is reported: for each of complexity, depth,
/// lines, params, bool_ops and widget_depth whose value is above its limit,
/// unless a test file is exempt from that metric, the function's
/// violations hold one naming the metric with its value and limit.
#[verifier::spinoff_prover]
pub proof fn lemma_every_excess_is_reported(
    file: Seq<char>,
    m: MetricsView,
    limits: Limits,
    exempt: Seq<Seq<char>>,
    test_file: bool,
)
    ensures
        m.complexity > limits.complexity && !(test_file && exempt.contains("complexity"@)) ==> function_violations(
            file,
            m,
            limits,
            exempt,
            test_file,
        ).contains(excess(file, m, "complexity"@, m.complexity, limits.complexity as int)),
        m.depth > limits.depth && !(test_file && exempt.contains("depth"@)) ==> function_violations(
            file,
            m,
            limits,
            exempt,
            test_file,
        ).contains(excess(file, m, "depth"@, m.depth, limits.depth as int)),
        m.lines > limits.lines && !(test_file && exempt.contains("lines"@)) ==> function_violations(
            file,
            m,
            limits,
            exempt,
            test_file,
        ).contains(excess(file, m, "lines"@, m.lines, limits.lines as int)),
        m.params > limits.params && !(test_file && exempt.contains("params"@)) ==> function_violations(
            file,
            m,
            limits,
            exempt,
            test_file,
        ).contains(excess(file, m, "params"@, m.params, limits.params as int)),
        m.bool_ops > limits.bool_ops && !(test_file && exempt.contains("bool_ops"@)) ==> function_violations(
            file,
            m,
            limits,
            exempt,
            test_file,
        ).contains(excess(file, m, "bool_ops"@, m.bool_ops, limits.bool_ops as int)),
        m.widget_depth > limits.widget_depth && !(test_file && exempt.contains("widget_depth"@))
            ==> function_violations(file, m, limits, exempt, test_file).contains(
            excess(file, m, "widget_depth"@, m.widget_depth, limits.widget_depth as int),
        ),
{
    let c = metric_violation(file, m, "complexity"@, m.complexity, limits.complexity as int, exempt, test_file);
    let d = metric_violation(file, m, "depth"@, m.depth, limits.depth as int, exempt, test_file);
    let l = metric_violation(file, m, "lines"@, m.lines, limits.lines as int, exempt, test_file);
    let p = metric_violation(file, m, "params"@, m.params, limits.params as int, exempt, test_file);
    let b = metric_violation(file, m, "bool_ops"@, m.bool_ops, limits.bool_ops as int, exempt, test_file);
    let w = metric_violation(file, m, "widget_depth"@, m.widget_depth, limits.widget_depth as int, exempt, test_file);
    let all = function_violations(file, m, limits, exempt, test_file);
    assert(all == c + d + l + p + b + w);
    if c.len() == 1 {
        assert(all[0] == c[0]);
    }
    if d.len() == 1 {
        assert(all[c.len() as int] == d[0]);
    }
    if l.len() == 1 {
        assert(all[(c.len() + d.len()) as int] == l[0]);
    }
    if p.len() == 1 {
        assert(all[(c.len() + d.len() + l.len()) as int] == p[0]);
    }
    if b.len() == 1 {
        assert(all[(c.len() + d.len() + l.len() + p.len()) as int] == b[0]);
    }
    if w.len() == 1 {
        assert(all[(c.len() + d.len() + l.len() + p.len() + b.len()) as int] == w[0]);
    }
}

/// A function within every limit has no violation.
pub proof fn lemma_within_limits_no_violation(
    file: Seq<char>,
    m: MetricsView,
    limits: Limits,
    exempt: Seq<Seq<char>>,
    test_file: bool,
)
    requires
        m.complexity <= limits.complexity,
        m.depth <= limits.depth,
        m.lines <= limits.lines,
        m.params <= limits.params,
        m.bool_ops <= limits.bool_ops,
        m.widget_depth <= limits.widget_depth,
    ensures
        function_violations(file, m, limits, exempt, test_file) == Seq::<ViolationView>::empty(),
{
    assert(function_violations(file, m, limits, exempt, test_file) =~= Seq::<ViolationView>::empty());
}

/// A scan's findings come out sorted: violations by file, line and metric,
/// unverified files by file, functions by file and line; and the sorts keep
/// every finding.
pub proof fn lemma_scan_outcome_sorted(
    cwd: Seq<char>,
    changed: Option<ChangedFiles>,
    files: Seq<ScanFile>,
    parsed: Seq<Seq<MetricsView>>,
)
    ensures
        sorted_by::<Violation>(scan_outcome(cwd, changed, files, parsed).violations),
        sorted_by::<Unverified>(scan_outcome(cwd, changed, files, parsed).unverified),
        sorted_by::<(String, FunctionMetrics)>(scan_outcome(cwd, changed, files, parsed).functions),
        scan_outcome(cwd, changed, files, parsed).violations.to_multiset() == scan_fold(
            cwd,
            changed,
            files,
            parsed,
        ).violations.to_multiset(),
        scan_outcome(cwd, changed, files, parsed).unverified.to_multiset() == scan_fold(
            cwd,
            changed,
            files,
            parsed,
        ).unverified.to_multiset(),
        scan_outcome(cwd, changed, files, parsed).functions.to_multiset() == scan_fold(
            cwd,
            changed,
            files,
            parsed,
        ).functions.to_multiset(),
{
    let all = scan_fold(cwd, changed, files, parsed);
    lemma_sort_by_sorted::<Violation>(all.violations);
    lemma_sort_by_sorted::<Unverified>(all.unverified);
    lemma_sort_by_sorted::<(String, FunctionMetrics)>(all.functions);
    lemma_sort_by_permutes::<Violation>(all.violations);
    lemma_sort_by_permutes::<Unverified>(all.unverified);
    lemma_sort_by_permutes::<(String, FunctionMetrics)>(all.functions);
}

/// Each path comes before every later one.
pub open spec fn strictly_ordered(s: Seq<Seq<char>>) -> bool {
    forall|i: int, j: int| 0 <= i < j < s.len() ==> path_order(#[trigger] s[i], #[trigger] s[j]) < 0
}

proof fn lemma_dedup_sorted(s: Seq<(Seq<char>, bool)>)
    requires
        sorted_by::<FoundFile>(s),
    ensures
        strictly_ordered(dedup_paths(s)),
        dedup_paths(s).len() > 0 ==> exists|k: int| 0 <= k < s.len() && dedup_paths(s).last() == s[k].0,
    decreases s.len(),
{
    if s.len() > 0 {
        let t = s.drop_last();
        assert(sorted_by::<FoundFile>(t)) by {
            assert forall|i: int, j: int| 0 <= i < j < t.len() implies FoundFile::key_le(
                #[trigger] t[i],
                #[trigger] t[j],
            ) by {
                assert(t[i] == s[i] && t[j] == s[j]);
            }
        }
        lemma_dedup_sorted(t);
        let d = dedup_paths(t);
        let x = s.last().0;
        if d.len() > 0 && same_path(d.last(), x) {
            let k = choose|k: int| 0 <= k < t.len() && d.last() == t[k].0;
            assert(d.last() == s[k].0);
        } else if d.len() > 0 {
            let k = choose|k: int| 0 <= k < t.len() && d.last() == t[k].0;
            assert(FoundFile::key_le(s[k], s[s.len() - 1]));
            crate::path::lemma_path_order(d.last(), x, x);
            let r = d.push(x);
            assert forall|i: int, j: int| 0 <= i < j < r.len() implies path_order(#[trigger] r[i], #[trigger] r[j]) < 0 by {
                if j == r.len() - 1 {
                    if i < d.len() - 1 {
                        assert(path_order(d[i], d[d.len() - 1]) < 0);
                        crate::path::lemma_path_order(d[i], d.last(), x);
                    }
                } else {
                    assert(r[i] == d[i] && r[j] == d[j]);
                }
            }
            assert(r.last() == s[s.len() - 1].0);
        } else {
            assert(d.push(x).last() == s[s.len() - 1].0);
        }
    }
}

/// The files a scan reads are in path order, each path once.
pub proof fn lemma_collected_in_path_order(found: Seq<(Seq<char>, bool)>, ignore: Seq<Seq<char>>)
    ensures
        strictly_ordered(collected(found, ignore)),
{
    lemma_sort_by_sorted::<FoundFile>(kept_files(found, ignore));
    lemma_dedup_sorted(sort_by::<FoundFile>(kept_files(found, ignore)));
}

proof fn lemma_kept_files_kept(found: Seq<(Seq<char>, bool)>, ignore: Seq<Seq<char>>, x: (Seq<char>, bool))
    requires
        kept_files(found, ignore).contains(x),
    ensures
        found.contains(x),
        x.1 || (path_language(x.0) is Some && !glob_set_matches(ignore, x.0)),
    decreases found.len(),
{
    let prev = kept_files(found.drop_last(), ignore);
    if prev.contains(x) {
        lemma_kept_files_kept(found.drop_last(), ignore, x);
        let i = choose|i: int| 0 <= i < found.drop_last().len() && found.drop_last()[i] == x;
        assert(found[i] == x);
    } else {
        assert(x == found.last());
        assert(found[found.len() - 1] == x);
    }
}

proof fn lemma_dedup_from(s: Seq<(Seq<char>, bool)>, k: int)
    requires
        0 <= k < dedup_paths(s).len(),
    ensures
        exists|j: int| 0 <= j < s.len() && #[trigger] s[j].0 == dedup_paths(s)[k],
    decreases s.len(),
{
    let d = dedup_paths(s.drop_last());
    if k < d.len() {
        lemma_dedup_from(s.drop_last(), k);
        let j = choose|j: int| 0 <= j < s.drop_last().len() && #[trigger] s.drop_last()[j].0 == d[k];
        assert(s[j] == s.drop_last()[j]);
    } else {
        assert(dedup_paths(s)[k] == s[s.len() - 1].0);
    }
}

/// Every file a scan collects was found and kept: a root named on the
/// command line, or a file met while walking that has a grammar and that no
/// ignore pattern matches. Walked files without a grammar never reach the
/// scan, so they are never reported.
pub proof fn lemma_collected_files_are_kept(found: Seq<(Seq<char>, bool)>, ignore: Seq<Seq<char>>, k: int)
    requires
        0 <= k < collected(found, ignore).len(),
    ensures
        exists|f: (Seq<char>, bool)|
            found.contains(f) && f.0 == collected(found, ignore)[k] && (f.1 || (path_language(f.0) is Some
                && !glob_set_matches(ignore, f.0))),
{
    broadcast use vstd::seq_lib::group_to_multiset_ensures;

    let kept = kept_files(found, ignore);
    let sorted = sort_by::<FoundFile>(kept);
    lemma_dedup_from(sorted, k);
    let j = choose|j: int| 0 <= j < sorted.len() && #[trigger] sorted[j].0 == dedup_paths(sorted)[k];
    let f = sorted[j];
    lemma_sort_by_permutes::<FoundFile>(kept);
    assert(sorted.contains(f));
    assert(sorted.to_multiset().count(f) > 0);
    assert(kept.contains(f));
    lemma_kept_files_kept(found, ignore, f);
}

/// With a diff, a file that has no changed lines and is not untracked adds
/// nothing to a scan (unless the diff is the fallback for everything).
pub proof fn lemma_unchanged_files_add_nothing(
    cwd: Seq<char>,
    c: ChangedFiles,
    f: ScanFile,
    parsed: Seq<MetricsView>,
)
    requires
        !c.fallback,
        spans_lookup(spans_view(c.spans.files@), root_path(cwd, Some(c), f.path@)) is None,
        !path_listed(c.untracked@, root_path(cwd, Some(c), f.path@)),
    ensures
        file_findings(cwd, Some(c), f, parsed) == no_findings(),
{
}

/// Without a range to limit them, every function counts.
pub proof fn lemma_all_functions_count_without_ranges(ms: Seq<MetricsView>)
    ensures
        counted(ms, None) == ms,
    decreases ms.len(),
{
    if ms.len() > 0 {
        lemma_all_functions_count_without_ranges(ms.drop_last());
        assert(ms.drop_last().push(ms.last()) =~= ms);
    }
}

/// An untracked file is checked in full: it has no ranges to limit its
/// functions.
pub proof fn lemma_untracked_files_count_in_full(p: Seq<char>, c: ChangedFiles)
    requires
        path_listed(c.untracked@, p),
    ensures
        file_selected(p, Some(c)),
        file_spans(p, Some(c)) is None,
{
}

} // verus!
