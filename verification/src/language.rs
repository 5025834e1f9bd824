//! The languages with a grammar, and the metrics reported per function.

use vstd::prelude::*;
use crate::path::{extension, extension_range};
use crate::text::{ascii_lowercase, chars_of, lower_char};

verus! {

/// A language with a grammar.
#[derive(Clone, Copy, Debug, PartialEq, Eq, Structural)]
pub enum Language {
    JavaScript,
    TypeScript,
    Tsx,
    Svelte,
    Dart,
    Rust,
    Python,
    Go,
}

/// The metrics of one function.
#[derive(Debug, PartialEq, Eq)]
pub struct FunctionMetrics {
    pub function: String,
    pub line: usize,
    pub end_line: usize,
    pub complexity: usize,
    pub depth: usize,
    pub lines: usize,
    pub params: usize,
    /// The most short-circuit boolean operators in one expression.
    pub bool_ops: usize,
    /// The deepest nesting of Dart argument lists (widget constructors).
    pub widget_depth: usize,
}

/// What a `FunctionMetrics` says, as mathematical values.
pub struct MetricsView {
    pub function: Seq<char>,
    pub line: int,
    pub end_line: int,
    pub complexity: int,
    pub depth: int,
    pub lines: int,
    pub params: int,
    pub bool_ops: int,
    pub widget_depth: int,
}

impl View for FunctionMetrics {
    type V = MetricsView;

    open spec fn view(&self) -> MetricsView {
        MetricsView {
            function: self.function@,
            line: self.line as int,
            end_line: self.end_line as int,
            complexity: self.complexity as int,
            depth: self.depth as int,
            lines: self.lines as int,
            params: self.params as int,
            bool_ops: self.bool_ops as int,
            widget_depth: self.widget_depth as int,
        }
    }
}

impl Clone for FunctionMetrics {
    fn clone(&self) -> (r: Self)
        ensures
            r@ == self@,
    {
        FunctionMetrics {
            function: self.function.clone(),
            line: self.line,
            end_line: self.end_line,
            complexity: self.complexity,
            depth: self.depth,
            lines: self.lines,
            params: self.params,
            bool_ops: self.bool_ops,
            widget_depth: self.widget_depth,
        }
    }
}

/// Functions are reported by start line, then end line.
impl crate::sort::SortKey for FunctionMetrics {
    open spec fn key_le(a: MetricsView, b: MetricsView) -> bool {
        a.line < b.line || (a.line == b.line && a.end_line <= b.end_line)
    }

    proof fn lemma_key_total(a: MetricsView, b: MetricsView) {
    }

    proof fn lemma_key_transitive(a: MetricsView, b: MetricsView, c: MetricsView) {
    }

    fn key_le_exec(&self, other: &Self) -> (r: bool) {
        self.line < other.line || (self.line == other.line && self.end_line <= other.end_line)
    }
}

/// One grammar the library parses with.
#[derive(Clone, Debug)]
pub struct GrammarInfo {
    pub language: &'static str,
    pub grammar: &'static str,
    pub version: &'static str,
}

/// The language files with extension `e` (already lower-cased) are written in.
pub open spec fn extension_language(e: Seq<char>) -> Option<Language> {
    if e == "js"@ || e == "mjs"@ || e == "cjs"@ || e == "jsx"@ {
        Some(Language::JavaScript)
    } else if e == "ts"@ || e == "mts"@ || e == "cts"@ {
        Some(Language::TypeScript)
    } else if e == "tsx"@ {
        Some(Language::Tsx)
    } else if e == "svelte"@ {
        Some(Language::Svelte)
    } else if e == "dart"@ {
        Some(Language::Dart)
    } else if e == "rs"@ {
        Some(Language::Rust)
    } else if e == "py"@ || e == "pyi"@ {
        Some(Language::Python)
    } else if e == "go"@ {
        Some(Language::Go)
    } else {
        None
    }
}

/// The language of a path, by its extension compared without ASCII case.
pub open spec fn path_language(p: Seq<char>) -> Option<Language> {
    match extension(p) {
        Some(e) => extension_language(ascii_lowercase(e)),
        None => None,
    }
}

/// The name under which a language's limits are configured.
pub open spec fn language_name(l: Language) -> Seq<char> {
    match l {
        Language::JavaScript => "javascript"@,
        Language::TypeScript | Language::Tsx => "typescript"@,
        Language::Svelte => "svelte"@,
        Language::Dart => "dart"@,
        Language::Rust => "rust"@,
        Language::Python => "python"@,
        Language::Go => "go"@,
    }
}

/// Whether `v` holds exactly the characters of `lit`.
pub fn chars_equal_str(v: &Vec<char>, lit: &str) -> (r: bool)
    ensures
        r == (v@ == lit@),
{
    let w = chars_of(lit);
    if v.len() != w.len() {
        return false;
    }
    let mut i: usize = 0;
    while i < v.len()
        invariant
            w@ == lit@,
            v@.len() == w@.len(),
            i <= v@.len(),
            forall|j: int| 0 <= j < i ==> v@[j] == w@[j],
        decreases v@.len() - i,
    {
        if v[i] != w[i] {
            return false;
        }
        i = i + 1;
    }
    assert(v@ =~= w@);
    true
}

impl Language {
    /// The language of a file, chosen by its extension without regard to
    /// ASCII case; `None` for any other extension or none.
    pub fn from_path(path: &str) -> (r: Option<Language>)
        ensures
            r == path_language(path@),
    {
        let s = chars_of(path);
        let (lo, hi) = match extension_range(&s) {
            Some(range) => range,
            None => return None,
        };
        let mut e: Vec<char> = Vec::new();
        let mut i = lo;
        while i < hi
            invariant
                lo <= i <= hi <= s@.len(),
                e@ == ascii_lowercase(s@.subrange(lo as int, i as int)),
            decreases hi - i,
        {
            e.push(lower_char(s[i]));
            i = i + 1;
            assert(e@ =~= ascii_lowercase(s@.subrange(lo as int, i as int)));
        }
        if chars_equal_str(&e, "js") || chars_equal_str(&e, "mjs") || chars_equal_str(&e, "cjs")
            || chars_equal_str(&e, "jsx") {
            Some(Language::JavaScript)
        } else if chars_equal_str(&e, "ts") || chars_equal_str(&e, "mts") || chars_equal_str(
            &e,
            "cts",
        ) {
            Some(Language::TypeScript)
        } else if chars_equal_str(&e, "tsx") {
            Some(Language::Tsx)
        } else if chars_equal_str(&e, "svelte") {
            Some(Language::Svelte)
        } else if chars_equal_str(&e, "dart") {
            Some(Language::Dart)
        } else if chars_equal_str(&e, "rs") {
            Some(Language::Rust)
        } else if chars_equal_str(&e, "py") || chars_equal_str(&e, "pyi") {
            Some(Language::Python)
        } else if chars_equal_str(&e, "go") {
            Some(Language::Go)
        } else {
            None
        }
    }

    /// The configuration name of the language; TSX shares TypeScript's.
    pub fn name(self) -> (r: &'static str)
        ensures
            r@ == language_name(self),
    {
        match self {
            Language::JavaScript => "javascript",
            Language::TypeScript | Language::Tsx => "typescript",
            Language::Svelte => "svelte",
            Language::Dart => "dart",
            Language::Rust => "rust",
            Language::Python => "python",
            Language::Go => "go",
        }
    }
}

/// The grammar list: one entry per language family.
pub open spec fn grammar_table() -> Seq<(Seq<char>, Seq<char>, Seq<char>)> {
    seq![
        ("javascript"@, "tree-sitter-javascript"@, "0.25.0"@),
        ("typescript/tsx"@, "tree-sitter-typescript"@, "0.23.2"@),
        ("svelte"@, "tree-sitter-svelte-ng"@, "1.0.2"@),
        ("dart"@, "tree-sitter-dart"@, "0.2.0"@),
        ("rust"@, "tree-sitter-rust"@, "0.24.2"@),
        ("python"@, "tree-sitter-python"@, "0.25.0"@),
        ("go"@, "tree-sitter-go"@, "0.25.0"@),
    ]
}

/// The grammars the library parses with, with their versions.
pub fn grammar_inventory() -> (r: Vec<GrammarInfo>)
    ensures
        r@.len() == grammar_table().len(),
        forall|i: int|
            0 <= i < r@.len() ==> (#[trigger] r@[i].language@, r@[i].grammar@, r@[i].version@)
                == grammar_table()[i],
{
    let mut v: Vec<GrammarInfo> = Vec::new();
    v.push(GrammarInfo { language: "javascript", grammar: "tree-sitter-javascript", version: "0.25.0" });
    v.push(GrammarInfo { language: "typescript/tsx", grammar: "tree-sitter-typescript", version: "0.23.2" });
    v.push(GrammarInfo { language: "svelte", grammar: "tree-sitter-svelte-ng", version: "1.0.2" });
    v.push(GrammarInfo { language: "dart", grammar: "tree-sitter-dart", version: "0.2.0" });
    v.push(GrammarInfo { language: "rust", grammar: "tree-sitter-rust", version: "0.24.2" });
    v.push(GrammarInfo { language: "python", grammar: "tree-sitter-python", version: "0.25.0" });
    v.push(GrammarInfo { language: "go", grammar: "tree-sitter-go", version: "0.25.0" });
    assert forall|i: int| 0 <= i < v@.len() implies (#[trigger] v@[i].language@, v@[i].grammar@, v@[i].version@)
        == grammar_table()[i] by {
        if i == 0 {} else if i == 1 {} else if i == 2 {} else if i == 3 {} else if i == 4 {} else if i == 5 {} else {}
    }
    v
}

} // verus!
