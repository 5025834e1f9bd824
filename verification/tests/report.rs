use complexity_gate::report::{decimal_string, detailed, lines, plural, scope, summary, SUMMARY_PATH_LIMIT};
use complexity_gate::scan::{ScanResult, Unverified, Violation};

fn empty() -> ScanResult {
    ScanResult { checked: 0, violations: Vec::new(), unverified: Vec::new(), functions: Vec::new(), notes: Vec::new() }
}

#[test]
fn summary_groups_functions_and_caps_paths() {
    let mut result = empty();
    for index in 0..22 {
        result.violations.push(Violation {
            file: format!("src/{index:02}.js"),
            line: 2,
            function: "work".to_owned(),
            metric: "depth".to_owned(),
            value: 5,
            limit: 4,
        });
    }
    result.violations.push(Violation {
        file: "src/00.js".to_owned(),
        line: 2,
        function: "work".to_owned(),
        metric: "complexity".to_owned(),
        value: 16,
        limit: 15,
    });
    result.unverified.push(Unverified { file: "src/unknown.kt".to_owned(), reason: "no grammar for .kt".to_owned() });

    let output = summary(&result, true);

    assert!(output.starts_with("FAIL 22 changed files, 22 functions, 23 violations\n"));
    assert!(output.contains("UNVERIFIED 1 changed file\n"));
    assert!(output.contains("FAIL src/00.js  1 function, 2 violations\n"));
    assert!(output.contains("... 3 more files\n"));
    assert_eq!(output.matches("FAIL src/").count(), SUMMARY_PATH_LIMIT);
    assert!(output.ends_with("DETAILS complexity-gate check --changed --verbose <file>\n"));
}

#[test]
fn empty_reports_are_silent() {
    let result = empty();
    assert!(summary(&result, true).is_empty());
    assert!(detailed(&result).is_empty());
}

#[test]
fn detailed_lists_violations_then_unverified() {
    let mut result = empty();
    result.violations.push(Violation {
        file: "src/auth.ts".to_owned(),
        line: 42,
        function: "authenticate".to_owned(),
        metric: "complexity".to_owned(),
        value: 18,
        limit: 15,
    });
    result.unverified.push(Unverified { file: "src/Foo.kt".to_owned(), reason: "no grammar for .kt".to_owned() });
    assert_eq!(
        detailed(&result),
        "FAIL src/auth.ts:42 authenticate  complexity 18 > 15\nUNVERIFIED src/Foo.kt  no grammar for .kt\n"
    );
}

#[test]
fn summary_without_diff_lists_unverified_after_failures() {
    let mut result = empty();
    result.violations.push(Violation {
        file: "b.js".to_owned(),
        line: 3,
        function: "f".to_owned(),
        metric: "depth".to_owned(),
        value: 5,
        limit: 4,
    });
    result.violations.push(Violation {
        file: "a.js".to_owned(),
        line: 1,
        function: "g".to_owned(),
        metric: "params".to_owned(),
        value: 7,
        limit: 6,
    });
    result.violations.push(Violation {
        file: "a.js".to_owned(),
        line: 8,
        function: "h".to_owned(),
        metric: "lines".to_owned(),
        value: 101,
        limit: 100,
    });
    result.unverified.push(Unverified { file: "x.kt".to_owned(), reason: "no grammar for .kt".to_owned() });
    assert_eq!(
        summary(&result, false),
        "FAIL 2 files, 3 functions, 3 violations\nUNVERIFIED 1 file\nFAIL a.js  2 functions, 2 violations\nFAIL b.js  1 function, 1 violation\nUNVERIFIED x.kt  no grammar for .kt\nDETAILS complexity-gate check --verbose <file>\n"
    );
}

#[test]
fn summary_counts_only_unverified_files() {
    let mut result = empty();
    for index in 0..25 {
        result.unverified.push(Unverified { file: format!("f{index}.kt"), reason: "no grammar for .kt".to_owned() });
    }
    let output = summary(&result, false);
    assert!(output.starts_with("UNVERIFIED 25 files\n"));
    assert_eq!(output.matches("UNVERIFIED f").count(), 20);
    assert!(output.contains("... 5 more files\n"));
}

#[test]
fn words_and_numbers() {
    assert_eq!(plural("file", 1), "file");
    assert_eq!(plural("file", 0), "files");
    assert_eq!(plural("violation", 2), "violations");
    assert_eq!(plural("thing", 2), "thing");
    assert_eq!(scope("file", 3, true), "changed files");
    assert_eq!(scope("function", 1, false), "function");
    assert_eq!(decimal_string(0), "0");
    assert_eq!(decimal_string(1203), "1203");
    assert_eq!(decimal_string(usize::MAX), usize::MAX.to_string());
    assert_eq!(lines(&vec!["a".to_owned(), "b".to_owned()]), "a\nb\n");
    assert_eq!(lines(&vec!["".to_owned()]), "");
    assert_eq!(lines(&Vec::new()), "");
}
