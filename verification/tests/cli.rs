use complexity_gate::cli::{exit_code, require_repository, text_output, validate_output_options, Format, OptionsError};
use complexity_gate::diff::fallback_changes;
use complexity_gate::scan::{ScanResult, Unverified, Violation};

fn result(violations: usize) -> ScanResult {
    ScanResult {
        checked: violations,
        violations: (0..violations)
            .map(|i| Violation {
                file: format!("f{i}.js"),
                line: 1,
                function: "f".to_owned(),
                metric: "depth".to_owned(),
                value: 5,
                limit: 4,
            })
            .collect(),
        unverified: vec![Unverified { file: "a.kt".to_owned(), reason: "no grammar for .kt".to_owned() }],
        functions: Vec::new(),
        notes: Vec::new(),
    }
}

#[test]
fn option_rules() {
    assert_eq!(validate_output_options(false, true, false, Format::Json, &vec![]), Err(OptionsError::DetailWithJson));
    assert_eq!(validate_output_options(true, true, false, Format::Text, &vec![]), Err(OptionsError::ChangedVerboseWithoutFile));
    assert_eq!(
        validate_output_options(true, true, false, Format::Text, &vec![false, true]),
        Err(OptionsError::ChangedVerboseWithDirectory)
    );
    assert_eq!(validate_output_options(true, true, false, Format::Text, &vec![false]), Ok(()));
    assert_eq!(validate_output_options(true, false, true, Format::Text, &vec![]), Ok(()));
    assert_eq!(OptionsError::DetailWithJson.message(), "--verbose and --summary cannot be used with --format json");
}

#[test]
fn changed_needs_a_repository() {
    assert_eq!(require_repository(&Some(fallback_changes("/w".to_owned()))), Err(OptionsError::ChangedWithoutRepository));
    assert_eq!(require_repository(&None), Ok(()));
}

#[test]
fn exit_codes_follow_violations_only() {
    assert_eq!(exit_code(&result(0)), 0);
    assert_eq!(exit_code(&result(2)), 1);
}

#[test]
fn reports_are_chosen_by_options() {
    let r = result(1);
    assert_eq!(text_output(&r, false, false, false), "FAIL f0.js:1 f  depth 5 > 4\nUNVERIFIED a.kt  no grammar for .kt\n");
    assert!(text_output(&r, true, false, false).starts_with("FAIL 1 changed file, 1 function, 1 violation\n"));
    assert!(text_output(&r, true, true, false).starts_with("FAIL f0.js:1"));
    assert!(text_output(&r, false, false, true).starts_with("FAIL 1 file,"));
}
