//! The `check` command's rules: which options go together, which report
//! it prints and how it exits.

use vstd::prelude::*;
use crate::diff::ChangedFiles;
use crate::report::{detailed, detailed_text, report_text, summary, summary_items};
use crate::scan::ScanResult;
use crate::sort::seq_views;

verus! {

/// The report format of `check`.
#[derive(Clone, Copy, Debug, PartialEq, Eq, Structural)]
pub enum Format {
    Text,
    Json,
}

/// Options of `check` that do not go together.
#[derive(Clone, Copy, Debug, PartialEq, Eq, Structural)]
pub enum OptionsError {
    /// `--verbose` or `--summary` with `--format json`.
    DetailWithJson,
    /// `--changed --verbose` without a file.
    ChangedVerboseWithoutFile,
    /// `--changed --verbose` with a directory.
    ChangedVerboseWithDirectory,
    /// `--changed` outside a Git repository with `HEAD`.
    ChangedWithoutRepository,
}

impl OptionsError {
    /// The message the command fails with.
    pub fn message(self) -> (r: &'static str)
        ensures
            r@ == options_message(self),
    {
        match self {
            OptionsError::DetailWithJson => "--verbose and --summary cannot be used with --format json",
            OptionsError::ChangedVerboseWithoutFile => "--changed --verbose requires at least one explicit file",
            OptionsError::ChangedVerboseWithDirectory => "--changed --verbose accepts files, not directories",
            OptionsError::ChangedWithoutRepository =>
                "--changed requires a Git repository with HEAD; run from a repository or omit --changed",
        }
    }
}

pub open spec fn options_message(e: OptionsError) -> Seq<char> {
    match e {
        OptionsError::DetailWithJson => "--verbose and --summary cannot be used with --format json"@,
        OptionsError::ChangedVerboseWithoutFile => "--changed --verbose requires at least one explicit file"@,
        OptionsError::ChangedVerboseWithDirectory => "--changed --verbose accepts files, not directories"@,
        OptionsError::ChangedWithoutRepository =>
            "--changed requires a Git repository with HEAD; run from a repository or omit --changed"@,
    }
}

/// The first rule the options break, given how many paths were named and
/// which of them are directories.
pub open spec fn options_error(
    changed: bool,
    verbose: bool,
    summary: bool,
    format: Format,
    dirs: Seq<bool>,
) -> Option<OptionsError> {
    if format == Format::Json && (verbose || summary) {
        Some(OptionsError::DetailWithJson)
    } else if changed && verbose && dirs.len() == 0 {
        Some(OptionsError::ChangedVerboseWithoutFile)
    } else if changed && verbose && dirs.contains(true) {
        Some(OptionsError::ChangedVerboseWithDirectory)
    } else {
        None
    }
}

/// Checks the options of `check` (`options_error`); `dirs` says for each
/// named path whether it is a directory.
pub fn validate_output_options(
    changed: bool,
    verbose: bool,
    summary: bool,
    format: Format,
    dirs: &Vec<bool>,
) -> (r: Result<(), OptionsError>)
    ensures
        match r {
            Ok(()) => options_error(changed, verbose, summary, format, dirs@) is None,
            Err(e) => options_error(changed, verbose, summary, format, dirs@) == Some(e),
        },
{
    if format == Format::Json && (verbose || summary) {
        return Err(OptionsError::DetailWithJson);
    }
    if changed && verbose && dirs.len() == 0 {
        return Err(OptionsError::ChangedVerboseWithoutFile);
    }
    if changed && verbose {
        let mut i: usize = 0;
        while i < dirs.len()
            invariant
                i <= dirs@.len(),
                forall|j: int| 0 <= j < i ==> !dirs@[j],
                !(format == Format::Json && (verbose || summary)),
                changed && verbose,
                dirs@.len() > 0,
            decreases dirs@.len() - i,
        {
            if dirs[i] {
                assert(dirs@[i as int] == true);
                assert(dirs@.contains(true));
                assert(dirs@.len() > 0);
                return Err(OptionsError::ChangedVerboseWithDirectory);
            }
            i = i + 1;
        }
        assert(!dirs@.contains(true));
    }
    Ok(())
}

/// A diff is needed for `--changed`: a scan without a repository is
/// refused.
pub fn require_repository(changes: &Option<ChangedFiles>) -> (r: Result<(), OptionsError>)
    ensures
        r is Err <==> (changes matches Some(c) && c.fallback),
        r matches Err(e) ==> e == OptionsError::ChangedWithoutRepository,
{
    match changes {
        Some(c) => if c.fallback {
            Err(OptionsError::ChangedWithoutRepository)
        } else {
            Ok(())
        },
        None => Ok(()),
    }
}

/// A summary is printed when asked for, or for a diff unless details are.
pub open spec fn wants_summary(changed: bool, verbose: bool, summary: bool) -> bool {
    summary || (changed && !verbose)
}

/// The text report of `check`: a summary (`wants_summary`) or every
/// finding.
pub fn text_output(result: &ScanResult, changed: bool, verbose: bool, summary_only: bool) -> (r: String)
    requires
        result.violations@.len() + result.unverified@.len() <= usize::MAX,
    ensures
        r@ == if wants_summary(changed, verbose, summary_only) {
            report_text(summary_items(seq_views(result.violations@), seq_views(result.unverified@), changed))
        } else {
            detailed_text(seq_views(result.violations@), seq_views(result.unverified@))
        },
{
    if summary_only || (changed && !verbose) {
        summary(result, changed)
    } else {
        detailed(result)
    }
}

/// `check` exits with 1 when there are violations, else 0.
pub fn exit_code(result: &ScanResult) -> (r: u8)
    ensures
        r == if result.violations@.len() > 0 {
            1u8
        } else {
            0u8
        },
{
    if result.violations.len() > 0 {
        1
    } else {
        0
    }
}

} // verus!
