use complexity_gate::diff::{
    diff_spans_from, fallback_changes, parse_diff_hunks, repository_root_from, untracked_paths, GitError,
    LineRange,
};

#[test]
fn synthetic_hunks_use_post_image_and_skip_deletions() {
    let diff = "diff --git a/a.rs b/a.rs\n--- a/a.rs\n+++ b/a.rs\t\n@@ -2,2 +2,3 @@\n@@ -10,2 +11,0 @@\n@@ -20 +19 @@\n";
    let spans = parse_diff_hunks(diff);
    assert_eq!(
        spans.get("a.rs"),
        Some(&vec![LineRange { start: 2, end: 4 }, LineRange { start: 19, end: 19 }])
    );
}

#[test]
fn hunks_group_by_file_and_ignore_deleted_files() {
    let diff = "+++ b/z.py\n@@ -1 +1 @@\n+++ /dev/null\n@@ -1,3 +0,0 @@\n+++ b/a/b.go\n@@ -4 +4,2 @@\n+++ b/z.py\n@@ -9 +9 @@\n";
    let spans = parse_diff_hunks(diff);
    assert_eq!(spans.files.len(), 2);
    assert_eq!(spans.files[0].path, "a/b.go");
    assert_eq!(spans.get("a/b.go"), Some(&vec![LineRange { start: 4, end: 5 }]));
    assert_eq!(
        spans.get("z.py"),
        Some(&vec![LineRange { start: 1, end: 1 }, LineRange { start: 9, end: 9 }])
    );
    assert!(spans.contains_key("a//b.go"));
    assert!(!spans.contains_key("./z.py"));
    assert!(!spans.contains_key("y.py"));
}

#[test]
fn ranges_meet_closed_intervals() {
    let r = LineRange { start: 5, end: 7 };
    assert!(r.intersects(7, 9));
    assert!(r.intersects(1, 5));
    assert!(!r.intersects(8, 10));
    assert!(!r.intersects(1, 4));
}

#[test]
fn git_output_is_read_as_text() {
    assert_eq!(repository_root_from(b"/repo/root\n".to_vec()), Ok("/repo/root".to_owned()));
    assert_eq!(repository_root_from(vec![0xff, b'\n']), Err(GitError::RootNotUtf8));
    assert_eq!(GitError::RootNotUtf8.message(), "Git repository root was not UTF-8");
    let spans = diff_spans_from(b"+++ b/x.js\n@@ -1 +1,2 @@\n".to_vec());
    assert_eq!(spans.get("x.js"), Some(&vec![LineRange { start: 1, end: 2 }]));
}

#[test]
fn untracked_names_are_split_on_nul() {
    assert_eq!(untracked_paths(&b"a.js\0dir/b.rs\0\0c\xffd\0".to_vec()), vec!["a.js", "dir/b.rs", "c\u{fffd}d"]);
    assert!(untracked_paths(&Vec::new()).is_empty());
    assert_eq!(untracked_paths(&b"last".to_vec()), vec!["last"]);
}

#[test]
fn fallback_counts_everything_as_changed() {
    let c = fallback_changes("/w".to_owned());
    assert!(c.fallback);
    assert_eq!(c.repo_root, "/w");
    assert!(c.spans.files.is_empty() && c.untracked.is_empty());
}

#[test]
fn diff_that_is_not_utf8_is_read_lossily() {
    let spans = diff_spans_from(b"+++ b/staged.js\n@@ -1 +1 @@\n+return '\xff';\n".to_vec());
    assert_eq!(spans.get("staged.js"), Some(&vec![LineRange { start: 1, end: 1 }]));
}
