use complexity_gate::path::{join_paths, path_compare, path_eq, str_compare, strip_path_prefix};

#[test]
fn paths_compare_by_components() {
    assert_eq!(path_compare("a/b", "a//b/"), 0);
    assert!(path_eq("a/b", "a/./b"));
    assert!(!path_eq("./a", "a"));
    assert_eq!(path_compare("a/b", "a.b"), -1);
    assert_eq!(path_compare("b", "a/z"), 1);
    assert_eq!(path_compare("/x", "x"), -1);
    assert_eq!(str_compare("abc", "abd"), -1);
    assert_eq!(str_compare("ab", "a"), 1);
    assert_eq!(str_compare("é", "é"), 0);
}

#[test]
fn joining_and_stripping() {
    assert_eq!(join_paths("/w", "src/a.js"), "/w/src/a.js");
    assert_eq!(join_paths("/w/", "a.js"), "/w/a.js");
    assert_eq!(join_paths("/w", "/abs"), "/abs");
    assert_eq!(strip_path_prefix("/w/src/a.js", "/w"), Some("src/a.js".to_owned()));
    assert_eq!(strip_path_prefix("/w/src/a.js", "/w/src/a.js"), Some(String::new()));
    assert_eq!(strip_path_prefix("/wx/a.js", "/w"), None);
}
