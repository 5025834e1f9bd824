use complexity_gate::language::{grammar_inventory, Language};

#[test]
fn extensions_pick_languages() {
    assert_eq!(Language::from_path("src/a.js"), Some(Language::JavaScript));
    assert_eq!(Language::from_path("src/A.MJS"), Some(Language::JavaScript));
    assert_eq!(Language::from_path("x.cts"), Some(Language::TypeScript));
    assert_eq!(Language::from_path("x.tsx"), Some(Language::Tsx));
    assert_eq!(Language::from_path("App.svelte"), Some(Language::Svelte));
    assert_eq!(Language::from_path("w.dart"), Some(Language::Dart));
    assert_eq!(Language::from_path("lib.rs"), Some(Language::Rust));
    assert_eq!(Language::from_path("stub.pyi"), Some(Language::Python));
    assert_eq!(Language::from_path("main.go"), Some(Language::Go));
    assert_eq!(Language::from_path("Foo.kt"), None);
    assert_eq!(Language::from_path("Makefile"), None);
    assert_eq!(Language::from_path(".js"), None);
}

#[test]
fn names_group_typescript_dialects() {
    assert_eq!(Language::Tsx.name(), "typescript");
    assert_eq!(Language::TypeScript.name(), "typescript");
    assert_eq!(Language::Svelte.name(), "svelte");
    assert_eq!(Language::Go.name(), "go");
}

#[test]
fn grammars_are_listed_with_versions() {
    let inventory = grammar_inventory();
    assert_eq!(inventory.len(), 7);
    assert_eq!(inventory[0].language, "javascript");
    assert_eq!(inventory[1].grammar, "tree-sitter-typescript");
    assert_eq!(inventory[2].version, "1.0.2");
}
