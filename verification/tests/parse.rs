use complexity_gate::language::{FunctionMetrics, Language};
use complexity_gate::parse::{parse_source, parse_svelte};

fn m(function: &str, line: usize, end_line: usize, complexity: usize, depth: usize, lines: usize, params: usize) -> FunctionMetrics {
    FunctionMetrics { function: function.to_owned(), line, end_line, complexity, depth, lines, params, bool_ops: 0, widget_depth: 0 }
}

fn with_bool_ops(mut metrics: FunctionMetrics, bool_ops: usize) -> FunctionMetrics {
    metrics.bool_ops = bool_ops;
    metrics
}

#[test]
fn rust_trivial_function() {
    let found = parse_source(Language::Rust, "fn trivial(x: i32) -> i32 { x }\n").unwrap();
    assert_eq!(found, vec![m("trivial", 1, 1, 1, 0, 1, 1)]);
}

#[test]
fn rust_nesting_counts_each_construct() {
    let source = "fn over_depth(x: i32) -> i32 {\n    if x > 0 {\n        while true {\n            for i in 0..x {\n                loop {\n                    if i > 0 { return i; }\n                    break;\n                }\n            }\n            break;\n        }\n    }\n    0\n}\n";
    let found = parse_source(Language::Rust, source).unwrap();
    assert_eq!(found, vec![m("over_depth", 1, 14, 6, 5, 14, 1)]);
}

#[test]
fn rust_match_arms_and_self_parameters() {
    let source = "struct S;\nimpl S {\n    // comment\n    fn pick(&self, v: u8) -> u8 {\n\n        match v {\n            0 => 1,\n            1 if v > 0 && v < 9 => 2,\n            _ => 3,\n        }\n    }\n}\n";
    let found = parse_source(Language::Rust, source).unwrap();
    assert_eq!(found, vec![with_bool_ops(m("pick", 4, 11, 4, 1, 7, 1), 1)]);
}

#[test]
fn javascript_decisions_and_names() {
    let source = "function bad(x) { if (x) return 1; return 0; }\nconst handler = (a, b) => a && b;\nclass Foo {\n  bar(x) {\n    return x ?? 1;\n  }\n}\n";
    let found = parse_source(Language::JavaScript, source).unwrap();
    assert_eq!(
        found,
        vec![
            m("bad", 1, 1, 2, 1, 1, 1),
            with_bool_ops(m("handler", 2, 2, 2, 0, 1, 2), 1),
            with_bool_ops(m("Foo.bar", 4, 6, 2, 0, 3, 1), 1)
        ]
    );
}

#[test]
fn javascript_else_if_chain() {
    let source = "function chain(x) {\n  if (x === 1) {\n    return 1;\n  } else if (x === 2) {\n    return 2;\n  } else {\n    return 3;\n  }\n}\n";
    let found = parse_source(Language::JavaScript, source).unwrap();
    assert_eq!(found, vec![m("chain", 1, 9, 3, 1, 9, 1)]);
}

#[test]
fn nested_functions_are_reported_separately() {
    let source = "function outer() {\n  const inner = () => {\n    if (a) { return 1; }\n  };\n  return inner;\n}\n";
    let found = parse_source(Language::JavaScript, source).unwrap();
    assert_eq!(found, vec![m("outer", 1, 6, 1, 0, 6, 0), m("inner", 2, 4, 2, 1, 3, 0)]);
}

#[test]
fn python_comprehensions_and_parameters() {
    let source = "def f(a, b=1, *args):\n    # note\n    return [x for x in a if x]\n";
    let found = parse_source(Language::Python, source).unwrap();
    assert_eq!(found, vec![m("f", 1, 3, 3, 0, 2, 3)]);
}

#[test]
fn go_grouped_parameters_and_operators() {
    let source = "package p\n\nfunc g(a, b int, c string) int {\n\tif a > b && c != \"\" {\n\t\treturn 1\n\t}\n\treturn 0\n}\n";
    let found = parse_source(Language::Go, source).unwrap();
    assert_eq!(found, vec![with_bool_ops(m("g", 3, 8, 3, 1, 6, 3), 1)]);
}

#[test]
fn svelte_scripts_and_template() {
    let source = "<script lang=\"ts\">\n  function inc(n: number) { return n + 1; }\n</script>\n\n{#if ready && ok}\n  <p>{a ? b : c}</p>\n{/if}\n";
    let found = parse_svelte(source).unwrap();
    assert_eq!(found, vec![m("<template>", 1, 7, 4, 1, 0, 0), m("inc", 2, 2, 1, 0, 1, 1)]);
    let same = parse_source(Language::Svelte, source).unwrap();
    assert_eq!(same, found);
}

#[test]
fn svelte_template_without_scripts() {
    let source = "{#each items as item}\n  {#if item}\n    <b>{item}</b>\n  {/if}\n{/each}\n<style>\n  {#if nope}\n</style>\n";
    let found = parse_source(Language::Svelte, source).unwrap();
    assert_eq!(found, vec![m("<template>", 1, 8, 3, 2, 0, 0)]);
}

#[test]
fn empty_sources_have_no_functions() {
    assert!(parse_source(Language::Rust, "").unwrap().is_empty());
    assert_eq!(parse_source(Language::Svelte, "").unwrap(), vec![m("<template>", 1, 1, 1, 0, 0, 0)]);
}

#[test]
fn rust_else_if_chain_stays_at_the_first_level() {
    let source = "fn f(x: i32) -> i32 {\n    if x == 0 { 1 }\n    else if x == 1 { 2 }\n    else if x == 2 { 3 }\n    else { 4 }\n}\n";
    let found = parse_source(Language::Rust, source).unwrap();
    assert_eq!(found, vec![m("f", 1, 6, 4, 1, 6, 1)]);
}

#[test]
fn go_and_dart_else_if_chains_stay_at_the_first_level() {
    let go = "package p\n\nfunc f(x int) int {\n\tif x == 0 {\n\t\treturn 1\n\t} else if x == 1 {\n\t\treturn 2\n\t}\n\treturn 3\n}\n";
    assert_eq!(parse_source(Language::Go, go).unwrap(), vec![m("f", 3, 10, 3, 1, 8, 1)]);
    let dart = "int f(int x) {\n  if (x == 0) {\n    return 1;\n  } else if (x == 1) {\n    return 2;\n  }\n  return 3;\n}\n";
    assert_eq!(parse_source(Language::Dart, dart).unwrap(), vec![m("f", 1, 8, 3, 1, 8, 1)]);
}

#[test]
fn operators_inside_strings_are_not_decisions() {
    let found = parse_source(Language::JavaScript, "function h(a) { return a + '&&'; }\n").unwrap();
    assert_eq!(found, vec![m("h", 1, 1, 1, 0, 1, 1)]);
    let python = parse_source(Language::Python, "def g(a):\n    return a + ' and '\n").unwrap();
    assert_eq!(python, vec![m("g", 1, 2, 1, 0, 2, 1)]);
}

#[test]
fn a_bare_arrow_parameter_is_one_parameter() {
    let found = parse_source(Language::JavaScript, "const inc = y => y + 1;\n").unwrap();
    assert_eq!(found, vec![m("inc", 1, 1, 1, 0, 1, 1)]);
}

#[test]
fn star_lines_are_comments_only_inside_block_comments() {
    let source = "fn bump(x: &mut i32) {\n    /*\n     * doc\n     */\n    *x += 1;\n    // note\n}\n";
    let found = parse_source(Language::Rust, source).unwrap();
    assert_eq!(found, vec![m("bump", 1, 7, 1, 0, 3, 1)]);
    let js = "function k(p) {\n  /* one line */\n  return p\n    * 2;\n}\n";
    assert_eq!(parse_source(Language::JavaScript, js).unwrap(), vec![m("k", 1, 5, 1, 0, 4, 1)]);
}

#[test]
fn svelte_optional_chaining_and_nullish_pairs_count_once() {
    let source = "{a ?? b}\n{a?.b}\n{a ? b : c}\n{a && b || c}\n";
    let found = parse_source(Language::Svelte, source).unwrap();
    assert_eq!(found, vec![m("<template>", 1, 4, 5, 0, 0, 0)]);
}

#[test]
fn boolean_operators_per_expression_and_widget_nesting() {
    let js = "function opaque(a,b,c,d,e) { return a && b && c && d && e; }\n";
    assert_eq!(parse_source(Language::JavaScript, js).unwrap(), vec![with_bool_ops(m("opaque", 1, 1, 5, 0, 1, 5), 4)]);
    let py = "def f(a, b, c):\n    x = a and b\n    return b or c or a\n";
    assert_eq!(parse_source(Language::Python, py).unwrap(), vec![with_bool_ops(m("f", 1, 3, 4, 0, 3, 3), 2)]);
    let dart = "class Screen { Widget build(context) => A(child: B(child: C(child: D(child: E(child: F(child: G(child: H(child: I())))))))); }\n";
    let found = parse_source(Language::Dart, dart).unwrap();
    assert_eq!(found.len(), 1);
    assert_eq!(found[0].widget_depth, 9);
    assert_eq!(found[0].bool_ops, 0);
}
