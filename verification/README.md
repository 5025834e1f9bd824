# complexity-gate

Deterministic per-function complexity checks for JavaScript, TypeScript, TSX,
Svelte, Dart, Rust, Python and Go: cyclomatic complexity, control-flow depth,
significant lines, parameters, boolean operators per expression and (in
Dart) widget nesting, measured on tree-sitter syntax trees, with
hooks that keep coding agents from finishing while the functions they changed
exceed the limits.

The library in `src/` is verified with Verus. Its contracts state, over
mathematical models, what each function computes:

- `syntax`: the tree-sitter parse, read out as a flat preorder of nodes;
- `metrics` (specifications) and `measure` (code): which nodes are functions,
  their decision points, depth, significant lines, parameters and names;
- `svelte`, `parse`: Svelte components (script blocks and the template) and
  the entry point `parse_source`;
- `diff`: changed line ranges from `git diff --unified=0`, and Git's output;
- `config`, `json`, `glob`: configuration files, their merging and checking,
  and glob matching;
- `scan`: which files and functions a check counts, and their violations;
- `report`, `cli`, `hooks`: the text reports, the `check` command's rules,
  and the agent hooks' decisions;
- `text`, `path`, `sort`: strings, `Path`-style paths and stable sorting.

`app/` is the command-line program around the library: argument parsing,
files, Git, the environment and JSON input and output.
