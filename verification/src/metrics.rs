//! Function metrics over a syntax tree: which nodes are functions, their
//! decision points, nesting depth, significant lines, parameters and names.

use vstd::prelude::*;
use vstd::utf8::{decode_utf8, encode_utf8, is_char_boundary};
use crate::language::{FunctionMetrics, Language, MetricsView};
use crate::sort::sort_by;
use crate::syntax::{NodeField, NodeKind, SyntaxNode};
use crate::text::{contains, lines, starts_with, trim, trim_start};

verus! {

// ---------------------------------------------------------------- structure

/// The first index at or after `j` whose node is at depth `d` or less.
pub open spec fn end_from(ns: Seq<SyntaxNode>, d: usize, j: int) -> int
    decreases ns.len() - j,
{
    if j < 0 || j >= ns.len() {
        ns.len() as int
    } else if ns[j].depth <= d {
        j
    } else {
        end_from(ns, d, j + 1)
    }
}

/// One past the last descendant of node `i`.
pub open spec fn subtree_end(ns: Seq<SyntaxNode>, i: int) -> int {
    end_from(ns, ns[i].depth, i + 1)
}

// --------------------------------------------------------------------- text

/// Whether `Node::utf8_text` succeeds: the byte range lies on character
/// boundaries of the source.
pub open spec fn text_ok(src: Seq<char>, n: SyntaxNode) -> bool {
    let b = encode_utf8(src);
    n.start_byte <= n.end_byte <= b.len() && is_char_boundary(b, n.start_byte as int)
        && is_char_boundary(b, n.end_byte as int)
}

/// The text of a node, or nothing where `Node::utf8_text` fails.
pub open spec fn node_text(src: Seq<char>, n: SyntaxNode) -> Seq<char> {
    if text_ok(src, n) {
        decode_utf8(encode_utf8(src).subrange(n.start_byte as int, n.end_byte as int))
    } else {
        seq![]
    }
}

// ----------------------------------------------------------------- children

/// The first child at or after `j` (and before `stop`) standing in field `f`.
pub open spec fn field_child_from(ns: Seq<SyntaxNode>, j: int, stop: int, f: NodeField) -> Option<int>
    decreases ns.len() - j,
{
    if j < 0 || j >= stop || j >= ns.len() {
        None
    } else if ns[j].field == Some(f) {
        Some(j)
    } else {
        let e = subtree_end(ns, j);
        if e <= j || e >= stop || e >= ns.len() {
            None
        } else {
            field_child_from(ns, e, stop, f)
        }
    }
}

/// `Node::child_by_field_name`.
pub open spec fn field_child(ns: Seq<SyntaxNode>, i: int, f: NodeField) -> Option<int> {
    field_child_from(ns, i + 1, subtree_end(ns, i), f)
}

/// The number of named children at or after `j`.
pub open spec fn named_count_from(ns: Seq<SyntaxNode>, j: int, stop: int) -> int
    decreases ns.len() - j,
{
    if j < 0 || j >= stop || j >= ns.len() {
        0
    } else {
        let here: int = if ns[j].named { 1 } else { 0 };
        let e = subtree_end(ns, j);
        if e <= j || e >= stop || e >= ns.len() {
            here
        } else {
            here + named_count_from(ns, e, stop)
        }
    }
}

// ---------------------------------------------------------------- functions

/// The node kinds that are functions in each language.
pub open spec fn is_function(lang: Language, k: NodeKind) -> bool {
    match lang {
        Language::JavaScript | Language::TypeScript | Language::Tsx => k == NodeKind::FunctionDeclaration
            || k == NodeKind::FunctionExpression || k == NodeKind::ArrowFunction || k
            == NodeKind::MethodDefinition || k == NodeKind::GeneratorFunction || k
            == NodeKind::GeneratorFunctionDeclaration,
        Language::Dart => k == NodeKind::FunctionDeclaration || k == NodeKind::LocalFunctionDeclaration
            || k == NodeKind::FunctionExpression || k == NodeKind::MethodDeclaration,
        Language::Rust => k == NodeKind::FunctionItem || k == NodeKind::ClosureExpression,
        Language::Python => k == NodeKind::FunctionDefinition || k == NodeKind::Lambda,
        Language::Go => k == NodeKind::FunctionDeclaration || k == NodeKind::MethodDeclaration || k
            == NodeKind::FuncLiteral,
        Language::Svelte => false,
    }
}

// ---------------------------------------------------------- decision points

/// The operator sets that count as decisions in binary expressions.
#[derive(Clone, Copy, Debug, PartialEq, Eq, Structural)]
pub enum OperatorSet {
    /// `&&`, `||`, `??` and their assignment forms.
    Logical,
    /// `??=`.
    NullAssign,
    /// `&&`, `||`.
    AndOr,
    /// `and`, `or`.
    Words,
}

/// `t` is one of the operators of `set`.
pub open spec fn operator_in(set: OperatorSet, t: Seq<char>) -> bool {
    match set {
        OperatorSet::Logical => t == "&&"@ || t == "||"@ || t == "??"@ || t == "&&="@ || t == "||="@
            || t == "??="@,
        OperatorSet::NullAssign => t == "??="@,
        OperatorSet::AndOr => t == "&&"@ || t == "||"@,
        OperatorSet::Words => t == "and"@ || t == "or"@,
    }
}

/// The node's `operator` field holds one of the operators of `set`; text
/// elsewhere in the node (a string literal, say) does not count.
pub open spec fn has_operator(src: Seq<char>, ns: Seq<SyntaxNode>, i: int, set: OperatorSet) -> bool {
    match field_child(ns, i, NodeField::Operator) {
        Some(c) => text_ok(src, ns[c]) && operator_in(set, node_text(src, ns[c])),
        None => false,
    }
}

/// A `_`, `case _` or `default` arm.
pub open spec fn is_default_arm(src: Seq<char>, n: SyntaxNode) -> bool {
    let t = trim_start(node_text(src, n));
    starts_with(t, "_"@) || starts_with(t, "case _"@) || starts_with(t, "default"@)
}

/// Whether node `i` is a decision point.
pub open spec fn is_decision(lang: Language, src: Seq<char>, ns: Seq<SyntaxNode>, i: int) -> bool {
    let k = ns[i].kind;
    match lang {
        Language::JavaScript | Language::TypeScript | Language::Tsx => {
            if k == NodeKind::IfStatement || k == NodeKind::ForStatement || k == NodeKind::ForInStatement
                || k == NodeKind::WhileStatement || k == NodeKind::DoStatement || k == NodeKind::SwitchCase
                || k == NodeKind::CatchClause || k == NodeKind::TernaryExpression {
                true
            } else if k == NodeKind::BinaryExpression || k == NodeKind::AugmentedAssignmentExpression {
                has_operator(src, ns, i, OperatorSet::Logical)
            } else {
                false
            }
        },
        Language::Dart => {
            if k == NodeKind::IfStatement || k == NodeKind::IfElement || k == NodeKind::ForStatement || k
                == NodeKind::ForElement || k == NodeKind::WhileStatement || k
                == NodeKind::SwitchStatementCase || k == NodeKind::SwitchExpressionCase || k
                == NodeKind::CatchClause || k == NodeKind::ConditionalExpression || k
                == NodeKind::LogicalAndExpression || k == NodeKind::LogicalOrExpression || k
                == NodeKind::IfNullExpression {
                true
            } else if k == NodeKind::AssignmentExpression {
                has_operator(src, ns, i, OperatorSet::NullAssign)
            } else {
                false
            }
        },
        Language::Rust => {
            if k == NodeKind::IfExpression || k == NodeKind::ForExpression || k == NodeKind::WhileExpression
                || k == NodeKind::LoopExpression {
                true
            } else if k == NodeKind::MatchArm {
                !is_default_arm(src, ns[i])
            } else if k == NodeKind::LetDeclaration {
                contains(node_text(src, ns[i]), " else "@)
            } else if k == NodeKind::BinaryExpression {
                has_operator(src, ns, i, OperatorSet::AndOr)
            } else {
                false
            }
        },
        Language::Python => {
            if k == NodeKind::IfStatement || k == NodeKind::ElifClause || k == NodeKind::ForStatement || k
                == NodeKind::WhileStatement || k == NodeKind::ExceptClause || k
                == NodeKind::ConditionalExpression || k == NodeKind::ForInClause || k == NodeKind::IfClause {
                true
            } else if k == NodeKind::CaseClause {
                !is_default_arm(src, ns[i])
            } else if k == NodeKind::BooleanOperator {
                has_operator(src, ns, i, OperatorSet::Words)
            } else {
                false
            }
        },
        Language::Go => {
            if k == NodeKind::IfStatement || k == NodeKind::ForStatement || k == NodeKind::ExpressionCase
                || k == NodeKind::TypeCase || k == NodeKind::CommunicationCase {
                true
            } else if k == NodeKind::BinaryExpression {
                has_operator(src, ns, i, OperatorSet::AndOr)
            } else {
                false
            }
        },
        Language::Svelte => false,
    }
}

// -------------------------------------------------------------------- depth

/// The node kinds that open a nesting level.
pub open spec fn opens_depth(lang: Language, k: NodeKind) -> bool {
    match lang {
        Language::JavaScript | Language::TypeScript | Language::Tsx => k == NodeKind::IfStatement || k
            == NodeKind::ForStatement || k == NodeKind::ForInStatement || k == NodeKind::WhileStatement
            || k == NodeKind::DoStatement || k == NodeKind::SwitchStatement || k == NodeKind::TryStatement
            || k == NodeKind::CatchClause,
        Language::Dart => k == NodeKind::IfStatement || k == NodeKind::ForStatement || k
            == NodeKind::WhileStatement || k == NodeKind::DoStatement || k == NodeKind::SwitchStatement
            || k == NodeKind::SwitchExpression || k == NodeKind::TryStatement || k == NodeKind::CatchClause,
        Language::Rust => k == NodeKind::IfExpression || k == NodeKind::ForExpression || k
            == NodeKind::WhileExpression || k == NodeKind::LoopExpression || k == NodeKind::MatchExpression,
        Language::Python => k == NodeKind::IfStatement || k == NodeKind::ForStatement || k
            == NodeKind::WhileStatement || k == NodeKind::MatchStatement || k == NodeKind::TryStatement
            || k == NodeKind::ExceptClause || k == NodeKind::WithStatement,
        Language::Go => k == NodeKind::IfStatement || k == NodeKind::ForStatement || k
            == NodeKind::ExpressionSwitchStatement || k == NodeKind::TypeSwitchStatement || k
            == NodeKind::SelectStatement,
        Language::Svelte => false,
    }
}

/// An `if` node of some grammar.
pub open spec fn is_if_kind(k: NodeKind) -> bool {
    k == NodeKind::IfStatement || k == NodeKind::IfExpression
}

/// Node `c` is the `alternative` of the `if` node `p`.
pub open spec fn alternative_of(ns: Seq<SyntaxNode>, p: int, c: int) -> bool {
    0 <= p < ns.len() && is_if_kind(ns[p].kind) && field_child(ns, p, NodeField::Alternative) == Some(c)
}

/// Node `i` is an `if` that continues an `else if` chain: the `alternative`
/// of an `if` (Dart, Go), or the statement of an `else_clause` that is one
/// (JavaScript, TypeScript, Rust). Python writes the chain with `elif`.
pub open spec fn is_else_if(lang: Language, ns: Seq<SyntaxNode>, i: int) -> bool {
    &&& lang != Language::Python && lang != Language::Svelte
    &&& is_if_kind(ns[i].kind)
    &&& match ns[i].parent {
        Some(p) => alternative_of(ns, p as int, i) || (p < ns.len() && ns[p as int].kind == NodeKind::ElseClause
            && match ns[p as int].parent {
            Some(q) => alternative_of(ns, q as int, p as int),
            None => false,
        }),
        None => false,
    }
}

/// The decision points and the deepest nesting inside node `i`, measured for
/// the function at `root`, at nesting `depth`. Nested functions count nothing.
pub open spec fn score_node(
    lang: Language,
    src: Seq<char>,
    ns: Seq<SyntaxNode>,
    i: int,
    root: int,
    depth: int,
) -> (int, int)
    decreases ns.len() - i, 0int,
{
    if i < 0 || i >= ns.len() {
        (0, 0)
    } else if i != root && is_function(lang, ns[i].kind) {
        (0, 0)
    } else {
        let here: int = if is_decision(lang, src, ns, i) { 1 } else { 0 };
        let next = depth + if opens_depth(lang, ns[i].kind) && !is_else_if(lang, ns, i) { 1int } else { 0 };
        let below = score_children(lang, src, ns, i + 1, subtree_end(ns, i), root, next);
        (here + below.0, if next >= below.1 { next } else { below.1 })
    }
}

/// A nested function starts again: it adds no decision points and no depth
/// to the function that encloses it.
pub proof fn lemma_nested_function_scores_nothing(
    lang: Language,
    src: Seq<char>,
    ns: Seq<SyntaxNode>,
    i: int,
    root: int,
    depth: int,
)
    requires
        0 <= i < ns.len(),
        i != root,
        is_function(lang, ns[i].kind),
    ensures
        score_node(lang, src, ns, i, root, depth) == (0int, 0int),
{
}

/// An `else if` stays at the level of the first `if` of its chain: it adds
/// its decision but opens no level of its own.
pub proof fn lemma_else_if_opens_no_level(
    lang: Language,
    src: Seq<char>,
    ns: Seq<SyntaxNode>,
    i: int,
    root: int,
    depth: int,
)
    requires
        0 <= i < ns.len(),
        i == root || !is_function(lang, ns[i].kind),
        is_else_if(lang, ns, i),
    ensures
        score_node(lang, src, ns, i, root, depth) == ({
            let below = score_children(lang, src, ns, i + 1, subtree_end(ns, i), root, depth);
            ((if is_decision(lang, src, ns, i) { 1int } else { 0int }) + below.0, if depth >= below.1 {
                depth
            } else {
                below.1
            })
        }),
{
}

/// The scores of the named children of a node from child `j` on.
pub open spec fn score_children(
    lang: Language,
    src: Seq<char>,
    ns: Seq<SyntaxNode>,
    j: int,
    stop: int,
    root: int,
    depth: int,
) -> (int, int)
    decreases ns.len() - j, 1int,
{
    if j < 0 || j >= stop || j >= ns.len() {
        (0, 0)
    } else {
        let here = if ns[j].named { score_node(lang, src, ns, j, root, depth) } else { (0, 0) };
        let e = subtree_end(ns, j);
        let rest = if e <= j || e >= stop || e >= ns.len() {
            (0, 0)
        } else {
            score_children(lang, src, ns, e, stop, root, depth)
        };
        (here.0 + rest.0, if here.1 >= rest.1 { here.1 } else { rest.1 })
    }
}

// -------------------------------------------------------------- readability

/// A node that applies a short-circuit boolean operator: `&&`, `||`, `??`
/// in JavaScript and TypeScript, `&&`, `||` in Rust and Go, `and`, `or` in
/// Python, and Dart's logical and if-null expressions.
pub open spec fn is_bool_op(lang: Language, src: Seq<char>, ns: Seq<SyntaxNode>, i: int) -> bool {
    let k = ns[i].kind;
    match lang {
        Language::JavaScript | Language::TypeScript | Language::Tsx => k == NodeKind::BinaryExpression
            && has_operator(src, ns, i, OperatorSet::Logical),
        Language::Dart => k == NodeKind::LogicalAndExpression || k == NodeKind::LogicalOrExpression || k
            == NodeKind::IfNullExpression,
        Language::Rust | Language::Go => k == NodeKind::BinaryExpression && has_operator(
            src,
            ns,
            i,
            OperatorSet::AndOr,
        ),
        Language::Python => k == NodeKind::BooleanOperator && has_operator(src, ns, i, OperatorSet::Words),
        Language::Svelte => false,
    }
}

/// The boolean operators of the expression at node `i`: its own operator
/// tokens (its unnamed children) and those of the boolean expressions it is
/// made of directly, so `a && b && c && d && e` has four.
pub open spec fn bool_chain(lang: Language, src: Seq<char>, ns: Seq<SyntaxNode>, i: int) -> int
    decreases ns.len() - i, 0int,
{
    if i < 0 || i >= ns.len() {
        0
    } else {
        chain_from(lang, src, ns, i + 1, subtree_end(ns, i))
    }
}

/// `bool_chain` summed over the children from child `j` on.
pub open spec fn chain_from(lang: Language, src: Seq<char>, ns: Seq<SyntaxNode>, j: int, stop: int) -> int
    decreases ns.len() - j, 1int,
{
    if j < 0 || j >= stop || j >= ns.len() {
        0
    } else {
        let here: int = if !ns[j].named {
            1
        } else if is_bool_op(lang, src, ns, j) {
            bool_chain(lang, src, ns, j)
        } else {
            0
        };
        let e = subtree_end(ns, j);
        if e <= j || e >= stop || e >= ns.len() {
            here
        } else {
            here + chain_from(lang, src, ns, e, stop)
        }
    }
}

/// The most boolean operators in one expression inside node `i`, for the
/// function at `root`; nested functions count nothing.
pub open spec fn bool_node(lang: Language, src: Seq<char>, ns: Seq<SyntaxNode>, i: int, root: int) -> int
    decreases ns.len() - i, 0int,
{
    if i < 0 || i >= ns.len() {
        0
    } else if i != root && is_function(lang, ns[i].kind) {
        0
    } else {
        let here = if is_bool_op(lang, src, ns, i) {
            bool_chain(lang, src, ns, i)
        } else {
            0
        };
        let below = bool_children(lang, src, ns, i + 1, subtree_end(ns, i), root);
        if here >= below {
            here
        } else {
            below
        }
    }
}

/// `bool_node` at most over the named children from child `j` on.
pub open spec fn bool_children(
    lang: Language,
    src: Seq<char>,
    ns: Seq<SyntaxNode>,
    j: int,
    stop: int,
    root: int,
) -> int
    decreases ns.len() - j, 1int,
{
    if j < 0 || j >= stop || j >= ns.len() {
        0
    } else {
        let here = if ns[j].named {
            bool_node(lang, src, ns, j, root)
        } else {
            0
        };
        let e = subtree_end(ns, j);
        let rest = if e <= j || e >= stop || e >= ns.len() {
            0
        } else {
            bool_children(lang, src, ns, e, stop, root)
        };
        if here >= rest {
            here
        } else {
            rest
        }
    }
}

/// A Dart argument list: each one nests a call, such as a widget's
/// constructor, inside the call around it.
pub open spec fn opens_widget(lang: Language, k: NodeKind) -> bool {
    lang == Language::Dart && k == NodeKind::Arguments
}

/// The deepest nesting of Dart argument lists inside node `i`, for the
/// function at `root`, with `level` of them open around it; nested
/// functions count nothing.
pub open spec fn nest_node(lang: Language, ns: Seq<SyntaxNode>, i: int, root: int, level: int) -> int
    decreases ns.len() - i, 0int,
{
    if i < 0 || i >= ns.len() {
        0
    } else if i != root && is_function(lang, ns[i].kind) {
        0
    } else {
        let next = level + if opens_widget(lang, ns[i].kind) {
            1int
        } else {
            0
        };
        let below = nest_children(lang, ns, i + 1, subtree_end(ns, i), root, next);
        if next >= below {
            next
        } else {
            below
        }
    }
}

/// `nest_node` at most over the named children from child `j` on.
pub open spec fn nest_children(lang: Language, ns: Seq<SyntaxNode>, j: int, stop: int, root: int, level: int) -> int
    decreases ns.len() - j, 1int,
{
    if j < 0 || j >= stop || j >= ns.len() {
        0
    } else {
        let here = if ns[j].named {
            nest_node(lang, ns, j, root, level)
        } else {
            0
        };
        let e = subtree_end(ns, j);
        let rest = if e <= j || e >= stop || e >= ns.len() {
            0
        } else {
            nest_children(lang, ns, e, stop, root, level)
        };
        if here >= rest {
            here
        } else {
            rest
        }
    }
}

// -------------------------------------------------------------------- names

/// The node naming node `i` directly: its `name` field, or the `name` of its
/// `signature` field.
pub open spec fn name_node(ns: Seq<SyntaxNode>, i: int) -> Option<int> {
    match field_child(ns, i, NodeField::Name) {
        Some(c) => Some(c),
        None => match field_child(ns, i, NodeField::Signature) {
            Some(g) => field_child(ns, g, NodeField::Name),
            None => None,
        },
    }
}

/// The name a node carries itself.
pub open spec fn direct_name(src: Seq<char>, ns: Seq<SyntaxNode>, i: int) -> Option<Seq<char>> {
    match name_node(ns, i) {
        Some(c) => if text_ok(src, ns[c]) {
            Some(node_text(src, ns[c]))
        } else {
            None
        },
        None => None,
    }
}

/// The kinds of the types whose methods are named `Type.name`.
pub open spec fn is_owner_kind(lang: Language, k: NodeKind) -> bool {
    match lang {
        Language::JavaScript | Language::TypeScript | Language::Tsx => k == NodeKind::ClassDeclaration
            || k == NodeKind::Class,
        Language::Dart => k == NodeKind::ClassDefinition || k == NodeKind::ExtensionDeclaration,
        _ => false,
    }
}

/// The parent of node `i` as an index, or `-1` at the top.
pub open spec fn parent_of(ns: Seq<SyntaxNode>, i: int) -> int {
    match ns[i].parent {
        Some(p) => if p < i { p as int } else { -1 },
        None => -1,
    }
}

/// `name` prefixed with the name of the nearest enclosing owner type at or
/// above node `q` that has one.
pub open spec fn owner_qualified(
    lang: Language,
    src: Seq<char>,
    ns: Seq<SyntaxNode>,
    q: int,
    name: Seq<char>,
) -> Seq<char>
    decreases q + 1,
{
    if q < 0 || q >= ns.len() {
        name
    } else if is_owner_kind(lang, ns[q].kind) && direct_name(src, ns, q) is Some {
        direct_name(src, ns, q).unwrap() + seq!['.'] + name
    } else {
        owner_qualified(lang, src, ns, parent_of(ns, q), name)
    }
}

/// A method's name qualified with its type where the language has one.
pub open spec fn qualify_method(
    lang: Language,
    src: Seq<char>,
    ns: Seq<SyntaxNode>,
    i: int,
    name: Seq<char>,
) -> Seq<char> {
    let k = ns[i].kind;
    if !(k == NodeKind::MethodDefinition || k == NodeKind::MethodDeclaration) {
        name
    } else if lang == Language::JavaScript || lang == Language::TypeScript || lang == Language::Tsx
        || lang == Language::Dart {
        owner_qualified(lang, src, ns, parent_of(ns, i), name)
    } else {
        name
    }
}

/// A usable binding name: not empty, no space or newline.
pub open spec fn plain_name(t: Seq<char>) -> bool {
    t.len() > 0 && !t.contains(' ') && !t.contains('\n')
}

/// What the field `f` of node `q` says of a binding name: `None` to look
/// further, `Some(r)` to answer `r`.
pub open spec fn binding_step(src: Seq<char>, ns: Seq<SyntaxNode>, q: int, f: NodeField) -> Option<
    Option<Seq<char>>,
> {
    match field_child(ns, q, f) {
        None => None,
        Some(c) => if !text_ok(src, ns[c]) {
            Some(None)
        } else if plain_name(trim(node_text(src, ns[c]))) {
            Some(Some(trim(node_text(src, ns[c]))))
        } else {
            None
        },
    }
}

/// The name a node binds through its `name`, `left` or `key` field.
pub open spec fn binding_name(src: Seq<char>, ns: Seq<SyntaxNode>, q: int) -> Option<Seq<char>> {
    match binding_step(src, ns, q, NodeField::Name) {
        Some(r) => r,
        None => match binding_step(src, ns, q, NodeField::Left) {
            Some(r) => r,
            None => match binding_step(src, ns, q, NodeField::Key) {
                Some(r) => r,
                None => None,
            },
        },
    }
}

/// The name of an anonymous function: the first binding name among its
/// ancestors from `q` up, stopping at an enclosing function.
pub open spec fn binding_search(lang: Language, src: Seq<char>, ns: Seq<SyntaxNode>, q: int) -> Seq<
    char,
>
    decreases q + 1,
{
    if q < 0 || q >= ns.len() {
        "<anonymous>"@
    } else {
        match binding_name(src, ns, q) {
            Some(n) => n,
            None => if is_function(lang, ns[q].kind) {
                "<anonymous>"@
            } else {
                binding_search(lang, src, ns, parent_of(ns, q))
            },
        }
    }
}

/// The reported name of the function at node `i`.
pub open spec fn function_name(lang: Language, src: Seq<char>, ns: Seq<SyntaxNode>, i: int) -> Seq<char> {
    match direct_name(src, ns, i) {
        Some(name) => qualify_method(lang, src, ns, i, name),
        None => binding_search(lang, src, ns, parent_of(ns, i)),
    }
}

// --------------------------------------------------------------- parameters

/// A `self`, `&self`, `&mut self` or `this` parameter.
pub open spec fn receiver_parameter(src: Seq<char>, n: SyntaxNode) -> bool {
    let t = trim(node_text(src, n));
    n.kind == NodeKind::SelfParameter || t == "self"@ || t == "&self"@ || t == "&mut self"@ || t
        == "this"@
}

/// How many parameters one Go parameter declaration declares.
pub open spec fn go_parameter_count(ns: Seq<SyntaxNode>, c: int) -> int {
    let k = ns[c].kind;
    if !(k == NodeKind::ParameterDeclaration || k == NodeKind::VariadicParameterDeclaration) {
        1
    } else {
        let n = named_count_from(ns, c + 1, subtree_end(ns, c));
        if n >= 2 {
            n - 1
        } else {
            1
        }
    }
}

/// Parameters among the named children from `j` on.
pub open spec fn params_from(lang: Language, src: Seq<char>, ns: Seq<SyntaxNode>, j: int, stop: int) -> int
    decreases ns.len() - j,
{
    if j < 0 || j >= stop || j >= ns.len() {
        0
    } else {
        let here: int = if !ns[j].named {
            0
        } else if lang == Language::Go {
            go_parameter_count(ns, j)
        } else if receiver_parameter(src, ns[j]) {
            0
        } else {
            1
        };
        let e = subtree_end(ns, j);
        if e <= j || e >= stop || e >= ns.len() {
            here
        } else {
            here + params_from(lang, src, ns, e, stop)
        }
    }
}

/// The node holding a function's parameter list.
pub open spec fn params_node(ns: Seq<SyntaxNode>, i: int) -> Option<int> {
    match field_child(ns, i, NodeField::Parameters) {
        Some(c) => Some(c),
        None => match field_child(ns, i, NodeField::Signature) {
            Some(g) => field_child(ns, g, NodeField::Parameters),
            None => None,
        },
    }
}

/// The declared parameters of the function at node `i`; an arrow function
/// with a bare parameter (`y => y + 1`) declares one.
pub open spec fn parameter_count(lang: Language, src: Seq<char>, ns: Seq<SyntaxNode>, i: int) -> int {
    match params_node(ns, i) {
        None => if ns[i].kind == NodeKind::ArrowFunction && field_child(ns, i, NodeField::Parameter) is Some {
            1
        } else if ns[i].kind == NodeKind::Lambda && field_child(ns, i, NodeField::Parameters) is Some {
            1
        } else {
            0
        },
        Some(p) => params_from(lang, src, ns, p + 1, subtree_end(ns, p)),
    }
}

// -------------------------------------------------------------------- lines

/// A blank line, or a line that holds only comment: in Python one that
/// starts with `#`; elsewhere one that starts with `//` or `/*`, or any line
/// inside a block comment (`inside`), such as the ` * ...` lines of a doc
/// block. A line that starts with `*` outside a comment (`*x += 1;`) is code.
pub open spec fn comment_or_blank(lang: Language, line: Seq<char>, inside: bool) -> bool {
    let t = trim(line);
    if t.len() == 0 {
        true
    } else if lang == Language::Python {
        starts_with(t, "#"@)
    } else {
        inside || starts_with(t, "//"@) || starts_with(t, "/*"@)
    }
}

/// Whether a block comment is still open after the line: one that was open
/// stays open until a line holding `*/`; a line that starts with `/*` opens
/// one unless the rest of it closes it. Python has no block comments.
pub open spec fn block_open_after(lang: Language, line: Seq<char>, inside: bool) -> bool {
    let t = trim(line);
    if lang == Language::Python {
        false
    } else if inside {
        !contains(line, "*/"@)
    } else if starts_with(t, "/*"@) {
        !contains(t.subrange(2, t.len() as int), "*/"@)
    } else {
        false
    }
}

/// Outside a block comment, a line whose text starts with `*` (a
/// dereference, a continued product) is code, not comment.
pub proof fn lemma_star_line_outside_comment_is_code(lang: Language, line: Seq<char>)
    requires
        lang != Language::Python,
        trim(line).len() > 0,
        trim(line)[0] == '*',
    ensures
        !comment_or_blank(lang, line, false),
{
    reveal_strlit("//");
    reveal_strlit("/*");
    let t = trim(line);
    if t.len() >= 2 {
        assert(t.subrange(0, 2)[0] == t[0]);
        assert("//"@[0] == '/' && "/*"@[0] == '/');
    }
}

/// Which lines count: a blank line never does; outside a block comment, a
/// line whose text starts with neither `//` nor `/*` (nor `#` in Python)
/// does; inside a block comment, no line does (Python has none).
pub proof fn lemma_significant_line_kinds(lang: Language, line: Seq<char>, inside: bool)
    ensures
        trim(line).len() == 0 ==> comment_or_blank(lang, line, inside),
        trim(line).len() > 0 && lang != Language::Python && !inside && !starts_with(trim(line), "//"@)
            && !starts_with(trim(line), "/*"@) ==> !comment_or_blank(lang, line, inside),
        trim(line).len() > 0 && lang == Language::Python && !starts_with(trim(line), "#"@) ==> !comment_or_blank(
            lang,
            line,
            inside,
        ),
        lang != Language::Python && inside ==> comment_or_blank(lang, line, inside),
        lang != Language::Python && (starts_with(trim(line), "//"@) || starts_with(trim(line), "/*"@))
            ==> comment_or_blank(lang, line, inside),
        lang == Language::Python && starts_with(trim(line), "#"@) ==> comment_or_blank(lang, line, inside),
{
}

/// A significant line adds one to the count of a range, a comment or blank
/// line nothing.
pub proof fn lemma_significant_step(lang: Language, ls: Seq<Seq<char>>, k: int, hi: int, inside: bool)
    requires
        0 <= k < hi,
        k < ls.len(),
    ensures
        significant_from(lang, ls, k, hi, inside) == (if comment_or_blank(lang, ls[k], inside) {
            0int
        } else {
            1int
        }) + significant_from(lang, ls, k + 1, hi, block_open_after(lang, ls[k], inside)),
{
}

/// How many of `ls[k..hi]` are neither blank nor comments, with a block
/// comment open before line `k` when `inside`.
pub open spec fn significant_from(lang: Language, ls: Seq<Seq<char>>, k: int, hi: int, inside: bool) -> int
    decreases hi - k,
{
    if k >= hi || k < 0 || k >= ls.len() {
        0
    } else {
        (if comment_or_blank(lang, ls[k], inside) { 0int } else { 1int }) + significant_from(
            lang,
            ls,
            k + 1,
            hi,
            block_open_after(lang, ls[k], inside),
        )
    }
}

/// Significant lines among source rows `first..=last`.
pub open spec fn significant_lines(lang: Language, src: Seq<char>, first: int, last: int) -> int {
    significant_from(lang, lines(src), first, last + 1, false)
}

// ------------------------------------------------------------------ results

/// The metrics of the function at node `i`; `offset` is added to its rows.
pub open spec fn measure_function(
    lang: Language,
    src: Seq<char>,
    ns: Seq<SyntaxNode>,
    i: int,
    offset: int,
) -> MetricsView {
    let body = match field_child(ns, i, NodeField::Body) {
        Some(b) => b,
        None => i,
    };
    let sc = score_node(lang, src, ns, body, i, 0);
    MetricsView {
        function: function_name(lang, src, ns, i),
        line: ns[i].start_row + 1 + offset,
        end_line: ns[i].end_row + 1 + offset,
        complexity: 1 + sc.0,
        depth: sc.1,
        lines: significant_lines(lang, src, ns[i].start_row as int, ns[i].end_row as int),
        params: parameter_count(lang, src, ns, i),
        bool_ops: bool_node(lang, src, ns, body, i),
        widget_depth: nest_node(lang, ns, body, i, 0),
    }
}

/// The functions at or below node `i`, in preorder.
pub open spec fn collect_node(lang: Language, src: Seq<char>, ns: Seq<SyntaxNode>, i: int, offset: int) -> Seq<
    MetricsView,
>
    decreases ns.len() - i, 0int,
{
    if i < 0 || i >= ns.len() {
        seq![]
    } else {
        let here = if is_function(lang, ns[i].kind) {
            seq![measure_function(lang, src, ns, i, offset)]
        } else {
            seq![]
        };
        here + collect_children(lang, src, ns, i + 1, subtree_end(ns, i), offset)
    }
}

/// The functions at or below the named children from child `j` on.
pub open spec fn collect_children(
    lang: Language,
    src: Seq<char>,
    ns: Seq<SyntaxNode>,
    j: int,
    stop: int,
    offset: int,
) -> Seq<MetricsView>
    decreases ns.len() - j, 1int,
{
    if j < 0 || j >= stop || j >= ns.len() {
        seq![]
    } else {
        let here = if ns[j].named { collect_node(lang, src, ns, j, offset) } else { seq![] };
        let e = subtree_end(ns, j);
        if e <= j || e >= stop || e >= ns.len() {
            here
        } else {
            here + collect_children(lang, src, ns, e, stop, offset)
        }
    }
}

/// Every function of a tree with its metrics, ordered by start and end line.
pub open spec fn tree_metrics(lang: Language, src: Seq<char>, ns: Seq<SyntaxNode>, offset: int) -> Seq<
    MetricsView,
> {
    sort_by::<FunctionMetrics>(collect_node(lang, src, ns, 0, offset))
}

} // verus!
