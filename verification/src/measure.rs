//! Computing the metrics of `metrics` on a syntax tree.

use vstd::prelude::*;
use vstd::string::StringSliceAdditionalSpecFns;
use vstd::utf8::{decode_utf8, encode_utf8, is_char_boundary, valid_utf8};
use crate::language::{FunctionMetrics, Language, MetricsView};
use crate::syntax::{
    parsed_nodes, read_tree, ts_tree, tree_wf, Grammar, ParseError, SyntaxTree,
};
use crate::metrics::{
    collect_children, collect_node, go_parameter_count, measure_function,
    named_count_from, parameter_count, params_from, params_node, receiver_parameter, significant_from,
    significant_lines, comment_or_blank, block_open_after, tree_metrics,
    binding_name, binding_search, binding_step, direct_name, function_name, is_owner_kind, name_node,
    owner_qualified, parent_of, plain_name, qualify_method,
    end_from, field_child, field_child_from, has_operator, is_decision, is_default_arm, is_else_if, alternative_of,
    is_function, node_text, opens_depth, operator_in, score_children, score_node, is_bool_op, bool_chain,
    chain_from, bool_node, bool_children, opens_widget, nest_node, nest_children,
    subtree_end, text_ok,
    OperatorSet,
};
use crate::syntax::{NodeField, NodeKind, SyntaxNode};
use crate::text::{
    lines, range_is_str, starts_with, byte_len, chars_of, contains, contains_str, has_char, starts_with_str, str_eq, trim, trim_bounds,
    trim_start_from, trim_start,
};
use vstd::string::StrSliceExecFns;

verus! {

pub proof fn lemma_end_from(ns: Seq<SyntaxNode>, d: usize, j: int)
    requires
        0 <= j <= ns.len(),
    ensures
        j <= end_from(ns, d, j) <= ns.len(),
        forall|k: int| j <= k < end_from(ns, d, j) ==> #[trigger] ns[k].depth > d,
        end_from(ns, d, j) < ns.len() ==> ns[end_from(ns, d, j)].depth <= d,
    decreases ns.len() - j,
{
    if j < ns.len() && ns[j].depth > d {
        lemma_end_from(ns, d, j + 1);
    }
}

pub proof fn lemma_end_from_min(ns: Seq<SyntaxNode>, d: usize, j: int, k: int)
    requires
        0 <= j <= k < ns.len(),
        ns[k].depth <= d,
    ensures
        end_from(ns, d, j) <= k,
    decreases k - j,
{
    if ns[j].depth > d {
        lemma_end_from_min(ns, d, j + 1, k);
    }
}

/// A node's subtree follows it and ends inside the tree.
pub proof fn lemma_subtree_end(ns: Seq<SyntaxNode>, i: int)
    requires
        0 <= i < ns.len(),
    ensures
        i < subtree_end(ns, i) <= ns.len(),
{
    lemma_end_from(ns, ns[i].depth, i + 1);
}

/// Subtrees nest: a descendant's subtree ends within its ancestor's.
pub proof fn lemma_nested(ns: Seq<SyntaxNode>, i: int, j: int)
    requires
        0 <= i < j < subtree_end(ns, i),
    ensures
        subtree_end(ns, j) <= subtree_end(ns, i),
{
    lemma_end_from(ns, ns[i].depth, i + 1);
    let e = subtree_end(ns, i);
    assert(ns[j].depth > ns[i].depth);
    if e < ns.len() {
        lemma_end_from_min(ns, ns[j].depth, j + 1, e);
    } else {
        lemma_end_from(ns, ns[j].depth, j + 1);
    }
}

/// `subtree_end`.
pub fn subtree_end_exec(ns: &Vec<SyntaxNode>, i: usize) -> (r: usize)
    requires
        i < ns@.len(),
    ensures
        r as int == subtree_end(ns@, i as int),
        i < r <= ns@.len(),
{
    let d = ns[i].depth;
    let _n = ns.len();
    let mut j = i + 1;
    while j < ns.len() && ns[j].depth > d
        invariant
            i < j <= ns@.len(),
            d == ns@[i as int].depth,
            end_from(ns@, d, j as int) == subtree_end(ns@, i as int),
        decreases ns@.len() - j,
    {
        j = j + 1;
    }
    j
}

/// `field_child`: the first child of node `i` in field `f`.
pub fn field_child_exec(ns: &Vec<SyntaxNode>, i: usize, f: NodeField) -> (r: Option<usize>)
    requires
        i < ns@.len(),
    ensures
        match r {
            Some(c) => field_child(ns@, i as int, f) == Some(c as int) && i < c < ns@.len(),
            None => field_child(ns@, i as int, f) is None,
        },
{
    let stop = subtree_end_exec(ns, i);
    let mut j = i + 1;
    while j < stop && j < ns.len()
        invariant
            i < j,
            stop <= ns@.len(),
            stop as int == subtree_end(ns@, i as int),
            field_child_from(ns@, j as int, stop as int, f) == field_child(ns@, i as int, f),
        decreases ns@.len() - j,
    {
        if ns[j].field == Some(f) {
            return Some(j);
        }
        let e = subtree_end_exec(ns, j);
        if e >= stop || e >= ns.len() {
            return None;
        }
        j = e;
    }
    None
}

/// `is_char_boundary` carries over to the part of a valid text after a
/// boundary.
proof fn lemma_boundary_in_rest(b: Seq<u8>, s: int, e: int)
    requires
        valid_utf8(b),
        0 <= s <= e <= b.len(),
        is_char_boundary(b, s),
        is_char_boundary(b, e),
    ensures
        valid_utf8(b.subrange(s, b.len() as int)),
        is_char_boundary(b.subrange(s, b.len() as int), e - s),
{
    vstd::utf8::valid_utf8_split(b, s);
    let rest = b.subrange(s, b.len() as int);
    vstd::utf8::is_char_boundary_start_end_of_seq(rest);
    if e < b.len() && e > s {
        vstd::utf8::is_char_boundary_iff_not_is_continuation_byte(b, e);
        vstd::utf8::is_char_boundary_iff_not_is_continuation_byte(rest, e - s);
        assert(rest[e - s] == b[e]);
    } else if e == b.len() {
        assert(rest.len() == e - s);
    }
}

/// The text of a node (`Node::utf8_text`), when its range lies on character
/// boundaries.
pub fn text_of<'a>(source: &'a str, n: &SyntaxNode) -> (r: Option<&'a str>)
    ensures
        r is Some == text_ok(source@, *n),
        r matches Some(t) ==> t@ == node_text(source@, *n),
{
    let len = byte_len(source);
    proof {
        vstd::utf8::encode_utf8_valid_utf8(source@);
    }
    if n.start_byte <= n.end_byte && n.end_byte <= len && source.is_char_boundary(n.start_byte)
        && source.is_char_boundary(n.end_byte) {
        let ghost b = source.spec_bytes();
        proof {
            lemma_boundary_in_rest(b, n.start_byte as int, n.end_byte as int);
        }
        let (_, rest) = source.split_at(n.start_byte);
        assert(rest.spec_bytes() =~= b.subrange(n.start_byte as int, b.len() as int));
        let (mid, _) = rest.split_at(n.end_byte - n.start_byte);
        assert(mid.spec_bytes() =~= b.subrange(n.start_byte as int, n.end_byte as int));
        proof {
            vstd::utf8::encode_utf8_decode_utf8(mid@);
        }
        Some(mid)
    } else {
        None
    }
}

/// The characters of a node's text (none where the text cannot be had).
pub fn node_chars(source: &str, n: &SyntaxNode) -> (r: Vec<char>)
    ensures
        r@ == node_text(source@, *n),
{
    match text_of(source, n) {
        Some(t) => chars_of(t),
        None => Vec::new(),
    }
}

fn operator_in_exec(set: OperatorSet, t: &str) -> (r: bool)
    ensures
        r == operator_in(set, t@),
{
    match set {
        OperatorSet::Logical => str_eq(t, "&&") || str_eq(t, "||") || str_eq(t, "??") || str_eq(t, "&&=")
            || str_eq(t, "||=") || str_eq(t, "??="),
        OperatorSet::NullAssign => str_eq(t, "??="),
        OperatorSet::AndOr => str_eq(t, "&&") || str_eq(t, "||"),
        OperatorSet::Words => str_eq(t, "and") || str_eq(t, "or"),
    }
}

fn has_operator_exec(source: &str, ns: &Vec<SyntaxNode>, i: usize, set: OperatorSet) -> (r: bool)
    requires
        i < ns@.len(),
    ensures
        r == has_operator(source@, ns@, i as int, set),
{
    match field_child_exec(ns, i, NodeField::Operator) {
        Some(c) => match text_of(source, &ns[c]) {
            Some(t) => operator_in_exec(set, t),
            None => false,
        },
        None => false,
    }
}

fn is_default_arm_exec(source: &str, n: &SyntaxNode) -> (r: bool)
    ensures
        r == is_default_arm(source@, *n),
{
    let text = node_chars(source, n);
    let len = text.len();
    let a = trim_start_from(&text, 0, len);
    assert(text@.subrange(0, len as int) =~= text@);
    starts_with_str(&text, a, len, "_") || starts_with_str(&text, a, len, "case _") || starts_with_str(
        &text,
        a,
        len,
        "default",
    )
}

fn mentions_else(source: &str, n: &SyntaxNode) -> (r: bool)
    ensures
        r == contains(node_text(source@, *n), " else "@),
{
    let text = node_chars(source, n);
    let len = text.len();
    assert(text@.subrange(0, len as int) =~= text@);
    contains_str(&text, 0, len, " else ")
}

/// `is_function`.
pub fn is_function_exec(lang: Language, k: NodeKind) -> (r: bool)
    ensures
        r == is_function(lang, k),
{
    match lang {
        Language::JavaScript | Language::TypeScript | Language::Tsx => k == NodeKind::FunctionDeclaration
            || k == NodeKind::FunctionExpression || k == NodeKind::ArrowFunction || k
            == NodeKind::MethodDefinition || k == NodeKind::GeneratorFunction || k
            == NodeKind::GeneratorFunctionDeclaration,
        Language::Dart => k == NodeKind::FunctionDeclaration || k == NodeKind::LocalFunctionDeclaration
            || k == NodeKind::FunctionExpression || k == NodeKind::MethodDeclaration,
        Language::Rust => k == NodeKind::FunctionItem || k == NodeKind::ClosureExpression,
        Language::Python => k == NodeKind::FunctionDefinition || k == NodeKind::Lambda,
        Language::Go => k == NodeKind::FunctionDeclaration || k == NodeKind::MethodDeclaration || k
            == NodeKind::FuncLiteral,
        Language::Svelte => false,
    }
}

fn opens_depth_exec(lang: Language, k: NodeKind) -> (r: bool)
    ensures
        r == opens_depth(lang, k),
{
    match lang {
        Language::JavaScript | Language::TypeScript | Language::Tsx => k == NodeKind::IfStatement || k
            == NodeKind::ForStatement || k == NodeKind::ForInStatement || k == NodeKind::WhileStatement
            || k == NodeKind::DoStatement || k == NodeKind::SwitchStatement || k == NodeKind::TryStatement
            || k == NodeKind::CatchClause,
        Language::Dart => k == NodeKind::IfStatement || k == NodeKind::ForStatement || k
            == NodeKind::WhileStatement || k == NodeKind::DoStatement || k == NodeKind::SwitchStatement
            || k == NodeKind::SwitchExpression || k == NodeKind::TryStatement || k == NodeKind::CatchClause,
        Language::Rust => k == NodeKind::IfExpression || k == NodeKind::ForExpression || k
            == NodeKind::WhileExpression || k == NodeKind::LoopExpression || k == NodeKind::MatchExpression,
        Language::Python => k == NodeKind::IfStatement || k == NodeKind::ForStatement || k
            == NodeKind::WhileStatement || k == NodeKind::MatchStatement || k == NodeKind::TryStatement
            || k == NodeKind::ExceptClause || k == NodeKind::WithStatement,
        Language::Go => k == NodeKind::IfStatement || k == NodeKind::ForStatement || k
            == NodeKind::ExpressionSwitchStatement || k == NodeKind::TypeSwitchStatement || k
            == NodeKind::SelectStatement,
        Language::Svelte => false,
    }
}

fn alternative_of_exec(ns: &Vec<SyntaxNode>, p: usize, c: usize) -> (r: bool)
    ensures
        r == alternative_of(ns@, p as int, c as int),
{
    if p >= ns.len() || !(ns[p].kind == NodeKind::IfStatement || ns[p].kind == NodeKind::IfExpression) {
        return false;
    }
    match field_child_exec(ns, p, NodeField::Alternative) {
        Some(x) => x == c,
        None => false,
    }
}

fn is_else_if_exec(lang: Language, ns: &Vec<SyntaxNode>, i: usize) -> (r: bool)
    requires
        i < ns@.len(),
    ensures
        r == is_else_if(lang, ns@, i as int),
{
    if lang == Language::Python || lang == Language::Svelte {
        return false;
    }
    if !(ns[i].kind == NodeKind::IfStatement || ns[i].kind == NodeKind::IfExpression) {
        return false;
    }
    match ns[i].parent {
        Some(p) => {
            if alternative_of_exec(ns, p, i) {
                return true;
            }
            if p >= ns.len() || ns[p].kind != NodeKind::ElseClause {
                return false;
            }
            match ns[p].parent {
                Some(q) => alternative_of_exec(ns, q, p),
                None => false,
            }
        },
        None => false,
    }
}

fn is_decision_exec(lang: Language, source: &str, ns: &Vec<SyntaxNode>, i: usize) -> (r: bool)
    requires
        i < ns@.len(),
    ensures
        r == is_decision(lang, source@, ns@, i as int),
{
    let k = ns[i].kind;
    match lang {
        Language::JavaScript | Language::TypeScript | Language::Tsx => {
            if k == NodeKind::IfStatement || k == NodeKind::ForStatement || k == NodeKind::ForInStatement
                || k == NodeKind::WhileStatement || k == NodeKind::DoStatement || k == NodeKind::SwitchCase
                || k == NodeKind::CatchClause || k == NodeKind::TernaryExpression {
                true
            } else if k == NodeKind::BinaryExpression || k == NodeKind::AugmentedAssignmentExpression {
                has_operator_exec(source, ns, i, OperatorSet::Logical)
            } else {
                false
            }
        },
        Language::Dart => {
            if k == NodeKind::IfStatement || k == NodeKind::IfElement || k == NodeKind::ForStatement || k
                == NodeKind::ForElement || k == NodeKind::WhileStatement || k
                == NodeKind::SwitchStatementCase || k == NodeKind::SwitchExpressionCase || k
                == NodeKind::CatchClause || k == NodeKind::ConditionalExpression || k
                == NodeKind::LogicalAndExpression || k == NodeKind::LogicalOrExpression || k
                == NodeKind::IfNullExpression {
                true
            } else if k == NodeKind::AssignmentExpression {
                has_operator_exec(source, ns, i, OperatorSet::NullAssign)
            } else {
                false
            }
        },
        Language::Rust => {
            if k == NodeKind::IfExpression || k == NodeKind::ForExpression || k == NodeKind::WhileExpression
                || k == NodeKind::LoopExpression {
                true
            } else if k == NodeKind::MatchArm {
                !is_default_arm_exec(source, &ns[i])
            } else if k == NodeKind::LetDeclaration {
                mentions_else(source, &ns[i])
            } else if k == NodeKind::BinaryExpression {
                has_operator_exec(source, ns, i, OperatorSet::AndOr)
            } else {
                false
            }
        },
        Language::Python => {
            if k == NodeKind::IfStatement || k == NodeKind::ElifClause || k == NodeKind::ForStatement || k
                == NodeKind::WhileStatement || k == NodeKind::ExceptClause || k
                == NodeKind::ConditionalExpression || k == NodeKind::ForInClause || k == NodeKind::IfClause {
                true
            } else if k == NodeKind::CaseClause {
                !is_default_arm_exec(source, &ns[i])
            } else if k == NodeKind::BooleanOperator {
                has_operator_exec(source, ns, i, OperatorSet::Words)
            } else {
                false
            }
        },
        Language::Go => {
            if k == NodeKind::IfStatement || k == NodeKind::ForStatement || k == NodeKind::ExpressionCase
                || k == NodeKind::TypeCase || k == NodeKind::CommunicationCase {
                true
            } else if k == NodeKind::BinaryExpression {
                has_operator_exec(source, ns, i, OperatorSet::AndOr)
            } else {
                false
            }
        },
        Language::Svelte => false,
    }
}

pub proof fn lemma_score_bounds(
    lang: Language,
    src: Seq<char>,
    ns: Seq<SyntaxNode>,
    i: int,
    root: int,
    depth: int,
)
    requires
        0 <= i < ns.len(),
        0 <= depth,
    ensures
        0 <= score_node(lang, src, ns, i, root, depth).0 <= subtree_end(ns, i) - i,
        0 <= score_node(lang, src, ns, i, root, depth).1 <= depth + subtree_end(ns, i) - i,
    decreases ns.len() - i, 0int,
{
    lemma_subtree_end(ns, i);
    if !(i != root && is_function(lang, ns[i].kind)) {
        let next = depth + if opens_depth(lang, ns[i].kind) && !is_else_if(lang, ns, i) { 1int } else { 0 };
        lemma_children_bounds(lang, src, ns, i + 1, subtree_end(ns, i), root, next, i);
    }
}

pub proof fn lemma_children_bounds(
    lang: Language,
    src: Seq<char>,
    ns: Seq<SyntaxNode>,
    j: int,
    stop: int,
    root: int,
    depth: int,
    parent: int,
)
    requires
        0 <= parent < j <= stop,
        parent < ns.len(),
        stop == subtree_end(ns, parent),
        0 <= depth,
    ensures
        0 <= score_children(lang, src, ns, j, stop, root, depth).0 <= stop - j,
        0 <= score_children(lang, src, ns, j, stop, root, depth).1 <= depth + stop - j,
    decreases ns.len() - j, 1int,
{
    lemma_subtree_end(ns, parent);
    if j < stop && j < ns.len() {
        lemma_subtree_end(ns, j);
        lemma_nested(ns, parent, j);
        if ns[j].named {
            lemma_score_bounds(lang, src, ns, j, root, depth);
        }
        let e = subtree_end(ns, j);
        if !(e <= j || e >= stop || e >= ns.len()) {
            lemma_children_bounds(lang, src, ns, e, stop, root, depth, parent);
        }
    }
}

/// `score_node`: decision points and deepest nesting under node `i`.
pub fn score_exec(
    lang: Language,
    source: &str,
    ns: &Vec<SyntaxNode>,
    i: usize,
    root: usize,
    depth: usize,
) -> (r: (usize, usize))
    requires
        i < ns@.len() < usize::MAX,
        depth <= i,
    ensures
        r.0 as int == score_node(lang, source@, ns@, i as int, root as int, depth as int).0,
        r.1 as int == score_node(lang, source@, ns@, i as int, root as int, depth as int).1,
    decreases ns@.len() - i,
{
    if i != root && is_function_exec(lang, ns[i].kind) {
        return (0, 0);
    }
    let here: usize = if is_decision_exec(lang, source, ns, i) { 1 } else { 0 };
    let opens = opens_depth_exec(lang, ns[i].kind) && !is_else_if_exec(lang, ns, i);
    let next: usize = if opens { depth + 1 } else { depth };
    let stop = subtree_end_exec(ns, i);
    let ghost total = score_children(lang, source@, ns@, i + 1, stop as int, root as int, next as int);
    proof {
        lemma_subtree_end(ns@, i as int);
        lemma_children_bounds(lang, source@, ns@, i + 1, stop as int, root as int, next as int, i as int);
    }
    let mut sum: usize = 0;
    let mut deep: usize = 0;
    let mut c = i + 1;
    loop
        invariant_except_break
            i < c <= stop,
            total.0 == sum + score_children(lang, source@, ns@, c as int, stop as int, root as int, next as int).0,
            total.1 == (if deep >= score_children(lang, source@, ns@, c as int, stop as int, root as int, next as int).1 {
                deep as int
            } else {
                score_children(lang, source@, ns@, c as int, stop as int, root as int, next as int).1
            }),
        invariant
            i < ns@.len() < usize::MAX,
            stop as int == subtree_end(ns@, i as int),
            stop <= ns@.len(),
            next <= i + 1,
            total == score_children(lang, source@, ns@, i + 1, stop as int, root as int, next as int),
            0 <= total.0 <= stop - (i + 1),
            0 <= total.1 <= next + stop - (i + 1),
            0 <= deep,
        ensures
            total.0 == sum,
            total.1 == deep,
        decreases ns@.len() - c,
    {
        let ghost before = score_children(lang, source@, ns@, c as int, stop as int, root as int, next as int);
        if c >= stop || c >= ns.len() {
            break;
        }
        proof {
            lemma_subtree_end(ns@, c as int);
            lemma_nested(ns@, i as int, c as int);
            if ns@[c as int].named {
                lemma_score_bounds(lang, source@, ns@, c as int, root as int, next as int);
            }
        }
        let (a, b) = if ns[c].named {
            score_exec(lang, source, ns, c, root, next)
        } else {
            (0, 0)
        };
        let e = subtree_end_exec(ns, c);
        proof {
            if !(e >= stop || e >= ns@.len()) {
                lemma_children_bounds(lang, source@, ns@, e as int, stop as int, root as int, next as int, i as int);
            }
        }
        sum = sum + a;
        if b > deep {
            deep = b;
        }
        if e >= stop || e >= ns.len() {
            break;
        }
        c = e;
    }
    let d = if next >= deep { next } else { deep };
    (here + sum, d)
}

fn is_bool_op_exec(lang: Language, source: &str, ns: &Vec<SyntaxNode>, i: usize) -> (r: bool)
    requires
        i < ns@.len(),
    ensures
        r == is_bool_op(lang, source@, ns@, i as int),
{
    let k = ns[i].kind;
    match lang {
        Language::JavaScript | Language::TypeScript | Language::Tsx => k == NodeKind::BinaryExpression
            && has_operator_exec(source, ns, i, OperatorSet::Logical),
        Language::Dart => k == NodeKind::LogicalAndExpression || k == NodeKind::LogicalOrExpression || k
            == NodeKind::IfNullExpression,
        Language::Rust | Language::Go => k == NodeKind::BinaryExpression && has_operator_exec(
            source,
            ns,
            i,
            OperatorSet::AndOr,
        ),
        Language::Python => k == NodeKind::BooleanOperator && has_operator_exec(source, ns, i, OperatorSet::Words),
        Language::Svelte => false,
    }
}

proof fn lemma_chain_bounds(lang: Language, src: Seq<char>, ns: Seq<SyntaxNode>, i: int)
    requires
        0 <= i < ns.len(),
    ensures
        0 <= bool_chain(lang, src, ns, i) <= subtree_end(ns, i) - i,
    decreases ns.len() - i, 0int,
{
    lemma_subtree_end(ns, i);
    lemma_chain_from_bounds(lang, src, ns, i + 1, subtree_end(ns, i), i);
}

proof fn lemma_chain_from_bounds(lang: Language, src: Seq<char>, ns: Seq<SyntaxNode>, j: int, stop: int, parent: int)
    requires
        0 <= parent < j <= stop,
        parent < ns.len(),
        stop == subtree_end(ns, parent),
    ensures
        0 <= chain_from(lang, src, ns, j, stop) <= stop - j,
    decreases ns.len() - j, 1int,
{
    lemma_subtree_end(ns, parent);
    if j < stop && j < ns.len() {
        lemma_subtree_end(ns, j);
        lemma_nested(ns, parent, j);
        if ns[j].named && is_bool_op(lang, src, ns, j) {
            lemma_chain_bounds(lang, src, ns, j);
        }
        let e = subtree_end(ns, j);
        if !(e <= j || e >= stop || e >= ns.len()) {
            lemma_chain_from_bounds(lang, src, ns, e, stop, parent);
        }
    }
}

/// `bool_chain`.
fn bool_chain_exec(lang: Language, source: &str, ns: &Vec<SyntaxNode>, i: usize) -> (r: usize)
    requires
        i < ns@.len() < usize::MAX,
    ensures
        r as int == bool_chain(lang, source@, ns@, i as int),
    decreases ns@.len() - i,
{
    let stop = subtree_end_exec(ns, i);
    let ghost total = chain_from(lang, source@, ns@, i + 1, stop as int);
    proof {
        lemma_subtree_end(ns@, i as int);
        lemma_chain_from_bounds(lang, source@, ns@, i + 1, stop as int, i as int);
    }
    let mut sum: usize = 0;
    let mut c = i + 1;
    loop
        invariant_except_break
            i < c <= stop,
            total == sum + chain_from(lang, source@, ns@, c as int, stop as int),
        invariant
            i < ns@.len() < usize::MAX,
            stop as int == subtree_end(ns@, i as int),
            stop <= ns@.len(),
            total == chain_from(lang, source@, ns@, i + 1, stop as int),
            0 <= total <= stop - (i + 1),
        ensures
            total == sum,
        decreases ns@.len() - c,
    {
        if c >= stop || c >= ns.len() {
            break;
        }
        proof {
            lemma_subtree_end(ns@, c as int);
            lemma_nested(ns@, i as int, c as int);
            if ns@[c as int].named && is_bool_op(lang, source@, ns@, c as int) {
                lemma_chain_bounds(lang, source@, ns@, c as int);
            }
        }
        let here: usize = if !ns[c].named {
            1
        } else if is_bool_op_exec(lang, source, ns, c) {
            bool_chain_exec(lang, source, ns, c)
        } else {
            0
        };
        let e = subtree_end_exec(ns, c);
        proof {
            if !(e >= stop || e >= ns@.len()) {
                lemma_chain_from_bounds(lang, source@, ns@, e as int, stop as int, i as int);
            }
        }
        sum = sum + here;
        if e >= stop || e >= ns.len() {
            break;
        }
        c = e;
    }
    sum
}

proof fn lemma_bool_bounds(lang: Language, src: Seq<char>, ns: Seq<SyntaxNode>, i: int, root: int)
    requires
        0 <= i < ns.len(),
    ensures
        0 <= bool_node(lang, src, ns, i, root) <= subtree_end(ns, i) - i,
    decreases ns.len() - i, 0int,
{
    lemma_subtree_end(ns, i);
    if !(i != root && is_function(lang, ns[i].kind)) {
        if is_bool_op(lang, src, ns, i) {
            lemma_chain_bounds(lang, src, ns, i);
        }
        lemma_bool_children_bounds(lang, src, ns, i + 1, subtree_end(ns, i), root, i);
    }
}

proof fn lemma_bool_children_bounds(
    lang: Language,
    src: Seq<char>,
    ns: Seq<SyntaxNode>,
    j: int,
    stop: int,
    root: int,
    parent: int,
)
    requires
        0 <= parent < j <= stop,
        parent < ns.len(),
        stop == subtree_end(ns, parent),
    ensures
        0 <= bool_children(lang, src, ns, j, stop, root) <= stop - j,
    decreases ns.len() - j, 1int,
{
    lemma_subtree_end(ns, parent);
    if j < stop && j < ns.len() {
        lemma_subtree_end(ns, j);
        lemma_nested(ns, parent, j);
        if ns[j].named {
            lemma_bool_bounds(lang, src, ns, j, root);
        }
        let e = subtree_end(ns, j);
        if !(e <= j || e >= stop || e >= ns.len()) {
            lemma_bool_children_bounds(lang, src, ns, e, stop, root, parent);
        }
    }
}

/// `bool_node`: the most boolean operators in one expression under node `i`.
fn bool_exec(lang: Language, source: &str, ns: &Vec<SyntaxNode>, i: usize, root: usize) -> (r: usize)
    requires
        i < ns@.len() < usize::MAX,
    ensures
        r as int == bool_node(lang, source@, ns@, i as int, root as int),
    decreases ns@.len() - i,
{
    if i != root && is_function_exec(lang, ns[i].kind) {
        return 0;
    }
    proof {
        lemma_subtree_end(ns@, i as int);
        if is_bool_op(lang, source@, ns@, i as int) {
            lemma_chain_bounds(lang, source@, ns@, i as int);
        }
    }
    let here: usize = if is_bool_op_exec(lang, source, ns, i) {
        bool_chain_exec(lang, source, ns, i)
    } else {
        0
    };
    let stop = subtree_end_exec(ns, i);
    let ghost total = bool_children(lang, source@, ns@, i + 1, stop as int, root as int);
    proof {
        lemma_bool_children_bounds(lang, source@, ns@, i + 1, stop as int, root as int, i as int);
    }
    let mut best: usize = 0;
    let mut c = i + 1;
    loop
        invariant_except_break
            i < c <= stop,
            total == (if best >= bool_children(lang, source@, ns@, c as int, stop as int, root as int) {
                best as int
            } else {
                bool_children(lang, source@, ns@, c as int, stop as int, root as int)
            }),
        invariant
            i < ns@.len() < usize::MAX,
            stop as int == subtree_end(ns@, i as int),
            stop <= ns@.len(),
            total == bool_children(lang, source@, ns@, i + 1, stop as int, root as int),
            0 <= best,
        ensures
            total == best,
        decreases ns@.len() - c,
    {
        if c >= stop || c >= ns.len() {
            break;
        }
        proof {
            lemma_subtree_end(ns@, c as int);
            lemma_nested(ns@, i as int, c as int);
            if ns@[c as int].named {
                lemma_bool_bounds(lang, source@, ns@, c as int, root as int);
            }
        }
        let b = if ns[c].named {
            bool_exec(lang, source, ns, c, root)
        } else {
            0
        };
        let e = subtree_end_exec(ns, c);
        proof {
            if !(e >= stop || e >= ns@.len()) {
                lemma_bool_children_bounds(lang, source@, ns@, e as int, stop as int, root as int, i as int);
            }
        }
        if b > best {
            best = b;
        }
        if e >= stop || e >= ns.len() {
            break;
        }
        c = e;
    }
    if here >= best {
        here
    } else {
        best
    }
}

proof fn lemma_nest_bounds(lang: Language, ns: Seq<SyntaxNode>, i: int, root: int, level: int)
    requires
        0 <= i < ns.len(),
        0 <= level,
    ensures
        0 <= nest_node(lang, ns, i, root, level) <= level + subtree_end(ns, i) - i,
    decreases ns.len() - i, 0int,
{
    lemma_subtree_end(ns, i);
    if !(i != root && is_function(lang, ns[i].kind)) {
        let next = level + if opens_widget(lang, ns[i].kind) { 1int } else { 0 };
        lemma_nest_children_bounds(lang, ns, i + 1, subtree_end(ns, i), root, next, i);
    }
}

proof fn lemma_nest_children_bounds(
    lang: Language,
    ns: Seq<SyntaxNode>,
    j: int,
    stop: int,
    root: int,
    level: int,
    parent: int,
)
    requires
        0 <= parent < j <= stop,
        parent < ns.len(),
        stop == subtree_end(ns, parent),
        0 <= level,
    ensures
        0 <= nest_children(lang, ns, j, stop, root, level) <= level + stop - j,
    decreases ns.len() - j, 1int,
{
    lemma_subtree_end(ns, parent);
    if j < stop && j < ns.len() {
        lemma_subtree_end(ns, j);
        lemma_nested(ns, parent, j);
        if ns[j].named {
            lemma_nest_bounds(lang, ns, j, root, level);
        }
        let e = subtree_end(ns, j);
        if !(e <= j || e >= stop || e >= ns.len()) {
            lemma_nest_children_bounds(lang, ns, e, stop, root, level, parent);
        }
    }
}

/// `nest_node`: the deepest nesting of Dart argument lists under node `i`.
fn nest_exec(lang: Language, ns: &Vec<SyntaxNode>, i: usize, root: usize, level: usize) -> (r: usize)
    requires
        i < ns@.len() < usize::MAX,
        level <= i,
    ensures
        r as int == nest_node(lang, ns@, i as int, root as int, level as int),
    decreases ns@.len() - i,
{
    if i != root && is_function_exec(lang, ns[i].kind) {
        return 0;
    }
    let next: usize = if lang == Language::Dart && ns[i].kind == NodeKind::Arguments {
        level + 1
    } else {
        level
    };
    let stop = subtree_end_exec(ns, i);
    let ghost total = nest_children(lang, ns@, i + 1, stop as int, root as int, next as int);
    proof {
        lemma_subtree_end(ns@, i as int);
        lemma_nest_children_bounds(lang, ns@, i + 1, stop as int, root as int, next as int, i as int);
    }
    let mut best: usize = 0;
    let mut c = i + 1;
    loop
        invariant_except_break
            i < c <= stop,
            total == (if best >= nest_children(lang, ns@, c as int, stop as int, root as int, next as int) {
                best as int
            } else {
                nest_children(lang, ns@, c as int, stop as int, root as int, next as int)
            }),
        invariant
            i < ns@.len() < usize::MAX,
            stop as int == subtree_end(ns@, i as int),
            stop <= ns@.len(),
            next <= i + 1,
            total == nest_children(lang, ns@, i + 1, stop as int, root as int, next as int),
            0 <= best,
        ensures
            total == best,
        decreases ns@.len() - c,
    {
        if c >= stop || c >= ns.len() {
            break;
        }
        proof {
            lemma_subtree_end(ns@, c as int);
            lemma_nested(ns@, i as int, c as int);
            if ns@[c as int].named {
                lemma_nest_bounds(lang, ns@, c as int, root as int, next as int);
            }
        }
        let b = if ns[c].named {
            nest_exec(lang, ns, c, root, next)
        } else {
            0
        };
        let e = subtree_end_exec(ns, c);
        proof {
            if !(e >= stop || e >= ns@.len()) {
                lemma_nest_children_bounds(lang, ns@, e as int, stop as int, root as int, next as int, i as int);
            }
        }
        if b > best {
            best = b;
        }
        if e >= stop || e >= ns.len() {
            break;
        }
        c = e;
    }
    if next >= best {
        next
    } else {
        best
    }
}

/// `parent_of` as an option.
pub open spec fn opt_index(o: Option<usize>) -> int {
    match o {
        Some(p) => p as int,
        None => -1,
    }
}

fn parent_exec(ns: &Vec<SyntaxNode>, q: usize) -> (r: Option<usize>)
    requires
        q < ns@.len(),
    ensures
        opt_index(r) == parent_of(ns@, q as int),
        r matches Some(p) ==> p < q,
{
    match ns[q].parent {
        Some(p) => if p < q {
            Some(p)
        } else {
            None
        },
        None => None,
    }
}

fn name_node_exec(ns: &Vec<SyntaxNode>, i: usize) -> (r: Option<usize>)
    requires
        i < ns@.len(),
    ensures
        match r {
            Some(c) => name_node(ns@, i as int) == Some(c as int) && c < ns@.len(),
            None => name_node(ns@, i as int) is None,
        },
{
    match field_child_exec(ns, i, NodeField::Name) {
        Some(c) => Some(c),
        None => match field_child_exec(ns, i, NodeField::Signature) {
            Some(g) => field_child_exec(ns, g, NodeField::Name),
            None => None,
        },
    }
}

fn direct_name_exec<'a>(source: &'a str, ns: &Vec<SyntaxNode>, i: usize) -> (r: Option<&'a str>)
    requires
        i < ns@.len(),
    ensures
        match r {
            Some(t) => direct_name(source@, ns@, i as int) == Some(t@),
            None => direct_name(source@, ns@, i as int) is None,
        },
{
    match name_node_exec(ns, i) {
        Some(c) => text_of(source, &ns[c]),
        None => None,
    }
}

fn is_owner_kind_exec(lang: Language, k: NodeKind) -> (r: bool)
    ensures
        r == is_owner_kind(lang, k),
{
    match lang {
        Language::JavaScript | Language::TypeScript | Language::Tsx => k == NodeKind::ClassDeclaration
            || k == NodeKind::Class,
        Language::Dart => k == NodeKind::ClassDefinition || k == NodeKind::ExtensionDeclaration,
        _ => false,
    }
}

fn qualify_method_exec(lang: Language, source: &str, ns: &Vec<SyntaxNode>, i: usize, name: &str) -> (r: String)
    requires
        i < ns@.len(),
    ensures
        r@ == qualify_method(lang, source@, ns@, i as int, name@),
{
    let k = ns[i].kind;
    if !(k == NodeKind::MethodDefinition || k == NodeKind::MethodDeclaration) {
        return name.to_owned();
    }
    if !(lang == Language::JavaScript || lang == Language::TypeScript || lang == Language::Tsx || lang
        == Language::Dart) {
        return name.to_owned();
    }
    let mut q = parent_exec(ns, i);
    loop
        invariant
            owner_qualified(lang, source@, ns@, opt_index(q), name@) == qualify_method(
                lang,
                source@,
                ns@,
                i as int,
                name@,
            ),
            q matches Some(p) ==> p < ns@.len(),
        decreases opt_index(q) + 1,
    {
        match q {
            None => {
                return name.to_owned();
            },
            Some(p) => {
                if is_owner_kind_exec(lang, ns[p].kind) {
                    if let Some(owner) = direct_name_exec(source, ns, p) {
                        let mut out = owner.to_owned();
                        proof {
                            reveal_strlit(".");
                        }
                        out.append(".");
                        out.append(name);
                        return out;
                    }
                }
                q = parent_exec(ns, p);
            },
        }
    }
}

fn binding_step_exec(source: &str, ns: &Vec<SyntaxNode>, q: usize, f: NodeField) -> (r: Option<
    Option<String>,
>)
    requires
        q < ns@.len(),
    ensures
        match r {
            None => binding_step(source@, ns@, q as int, f) is None,
            Some(None) => binding_step(source@, ns@, q as int, f) == Some(None::<Seq<char>>),
            Some(Some(t)) => binding_step(source@, ns@, q as int, f) == Some(Some(t@)),
        },
{
    let c = match field_child_exec(ns, q, f) {
        Some(c) => c,
        None => return None,
    };
    let t = match text_of(source, &ns[c]) {
        Some(t) => t,
        None => return Some(None),
    };
    let v = chars_of(t);
    let len = v.len();
    let (a, b) = trim_bounds(&v, 0, len);
    assert(v@.subrange(0, len as int) =~= v@);
    if b > a && !has_char(&v, a, b, ' ') && !has_char(&v, a, b, '\n') {
        let name = t.substring_char(a, b);
        Some(Some(name.to_owned()))
    } else {
        None
    }
}

fn binding_name_exec(source: &str, ns: &Vec<SyntaxNode>, q: usize) -> (r: Option<String>)
    requires
        q < ns@.len(),
    ensures
        match r {
            Some(t) => binding_name(source@, ns@, q as int) == Some(t@),
            None => binding_name(source@, ns@, q as int) is None,
        },
{
    match binding_step_exec(source, ns, q, NodeField::Name) {
        Some(r) => r,
        None => match binding_step_exec(source, ns, q, NodeField::Left) {
            Some(r) => r,
            None => match binding_step_exec(source, ns, q, NodeField::Key) {
                Some(r) => r,
                None => None,
            },
        },
    }
}

/// `function_name`: the reported name of the function at node `i`.
pub fn function_name_exec(lang: Language, source: &str, ns: &Vec<SyntaxNode>, i: usize) -> (r: String)
    requires
        i < ns@.len(),
    ensures
        r@ == function_name(lang, source@, ns@, i as int),
{
    if let Some(name) = direct_name_exec(source, ns, i) {
        return qualify_method_exec(lang, source, ns, i, name);
    }
    let mut q = parent_exec(ns, i);
    loop
        invariant
            binding_search(lang, source@, ns@, opt_index(q)) == function_name(lang, source@, ns@, i as int),
            q matches Some(p) ==> p < ns@.len(),
        decreases opt_index(q) + 1,
    {
        match q {
            None => {
                return "<anonymous>".to_owned();
            },
            Some(p) => {
                if let Some(name) = binding_name_exec(source, ns, p) {
                    return name;
                }
                if is_function_exec(lang, ns[p].kind) {
                    return "<anonymous>".to_owned();
                }
                q = parent_exec(ns, p);
            },
        }
    }
}

// --------------------------------------------------------------- parameters

proof fn lemma_named_count_bound(ns: Seq<SyntaxNode>, j: int, stop: int)
    requires
        0 <= j <= stop,
    ensures
        0 <= named_count_from(ns, j, stop) <= stop - j,
    decreases ns.len() - j,
{
    if j < stop && j < ns.len() {
        let e = subtree_end(ns, j);
        if !(e <= j || e >= stop || e >= ns.len()) {
            lemma_named_count_bound(ns, e, stop);
        }
    }
}

proof fn lemma_params_bound(lang: Language, src: Seq<char>, ns: Seq<SyntaxNode>, j: int, stop: int, parent: int)
    requires
        0 <= parent < j <= stop,
        parent < ns.len(),
        stop == subtree_end(ns, parent),
    ensures
        0 <= params_from(lang, src, ns, j, stop) <= stop - j,
    decreases ns.len() - j,
{
    lemma_subtree_end(ns, parent);
    if j < stop && j < ns.len() {
        lemma_subtree_end(ns, j);
        lemma_nested(ns, parent, j);
        lemma_named_count_bound(ns, j + 1, subtree_end(ns, j));
        let e = subtree_end(ns, j);
        if !(e <= j || e >= stop || e >= ns.len()) {
            lemma_params_bound(lang, src, ns, e, stop, parent);
        }
    }
}

fn named_count_exec(ns: &Vec<SyntaxNode>, c: usize) -> (r: usize)
    requires
        c < ns@.len(),
    ensures
        r as int == named_count_from(ns@, c + 1, subtree_end(ns@, c as int)),
{
    let stop = subtree_end_exec(ns, c);
    let ghost total = named_count_from(ns@, c + 1, stop as int);
    proof {
        lemma_named_count_bound(ns@, c + 1, stop as int);
    }
    let mut n: usize = 0;
    let mut j = c + 1;
    loop
        invariant_except_break
            c < j <= stop,
            total == n + named_count_from(ns@, j as int, stop as int),
            0 <= named_count_from(ns@, j as int, stop as int),
        invariant
            stop <= ns@.len(),
            total == named_count_from(ns@, c + 1, stop as int),
            0 <= total <= stop - (c + 1),
        ensures
            total == n,
        decreases ns@.len() - j,
    {
        if j >= stop || j >= ns.len() {
            break;
        }
        proof {
            let e = subtree_end(ns@, j as int);
            if !(e <= j || e >= stop || e >= ns@.len()) {
                lemma_named_count_bound(ns@, e, stop as int);
            }
        }
        if ns[j].named {
            n = n + 1;
        }
        let e = subtree_end_exec(ns, j);
        if e >= stop || e >= ns.len() {
            break;
        }
        j = e;
    }
    n
}

fn receiver_parameter_exec(source: &str, n: &SyntaxNode) -> (r: bool)
    ensures
        r == receiver_parameter(source@, *n),
{
    if n.kind == NodeKind::SelfParameter {
        return true;
    }
    let v = node_chars(source, n);
    let len = v.len();
    let (a, b) = trim_bounds(&v, 0, len);
    assert(v@.subrange(0, len as int) =~= v@);
    range_is_str(&v, a, b, "self") || range_is_str(&v, a, b, "&self") || range_is_str(&v, a, b, "&mut self")
        || range_is_str(&v, a, b, "this")
}

fn params_node_exec(ns: &Vec<SyntaxNode>, i: usize) -> (r: Option<usize>)
    requires
        i < ns@.len(),
    ensures
        match r {
            Some(c) => params_node(ns@, i as int) == Some(c as int) && c < ns@.len(),
            None => params_node(ns@, i as int) is None,
        },
{
    match field_child_exec(ns, i, NodeField::Parameters) {
        Some(c) => Some(c),
        None => match field_child_exec(ns, i, NodeField::Signature) {
            Some(g) => field_child_exec(ns, g, NodeField::Parameters),
            None => None,
        },
    }
}

/// `parameter_count`: the declared parameters of the function at node `i`.
pub fn parameter_count_exec(lang: Language, source: &str, ns: &Vec<SyntaxNode>, i: usize) -> (r: usize)
    requires
        i < ns@.len(),
    ensures
        r as int == parameter_count(lang, source@, ns@, i as int),
{
    let p = match params_node_exec(ns, i) {
        Some(p) => p,
        None => {
            let bare = ns[i].kind == NodeKind::ArrowFunction && field_child_exec(ns, i, NodeField::Parameter).is_some();
            let lambda = ns[i].kind == NodeKind::Lambda && field_child_exec(ns, i, NodeField::Parameters).is_some();
            return if bare || lambda { 1 } else { 0 };
        },
    };
    let stop = subtree_end_exec(ns, p);
    let ghost total = params_from(lang, source@, ns@, p + 1, stop as int);
    proof {
        lemma_params_bound(lang, source@, ns@, p + 1, stop as int, p as int);
    }
    let mut n: usize = 0;
    let mut j = p + 1;
    loop
        invariant_except_break
            p < j <= stop,
            total == n + params_from(lang, source@, ns@, j as int, stop as int),
            0 <= params_from(lang, source@, ns@, j as int, stop as int),
        invariant
            p < ns@.len(),
            stop <= ns@.len(),
            stop as int == subtree_end(ns@, p as int),
            total == params_from(lang, source@, ns@, p + 1, stop as int),
            0 <= total <= stop - (p + 1),
        ensures
            total == n,
        decreases ns@.len() - j,
    {
        if j >= stop || j >= ns.len() {
            break;
        }
        proof {
            let e = subtree_end(ns@, j as int);
            lemma_subtree_end(ns@, j as int);
            lemma_nested(ns@, p as int, j as int);
            if !(e <= j || e >= stop || e >= ns@.len()) {
                lemma_params_bound(lang, source@, ns@, e, stop as int, p as int);
            }
        }
        let here: usize = if !ns[j].named {
            0
        } else if lang == Language::Go {
            let k = ns[j].kind;
            if !(k == NodeKind::ParameterDeclaration || k == NodeKind::VariadicParameterDeclaration) {
                1
            } else {
                let m = named_count_exec(ns, j);
                if m >= 2 {
                    m - 1
                } else {
                    1
                }
            }
        } else if receiver_parameter_exec(source, &ns[j]) {
            0
        } else {
            1
        };
        n = n + here;
        let e = subtree_end_exec(ns, j);
        if e >= stop || e >= ns.len() {
            break;
        }
        j = e;
    }
    n
}

// -------------------------------------------------------------------- lines

/// `ranges` are the character ranges of the lines of `chars`.
pub open spec fn ranges_ok(chars: Seq<char>, ranges: Seq<(usize, usize)>) -> bool {
    &&& ranges.len() == lines(chars).len()
    &&& forall|k: int|
        0 <= k < ranges.len() ==> #[trigger] ranges[k].0 <= ranges[k].1 <= chars.len()
            && chars.subrange(ranges[k].0 as int, ranges[k].1 as int) == lines(chars)[k]
}

/// `comment_or_blank` and `block_open_after` of the line `v[lo..hi]`.
fn line_kind_exec(lang: Language, v: &Vec<char>, lo: usize, hi: usize, inside: bool) -> (r: (bool, bool))
    requires
        lo <= hi <= v@.len(),
    ensures
        r.0 == comment_or_blank(lang, v@.subrange(lo as int, hi as int), inside),
        r.1 == block_open_after(lang, v@.subrange(lo as int, hi as int), inside),
{
    let (a, b) = trim_bounds(v, lo, hi);
    if lang == Language::Python {
        return (a == b || starts_with_str(v, a, b, "#"), false);
    }
    let opens = starts_with_str(v, a, b, "/*");
    let comment = a == b || inside || starts_with_str(v, a, b, "//") || opens;
    let open_after = if inside {
        !contains_str(v, lo, hi, "*/")
    } else if opens {
        proof {
            reveal_strlit("/*");
        }
        assert(v@.subrange(a as int, b as int).subrange(2, (b - a) as int) =~= v@.subrange(a + 2, b as int));
        !contains_str(v, a + 2, b, "*/")
    } else {
        false
    };
    (comment, open_after)
}

/// `significant_lines`: of source rows `first..=last`, those neither blank
/// nor comments. `ranges` are the line ranges of `chars`.
pub fn significant_lines_exec(
    lang: Language,
    chars: &Vec<char>,
    ranges: &Vec<(usize, usize)>,
    first: usize,
    last: usize,
) -> (r: usize)
    requires
        first <= last < usize::MAX,
        ranges_ok(chars@, ranges@),
    ensures
        r as int == significant_lines(lang, chars@, first as int, last as int),
{
    let ghost ls = lines(chars@);
    let mut n: usize = 0;
    let mut k = first;
    let mut inside = false;
    while k <= last && k < ranges.len()
        invariant
            first <= k <= last + 1,
            last < usize::MAX,
            ls == lines(chars@),
            ranges_ok(chars@, ranges@),
            n <= k - first,
            n + significant_from(lang, ls, k as int, last + 1, inside) == significant_from(
                lang,
                ls,
                first as int,
                last + 1,
                false,
            ),
        decreases last + 1 - k,
    {
        let (lo, hi) = ranges[k];
        assert(lo <= hi <= chars@.len() && chars@.subrange(lo as int, hi as int) == ls[k as int]);
        let (comment, open_after) = line_kind_exec(lang, chars, lo, hi, inside);
        if !comment {
            n = n + 1;
        }
        inside = open_after;
        k = k + 1;
    }
    n
}

// ------------------------------------------------------------------ results

/// The mathematical form of a list of metrics.
pub open spec fn views(s: Seq<FunctionMetrics>) -> Seq<MetricsView> {
    crate::sort::seq_views(s)
}

/// Everything a measurement reads: the source, its characters and line
/// ranges, and the tree.
pub open spec fn inputs_ok(
    source: &str,
    chars: Seq<char>,
    ranges: Seq<(usize, usize)>,
    ns: Seq<SyntaxNode>,
    offset: usize,
) -> bool {
    &&& chars == source@
    &&& ranges_ok(chars, ranges)
    &&& offset < usize::MAX - 1
    &&& tree_wf(ns, source.spec_bytes().len() as int, (usize::MAX - 1 - offset) as int)
}

/// `measure_function`: the metrics of the function at node `i`.
pub fn measure_function_exec(
    lang: Language,
    source: &str,
    chars: &Vec<char>,
    ranges: &Vec<(usize, usize)>,
    ns: &Vec<SyntaxNode>,
    i: usize,
    offset: usize,
) -> (r: FunctionMetrics)
    requires
        inputs_ok(source, chars@, ranges@, ns@, offset),
        i < ns@.len(),
    ensures
        r@ == measure_function(lang, source@, ns@, i as int, offset as int),
{
    let body = match field_child_exec(ns, i, NodeField::Body) {
        Some(b) => b,
        None => i,
    };
    proof {
        lemma_score_bounds(lang, source@, ns@, body as int, i as int, 0);
        lemma_subtree_end(ns@, body as int);
    }
    let (decisions, depth) = score_exec(lang, source, ns, body, i, 0);
    let bool_ops = bool_exec(lang, source, ns, body, i);
    let widget_depth = nest_exec(lang, ns, body, i, 0);
    let n = ns[i];
    assert(n.start_row <= n.end_row <= usize::MAX - 1 - offset) by {
        assert(crate::syntax::node_in_bounds(ns@[i as int], source.spec_bytes().len() as int, (usize::MAX - 1 - offset) as int));
    }
    FunctionMetrics {
        function: function_name_exec(lang, source, ns, i),
        line: n.start_row + 1 + offset,
        end_line: n.end_row + 1 + offset,
        complexity: 1 + decisions,
        depth,
        lines: significant_lines_exec(lang, chars, ranges, n.start_row, n.end_row),
        params: parameter_count_exec(lang, source, ns, i),
        bool_ops,
        widget_depth,
    }
}

/// Appends the functions at or below node `i`, in preorder.
pub fn collect_exec(
    lang: Language,
    source: &str,
    chars: &Vec<char>,
    ranges: &Vec<(usize, usize)>,
    ns: &Vec<SyntaxNode>,
    i: usize,
    offset: usize,
    out: &mut Vec<FunctionMetrics>,
)
    requires
        inputs_ok(source, chars@, ranges@, ns@, offset),
        i < ns@.len(),
    ensures
        views(final(out)@) == views(old(out)@) + collect_node(lang, source@, ns@, i as int, offset as int),
    decreases ns@.len() - i,
{
    let ghost start = views(out@);
    if is_function_exec(lang, ns[i].kind) {
        let m = measure_function_exec(lang, source, chars, ranges, ns, i, offset);
        out.push(m);
    }
    let ghost here = if is_function(lang, ns@[i as int].kind) {
        seq![measure_function(lang, source@, ns@, i as int, offset as int)]
    } else {
        seq![]
    };
    assert(views(out@) =~= start + here);
    let stop = subtree_end_exec(ns, i);
    let ghost total = collect_children(lang, source@, ns@, i + 1, stop as int, offset as int);
    assert(collect_node(lang, source@, ns@, i as int, offset as int) == here + total);
    let mut c = i + 1;
    loop
        invariant_except_break
            i < c <= stop,
            views(out@) + collect_children(lang, source@, ns@, c as int, stop as int, offset as int) == start
                + here + total,
        invariant
            inputs_ok(source, chars@, ranges@, ns@, offset),
            i < ns@.len(),
            stop <= ns@.len(),
            total == collect_children(lang, source@, ns@, i + 1, stop as int, offset as int),
        ensures
            views(out@) == start + here + total,
        decreases ns@.len() - c,
    {
        let ghost before = views(out@);
        let ghost rest = collect_children(lang, source@, ns@, c as int, stop as int, offset as int);
        if c >= stop || c >= ns.len() {
            assert(views(out@) =~= views(out@) + rest);
            break;
        }
        if ns[c].named {
            collect_exec(lang, source, chars, ranges, ns, c, offset, out);
        }
        let ghost mine = if ns@[c as int].named {
            collect_node(lang, source@, ns@, c as int, offset as int)
        } else {
            seq![]
        };
        assert(views(out@) =~= before + mine);
        let e = subtree_end_exec(ns, c);
        if e >= stop || e >= ns.len() {
            assert(rest == mine);
            break;
        }
        assert(rest == mine + collect_children(lang, source@, ns@, e as int, stop as int, offset as int));
        assert(views(out@) + collect_children(lang, source@, ns@, e as int, stop as int, offset as int)
            =~= before + rest);
        c = e;
    }
    assert(views(out@) =~= start + collect_node(lang, source@, ns@, i as int, offset as int));
}

/// Every function of a tree with its metrics, ordered by start and end line
/// (`tree_metrics`); `offset` is added to the reported lines.
pub fn measure_tree(language: Language, source: &str, tree: &SyntaxTree, offset: usize) -> (r: Vec<
    FunctionMetrics,
>)
    requires
        offset < usize::MAX - 1,
        tree_wf(tree.nodes@, source.spec_bytes().len() as int, (usize::MAX - 1 - offset) as int),
    ensures
        views(r@) == tree_metrics(language, source@, tree.nodes@, offset as int),
{
    let chars = chars_of(source);
    let ranges = crate::text::line_ranges(&chars);
    let mut out: Vec<FunctionMetrics> = Vec::new();
    collect_exec(language, source, &chars, &ranges, &tree.nodes, 0, offset, &mut out);
    assert(views(out@) =~= collect_node(language, source@, tree.nodes@, 0, offset as int));
    crate::sort::stable_sort(out)
}

/// The grammar each language's files are parsed with: TypeScript and TSX
/// have their own; a Svelte file's scripts are JavaScript.
pub open spec fn grammar_of(language: Language) -> Grammar {
    match language {
        Language::JavaScript | Language::Svelte => Grammar::JavaScript,
        Language::TypeScript => Grammar::TypeScript,
        Language::Tsx => Grammar::Tsx,
        Language::Dart => Grammar::Dart,
        Language::Rust => Grammar::Rust,
        Language::Python => Grammar::Python,
        Language::Go => Grammar::Go,
    }
}

/// `grammar_of`.
fn grammar(language: Language) -> (r: Grammar)
    ensures
        r == grammar_of(language),
{
    match language {
        Language::JavaScript | Language::Svelte => Grammar::JavaScript,
        Language::TypeScript => Grammar::TypeScript,
        Language::Tsx => Grammar::Tsx,
        Language::Dart => Grammar::Dart,
        Language::Rust => Grammar::Rust,
        Language::Python => Grammar::Python,
        Language::Go => Grammar::Go,
    }
}

/// The metrics parsing `source` as `language` gives, lines shifted by
/// `offset`: those of the tree `parsed_nodes` reads; none without one.
pub open spec fn parse_metrics(language: Language, source: Seq<char>, offset: usize) -> Option<Seq<MetricsView>> {
    match parsed_nodes(grammar_of(language), source, (usize::MAX - 1 - offset) as int) {
        Some(ns) => Some(tree_metrics(language, source, ns, offset as int)),
        None => None,
    }
}

/// Parses `source` as `language` and measures every function in it, adding
/// `offset` to the reported lines (`parse_metrics`).
pub fn parse_with_offset(language: Language, source: &str, offset: usize) -> (r: Result<
    Vec<FunctionMetrics>,
    ParseError,
>)
    requires
        offset < usize::MAX - 1,
    ensures
        r is Ok <==> parse_metrics(language, source@, offset) is Some,
        r matches Ok(v) ==> parse_metrics(language, source@, offset) == Some(views(v@)),
        r matches Err(e) ==> if ts_tree(grammar_of(language), source@) is None {
            e == ParseError::IncompatibleGrammar || e == ParseError::NoTree
        } else {
            e == ParseError::UnexpectedTree
        },
{
    let tree = read_tree(grammar(language), source, usize::MAX - 1 - offset)?;
    let v = measure_tree(language, source, &tree, offset);
    Ok(v)
}

// --------------------------------------------------------- decision laws

/// The node kinds that are decision points wherever they stand, by
/// language: branches (`if`, `else if`, `elif`), loops, case arms that
/// always count, `catch`/`except` clauses, conditional expressions, and
/// comprehension `for` and `if` clauses; in Dart also the logical and
/// if-null expressions.
pub open spec fn listed_decision_kind(lang: Language, k: NodeKind) -> bool {
    match lang {
        Language::JavaScript | Language::TypeScript | Language::Tsx => k == NodeKind::IfStatement || k
            == NodeKind::ForStatement || k == NodeKind::ForInStatement || k == NodeKind::WhileStatement || k
            == NodeKind::DoStatement || k == NodeKind::SwitchCase || k == NodeKind::CatchClause || k
            == NodeKind::TernaryExpression,
        Language::Dart => k == NodeKind::IfStatement || k == NodeKind::IfElement || k == NodeKind::ForStatement
            || k == NodeKind::ForElement || k == NodeKind::WhileStatement || k == NodeKind::SwitchStatementCase
            || k == NodeKind::SwitchExpressionCase || k == NodeKind::CatchClause || k
            == NodeKind::ConditionalExpression || k == NodeKind::LogicalAndExpression || k
            == NodeKind::LogicalOrExpression || k == NodeKind::IfNullExpression,
        Language::Rust => k == NodeKind::IfExpression || k == NodeKind::ForExpression || k
            == NodeKind::WhileExpression || k == NodeKind::LoopExpression,
        Language::Python => k == NodeKind::IfStatement || k == NodeKind::ElifClause || k
            == NodeKind::ForStatement || k == NodeKind::WhileStatement || k == NodeKind::ExceptClause || k
            == NodeKind::ConditionalExpression || k == NodeKind::ForInClause || k == NodeKind::IfClause,
        Language::Go => k == NodeKind::IfStatement || k == NodeKind::ForStatement || k == NodeKind::ExpressionCase
            || k == NodeKind::TypeCase || k == NodeKind::CommunicationCase,
        Language::Svelte => false,
    }
}

/// The operator of node `i` (its `operator` field) reads `op`.
pub open spec fn operator_is(src: Seq<char>, ns: Seq<SyntaxNode>, i: int, op: Seq<char>) -> bool {
    match field_child(ns, i, NodeField::Operator) {
        Some(c) => text_ok(src, ns[c]) && node_text(src, ns[c]) == op,
        None => false,
    }
}

/// A short-circuit operator node that counts: `&&`, `||`, `??` and their
/// assignment forms in JavaScript and TypeScript; `&&`, `||` in Rust and
/// Go; `and`, `or` in Python; `??=` in Dart.
pub open spec fn listed_operator_node(lang: Language, src: Seq<char>, ns: Seq<SyntaxNode>, i: int) -> bool {
    let k = ns[i].kind;
    match lang {
        Language::JavaScript | Language::TypeScript | Language::Tsx => (k == NodeKind::BinaryExpression || k
            == NodeKind::AugmentedAssignmentExpression) && (operator_is(src, ns, i, "&&"@) || operator_is(
            src,
            ns,
            i,
            "||"@,
        ) || operator_is(src, ns, i, "??"@) || operator_is(src, ns, i, "&&="@) || operator_is(src, ns, i, "||="@)
            || operator_is(src, ns, i, "??="@)),
        Language::Rust | Language::Go => k == NodeKind::BinaryExpression && (operator_is(src, ns, i, "&&"@)
            || operator_is(src, ns, i, "||"@)),
        Language::Python => k == NodeKind::BooleanOperator && (operator_is(src, ns, i, "and"@) || operator_is(
            src,
            ns,
            i,
            "or"@,
        )),
        Language::Dart => k == NodeKind::AssignmentExpression && operator_is(src, ns, i, "??="@),
        Language::Svelte => false,
    }
}

/// An arm (Rust `match` arm, Python `case`) that is not a default one: its
/// text does not start with `_`, `case _` or `default`.
pub open spec fn listed_arm(lang: Language, src: Seq<char>, ns: Seq<SyntaxNode>, i: int) -> bool {
    let t = trim_start(node_text(src, ns[i]));
    ((lang == Language::Rust && ns[i].kind == NodeKind::MatchArm) || (lang == Language::Python && ns[i].kind
        == NodeKind::CaseClause)) && !starts_with(t, "_"@) && !starts_with(t, "case _"@) && !starts_with(
        t,
        "default"@,
    )
}

/// Every decision point inside a function, outside nested functions,
/// counts: the decisions measured over its subtree (which are added into
/// the function's complexity) include at least the node itself. So in
/// Python a body holding one `while` loop has complexity 2.
pub proof fn lemma_decision_points_count(
    lang: Language,
    src: Seq<char>,
    ns: Seq<SyntaxNode>,
    i: int,
    root: int,
    depth: int,
)
    requires
        0 <= i < ns.len(),
        0 <= depth,
        i == root || !is_function(lang, ns[i].kind),
        listed_decision_kind(lang, ns[i].kind) || listed_operator_node(lang, src, ns, i) || listed_arm(
            lang,
            src,
            ns,
            i,
        ),
    ensures
        score_node(lang, src, ns, i, root, depth).0 >= 1,
{
    reveal_strlit("&&");
    reveal_strlit("||");
    reveal_strlit("??");
    reveal_strlit("&&=");
    reveal_strlit("||=");
    reveal_strlit("??=");
    reveal_strlit("and");
    reveal_strlit("or");
    assert(is_decision(lang, src, ns, i));
    let next = depth + if opens_depth(lang, ns[i].kind) && !is_else_if(lang, ns, i) { 1int } else { 0 };
    lemma_subtree_end(ns, i);
    lemma_children_bounds(lang, src, ns, i + 1, subtree_end(ns, i), root, next, i);
}

/// Nothing else is a decision point: a node that is none of the listed
/// kinds, operators or arms (or a Rust `let ... else`) adds no decision.
pub proof fn lemma_only_listed_nodes_decide(lang: Language, src: Seq<char>, ns: Seq<SyntaxNode>, i: int)
    requires
        0 <= i < ns.len(),
        is_decision(lang, src, ns, i),
    ensures
        listed_decision_kind(lang, ns[i].kind) || listed_operator_node(lang, src, ns, i) || listed_arm(
            lang,
            src,
            ns,
            i,
        ) || (lang == Language::Rust && ns[i].kind == NodeKind::LetDeclaration),
{
    reveal_strlit("&&");
    reveal_strlit("||");
    reveal_strlit("??");
    reveal_strlit("&&=");
    reveal_strlit("||=");
    reveal_strlit("??=");
    reveal_strlit("and");
    reveal_strlit("or");
}

/// The constructs that open a nesting level, by language: branches,
/// loops, `switch`/`match`, `try` and `catch`/`except`, Python `with`.
pub open spec fn listed_depth_kind(lang: Language, k: NodeKind) -> bool {
    match lang {
        Language::JavaScript | Language::TypeScript | Language::Tsx => k == NodeKind::IfStatement || k
            == NodeKind::ForStatement || k == NodeKind::ForInStatement || k == NodeKind::WhileStatement || k
            == NodeKind::DoStatement || k == NodeKind::SwitchStatement || k == NodeKind::TryStatement || k
            == NodeKind::CatchClause,
        Language::Dart => k == NodeKind::IfStatement || k == NodeKind::ForStatement || k == NodeKind::WhileStatement
            || k == NodeKind::DoStatement || k == NodeKind::SwitchStatement || k == NodeKind::SwitchExpression || k
            == NodeKind::TryStatement || k == NodeKind::CatchClause,
        Language::Rust => k == NodeKind::IfExpression || k == NodeKind::ForExpression || k
            == NodeKind::WhileExpression || k == NodeKind::LoopExpression || k == NodeKind::MatchExpression,
        Language::Python => k == NodeKind::IfStatement || k == NodeKind::ForStatement || k
            == NodeKind::WhileStatement || k == NodeKind::MatchStatement || k == NodeKind::TryStatement || k
            == NodeKind::ExceptClause || k == NodeKind::WithStatement,
        Language::Go => k == NodeKind::IfStatement || k == NodeKind::ForStatement || k
            == NodeKind::ExpressionSwitchStatement || k == NodeKind::TypeSwitchStatement || k
            == NodeKind::SelectStatement,
        Language::Svelte => false,
    }
}

/// A construct that opens a level (and is not an `else if`) nests one
/// level deeper than where it stands: the depth measured over its subtree
/// is more than the depth around it. Other nodes open none.
pub proof fn lemma_depth_levels(lang: Language, src: Seq<char>, ns: Seq<SyntaxNode>, i: int, root: int, depth: int)
    requires
        0 <= i < ns.len(),
        0 <= depth,
        i == root || !is_function(lang, ns[i].kind),
    ensures
        listed_depth_kind(lang, ns[i].kind) && !is_else_if(lang, ns, i) ==> score_node(
            lang,
            src,
            ns,
            i,
            root,
            depth,
        ).1 >= depth + 1,
        opens_depth(lang, ns[i].kind) ==> listed_depth_kind(lang, ns[i].kind),
        score_node(lang, src, ns, i, root, depth).1 >= depth,
{
}

/// Counting a parameter list from child `j` on (outside Go): a named child
/// that is not a receiver (`self`, `&self`, `&mut self`, `this`) is one
/// declared parameter; an unnamed one (punctuation) or a receiver is none.
pub proof fn lemma_parameter_children(lang: Language, src: Seq<char>, ns: Seq<SyntaxNode>, j: int, stop: int, parent: int)
    requires
        0 <= parent < j < stop,
        parent < ns.len(),
        stop == subtree_end(ns, parent),
        lang != Language::Go,
    ensures
        ({
            let rest = if subtree_end(ns, j) >= stop {
                0
            } else {
                params_from(lang, src, ns, subtree_end(ns, j), stop)
            };
            let t = trim(node_text(src, ns[j]));
            let receiver = ns[j].kind == NodeKind::SelfParameter || t == "self"@ || t == "&self"@ || t
                == "&mut self"@ || t == "this"@;
            params_from(lang, src, ns, j, stop) == rest + if ns[j].named && !receiver {
                1int
            } else {
                0int
            }
        }),
{
    lemma_subtree_end(ns, parent);
    lemma_subtree_end(ns, j);
    lemma_nested(ns, parent, j);
}

} // verus!
