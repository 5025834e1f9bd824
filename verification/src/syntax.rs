//! A syntax tree as the measurement reads it, and how it is read out of a
//! tree-sitter parse.

use vstd::prelude::*;
use vstd::string::StringSliceAdditionalSpecFns;
use vstd::utf8::encode_utf8;
use crate::text::{byte_len, str_eq};

verus! {

/// The node kinds whose names the measurement rules mention; every other
/// kind is `Other`.
#[derive(Clone, Copy, Debug, PartialEq, Eq, Structural)]
pub enum NodeKind {
    FunctionDeclaration,
    FunctionExpression,
    ArrowFunction,
    MethodDefinition,
    GeneratorFunction,
    GeneratorFunctionDeclaration,
    LocalFunctionDeclaration,
    MethodDeclaration,
    FunctionItem,
    ClosureExpression,
    FunctionDefinition,
    Lambda,
    FuncLiteral,
    IfStatement,
    ForStatement,
    ForInStatement,
    WhileStatement,
    DoStatement,
    SwitchCase,
    CatchClause,
    TernaryExpression,
    BinaryExpression,
    AugmentedAssignmentExpression,
    IfElement,
    ForElement,
    SwitchStatementCase,
    SwitchExpressionCase,
    ConditionalExpression,
    LogicalAndExpression,
    LogicalOrExpression,
    IfNullExpression,
    AssignmentExpression,
    IfExpression,
    ForExpression,
    WhileExpression,
    LoopExpression,
    MatchArm,
    LetDeclaration,
    ElifClause,
    ExceptClause,
    ForInClause,
    IfClause,
    CaseClause,
    BooleanOperator,
    ExpressionCase,
    TypeCase,
    CommunicationCase,
    SwitchStatement,
    TryStatement,
    SwitchExpression,
    MatchExpression,
    MatchStatement,
    WithStatement,
    ExpressionSwitchStatement,
    TypeSwitchStatement,
    SelectStatement,
    ClassDeclaration,
    Class,
    ClassDefinition,
    ExtensionDeclaration,
    ParameterDeclaration,
    VariadicParameterDeclaration,
    SelfParameter,
    ElseClause,
    Arguments,
    Other,
}

/// The kind a node-kind name stands for.
pub open spec fn kind_of(name: Seq<char>) -> NodeKind {
    if name == "function_declaration"@ {
        NodeKind::FunctionDeclaration
    } else if name == "function_expression"@ {
        NodeKind::FunctionExpression
    } else if name == "arrow_function"@ {
        NodeKind::ArrowFunction
    } else if name == "method_definition"@ {
        NodeKind::MethodDefinition
    } else if name == "generator_function"@ {
        NodeKind::GeneratorFunction
    } else if name == "generator_function_declaration"@ {
        NodeKind::GeneratorFunctionDeclaration
    } else if name == "local_function_declaration"@ {
        NodeKind::LocalFunctionDeclaration
    } else if name == "method_declaration"@ {
        NodeKind::MethodDeclaration
    } else if name == "function_item"@ {
        NodeKind::FunctionItem
    } else if name == "closure_expression"@ {
        NodeKind::ClosureExpression
    } else if name == "function_definition"@ {
        NodeKind::FunctionDefinition
    } else if name == "lambda"@ {
        NodeKind::Lambda
    } else if name == "func_literal"@ {
        NodeKind::FuncLiteral
    } else if name == "if_statement"@ {
        NodeKind::IfStatement
    } else if name == "for_statement"@ {
        NodeKind::ForStatement
    } else if name == "for_in_statement"@ {
        NodeKind::ForInStatement
    } else if name == "while_statement"@ {
        NodeKind::WhileStatement
    } else if name == "do_statement"@ {
        NodeKind::DoStatement
    } else if name == "switch_case"@ {
        NodeKind::SwitchCase
    } else if name == "catch_clause"@ {
        NodeKind::CatchClause
    } else if name == "ternary_expression"@ {
        NodeKind::TernaryExpression
    } else if name == "binary_expression"@ {
        NodeKind::BinaryExpression
    } else if name == "augmented_assignment_expression"@ {
        NodeKind::AugmentedAssignmentExpression
    } else if name == "if_element"@ {
        NodeKind::IfElement
    } else if name == "for_element"@ {
        NodeKind::ForElement
    } else if name == "switch_statement_case"@ {
        NodeKind::SwitchStatementCase
    } else if name == "switch_expression_case"@ {
        NodeKind::SwitchExpressionCase
    } else if name == "conditional_expression"@ {
        NodeKind::ConditionalExpression
    } else if name == "logical_and_expression"@ {
        NodeKind::LogicalAndExpression
    } else if name == "logical_or_expression"@ {
        NodeKind::LogicalOrExpression
    } else if name == "if_null_expression"@ {
        NodeKind::IfNullExpression
    } else if name == "assignment_expression"@ {
        NodeKind::AssignmentExpression
    } else if name == "if_expression"@ {
        NodeKind::IfExpression
    } else if name == "for_expression"@ {
        NodeKind::ForExpression
    } else if name == "while_expression"@ {
        NodeKind::WhileExpression
    } else if name == "loop_expression"@ {
        NodeKind::LoopExpression
    } else if name == "match_arm"@ {
        NodeKind::MatchArm
    } else if name == "let_declaration"@ {
        NodeKind::LetDeclaration
    } else if name == "elif_clause"@ {
        NodeKind::ElifClause
    } else if name == "except_clause"@ {
        NodeKind::ExceptClause
    } else if name == "for_in_clause"@ {
        NodeKind::ForInClause
    } else if name == "if_clause"@ {
        NodeKind::IfClause
    } else if name == "case_clause"@ {
        NodeKind::CaseClause
    } else if name == "boolean_operator"@ {
        NodeKind::BooleanOperator
    } else if name == "expression_case"@ {
        NodeKind::ExpressionCase
    } else if name == "type_case"@ {
        NodeKind::TypeCase
    } else if name == "communication_case"@ {
        NodeKind::CommunicationCase
    } else if name == "switch_statement"@ {
        NodeKind::SwitchStatement
    } else if name == "try_statement"@ {
        NodeKind::TryStatement
    } else if name == "switch_expression"@ {
        NodeKind::SwitchExpression
    } else if name == "match_expression"@ {
        NodeKind::MatchExpression
    } else if name == "match_statement"@ {
        NodeKind::MatchStatement
    } else if name == "with_statement"@ {
        NodeKind::WithStatement
    } else if name == "expression_switch_statement"@ {
        NodeKind::ExpressionSwitchStatement
    } else if name == "type_switch_statement"@ {
        NodeKind::TypeSwitchStatement
    } else if name == "select_statement"@ {
        NodeKind::SelectStatement
    } else if name == "class_declaration"@ {
        NodeKind::ClassDeclaration
    } else if name == "class"@ {
        NodeKind::Class
    } else if name == "class_definition"@ {
        NodeKind::ClassDefinition
    } else if name == "extension_declaration"@ {
        NodeKind::ExtensionDeclaration
    } else if name == "parameter_declaration"@ {
        NodeKind::ParameterDeclaration
    } else if name == "variadic_parameter_declaration"@ {
        NodeKind::VariadicParameterDeclaration
    } else if name == "self_parameter"@ {
        NodeKind::SelfParameter
    } else if name == "else_clause"@ {
        NodeKind::ElseClause
    } else if name == "arguments"@ {
        NodeKind::Arguments
    } else {
        NodeKind::Other
    }
}

/// The kind a grammar's node-kind name stands for.
pub fn classify_kind(name: &str) -> (r: NodeKind)
    ensures
        r == kind_of(name@),
{
    if str_eq(name, "function_declaration") {
        return NodeKind::FunctionDeclaration;
    }
    if str_eq(name, "function_expression") {
        return NodeKind::FunctionExpression;
    }
    if str_eq(name, "arrow_function") {
        return NodeKind::ArrowFunction;
    }
    if str_eq(name, "method_definition") {
        return NodeKind::MethodDefinition;
    }
    if str_eq(name, "generator_function") {
        return NodeKind::GeneratorFunction;
    }
    if str_eq(name, "generator_function_declaration") {
        return NodeKind::GeneratorFunctionDeclaration;
    }
    if str_eq(name, "local_function_declaration") {
        return NodeKind::LocalFunctionDeclaration;
    }
    if str_eq(name, "method_declaration") {
        return NodeKind::MethodDeclaration;
    }
    if str_eq(name, "function_item") {
        return NodeKind::FunctionItem;
    }
    if str_eq(name, "closure_expression") {
        return NodeKind::ClosureExpression;
    }
    if str_eq(name, "function_definition") {
        return NodeKind::FunctionDefinition;
    }
    if str_eq(name, "lambda") {
        return NodeKind::Lambda;
    }
    if str_eq(name, "func_literal") {
        return NodeKind::FuncLiteral;
    }
    if str_eq(name, "if_statement") {
        return NodeKind::IfStatement;
    }
    if str_eq(name, "for_statement") {
        return NodeKind::ForStatement;
    }
    if str_eq(name, "for_in_statement") {
        return NodeKind::ForInStatement;
    }
    if str_eq(name, "while_statement") {
        return NodeKind::WhileStatement;
    }
    if str_eq(name, "do_statement") {
        return NodeKind::DoStatement;
    }
    if str_eq(name, "switch_case") {
        return NodeKind::SwitchCase;
    }
    if str_eq(name, "catch_clause") {
        return NodeKind::CatchClause;
    }
    if str_eq(name, "ternary_expression") {
        return NodeKind::TernaryExpression;
    }
    if str_eq(name, "binary_expression") {
        return NodeKind::BinaryExpression;
    }
    if str_eq(name, "augmented_assignment_expression") {
        return NodeKind::AugmentedAssignmentExpression;
    }
    if str_eq(name, "if_element") {
        return NodeKind::IfElement;
    }
    if str_eq(name, "for_element") {
        return NodeKind::ForElement;
    }
    if str_eq(name, "switch_statement_case") {
        return NodeKind::SwitchStatementCase;
    }
    if str_eq(name, "switch_expression_case") {
        return NodeKind::SwitchExpressionCase;
    }
    if str_eq(name, "conditional_expression") {
        return NodeKind::ConditionalExpression;
    }
    if str_eq(name, "logical_and_expression") {
        return NodeKind::LogicalAndExpression;
    }
    if str_eq(name, "logical_or_expression") {
        return NodeKind::LogicalOrExpression;
    }
    if str_eq(name, "if_null_expression") {
        return NodeKind::IfNullExpression;
    }
    if str_eq(name, "assignment_expression") {
        return NodeKind::AssignmentExpression;
    }
    if str_eq(name, "if_expression") {
        return NodeKind::IfExpression;
    }
    if str_eq(name, "for_expression") {
        return NodeKind::ForExpression;
    }
    if str_eq(name, "while_expression") {
        return NodeKind::WhileExpression;
    }
    if str_eq(name, "loop_expression") {
        return NodeKind::LoopExpression;
    }
    if str_eq(name, "match_arm") {
        return NodeKind::MatchArm;
    }
    if str_eq(name, "let_declaration") {
        return NodeKind::LetDeclaration;
    }
    if str_eq(name, "elif_clause") {
        return NodeKind::ElifClause;
    }
    if str_eq(name, "except_clause") {
        return NodeKind::ExceptClause;
    }
    if str_eq(name, "for_in_clause") {
        return NodeKind::ForInClause;
    }
    if str_eq(name, "if_clause") {
        return NodeKind::IfClause;
    }
    if str_eq(name, "case_clause") {
        return NodeKind::CaseClause;
    }
    if str_eq(name, "boolean_operator") {
        return NodeKind::BooleanOperator;
    }
    if str_eq(name, "expression_case") {
        return NodeKind::ExpressionCase;
    }
    if str_eq(name, "type_case") {
        return NodeKind::TypeCase;
    }
    if str_eq(name, "communication_case") {
        return NodeKind::CommunicationCase;
    }
    if str_eq(name, "switch_statement") {
        return NodeKind::SwitchStatement;
    }
    if str_eq(name, "try_statement") {
        return NodeKind::TryStatement;
    }
    if str_eq(name, "switch_expression") {
        return NodeKind::SwitchExpression;
    }
    if str_eq(name, "match_expression") {
        return NodeKind::MatchExpression;
    }
    if str_eq(name, "match_statement") {
        return NodeKind::MatchStatement;
    }
    if str_eq(name, "with_statement") {
        return NodeKind::WithStatement;
    }
    if str_eq(name, "expression_switch_statement") {
        return NodeKind::ExpressionSwitchStatement;
    }
    if str_eq(name, "type_switch_statement") {
        return NodeKind::TypeSwitchStatement;
    }
    if str_eq(name, "select_statement") {
        return NodeKind::SelectStatement;
    }
    if str_eq(name, "class_declaration") {
        return NodeKind::ClassDeclaration;
    }
    if str_eq(name, "class") {
        return NodeKind::Class;
    }
    if str_eq(name, "class_definition") {
        return NodeKind::ClassDefinition;
    }
    if str_eq(name, "extension_declaration") {
        return NodeKind::ExtensionDeclaration;
    }
    if str_eq(name, "parameter_declaration") {
        return NodeKind::ParameterDeclaration;
    }
    if str_eq(name, "variadic_parameter_declaration") {
        return NodeKind::VariadicParameterDeclaration;
    }
    if str_eq(name, "self_parameter") {
        return NodeKind::SelfParameter;
    }
    if str_eq(name, "else_clause") {
        return NodeKind::ElseClause;
    }
    if str_eq(name, "arguments") {
        return NodeKind::Arguments;
    }
    NodeKind::Other
}

/// The field names the measurement rules mention; every other field is
/// `Other`.
#[derive(Clone, Copy, Debug, PartialEq, Eq, Structural)]
pub enum NodeField {
    Body,
    Name,
    Signature,
    Parameters,
    Parameter,
    Operator,
    Alternative,
    Left,
    Key,
    Other,
}

/// The field a field name stands for.
pub open spec fn field_of(name: Seq<char>) -> NodeField {
    if name == "body"@ {
        NodeField::Body
    } else if name == "name"@ {
        NodeField::Name
    } else if name == "signature"@ {
        NodeField::Signature
    } else if name == "parameters"@ {
        NodeField::Parameters
    } else if name == "parameter"@ {
        NodeField::Parameter
    } else if name == "operator"@ {
        NodeField::Operator
    } else if name == "alternative"@ {
        NodeField::Alternative
    } else if name == "left"@ {
        NodeField::Left
    } else if name == "key"@ {
        NodeField::Key
    } else {
        NodeField::Other
    }
}

/// The field a grammar's field name stands for.
pub fn classify_field(name: &str) -> (r: NodeField)
    ensures
        r == field_of(name@),
{
    if str_eq(name, "body") {
        return NodeField::Body;
    }
    if str_eq(name, "name") {
        return NodeField::Name;
    }
    if str_eq(name, "signature") {
        return NodeField::Signature;
    }
    if str_eq(name, "parameters") {
        return NodeField::Parameters;
    }
    if str_eq(name, "parameter") {
        return NodeField::Parameter;
    }
    if str_eq(name, "operator") {
        return NodeField::Operator;
    }
    if str_eq(name, "alternative") {
        return NodeField::Alternative;
    }
    if str_eq(name, "left") {
        return NodeField::Left;
    }
    if str_eq(name, "key") {
        return NodeField::Key;
    }
    NodeField::Other
}

/// One node of a syntax tree, stored in preorder.
#[derive(Clone, Copy, Debug)]
pub struct SyntaxNode {
    pub kind: NodeKind,
    /// The field under which the node stands in its parent, if any.
    pub field: Option<NodeField>,
    pub named: bool,
    pub start_byte: usize,
    pub end_byte: usize,
    pub start_row: usize,
    pub end_row: usize,
    /// The number of ancestors.
    pub depth: usize,
    /// The index of the parent node.
    pub parent: Option<usize>,
}

/// A syntax tree as a preorder sequence of nodes; node `0` is the root.
/// A node's descendants are the nodes after it up to the next node whose
/// depth is not greater than its own.
#[derive(Clone, Debug)]
pub struct SyntaxTree {
    pub nodes: Vec<SyntaxNode>,
}

/// Why a source text yielded no syntax tree.
#[derive(Clone, Copy, Debug, PartialEq, Eq, Structural)]
pub enum ParseError {
    /// The grammar does not fit the tree-sitter library.
    IncompatibleGrammar,
    /// The parser returned no tree.
    NoTree,
    /// The tree has a node outside the text, or nodes whose depths are not
    /// those of a preorder walk.
    UnexpectedTree,
}

/// A node's positions lie inside a text of `len` bytes whose rows stay
/// within `max_row`.
pub open spec fn node_in_bounds(n: SyntaxNode, len: int, max_row: int) -> bool {
    n.start_byte <= n.end_byte <= len && n.start_row <= n.end_row <= max_row
}

/// A tree read from a text of `len` bytes: a root, positions inside the
/// text, parents before their children.
pub open spec fn tree_wf(ns: Seq<SyntaxNode>, len: int, max_row: int) -> bool {
    &&& 1 <= ns.len() < usize::MAX
    &&& forall|i: int| 0 <= i < ns.len() ==> node_in_bounds(#[trigger] ns[i], len, max_row)
    &&& forall|i: int|
        0 <= i < ns.len() ==> match #[trigger] ns[i].parent {
            Some(p) => p < i,
            None => true,
        }
}

/// The tree-sitter grammars the library parses with.
#[derive(Clone, Copy, Debug, PartialEq, Eq, Structural)]
pub enum Grammar {
    JavaScript,
    TypeScript,
    Tsx,
    Dart,
    Rust,
    Python,
    Go,
    Svelte,
}

#[verifier::external_type_specification]
#[verifier::external_body]
pub struct ExTree(tree_sitter::Tree);

/// A node of a tree-sitter tree as plain values: the name of its kind, the
/// field it stands in under its parent, whether it is named, its byte range
/// and rows, and how many ancestors it has.
pub struct NodeEntry {
    pub kind: Seq<char>,
    pub field: Option<Seq<char>>,
    pub named: bool,
    pub start_byte: usize,
    pub end_byte: usize,
    pub start_row: usize,
    pub end_row: usize,
    pub depth: u32,
}

/// One node as the tree-sitter accessors give it.
pub struct RawNode {
    pub kind: &'static str,
    pub field: Option<&'static str>,
    pub named: bool,
    pub start_byte: usize,
    pub end_byte: usize,
    pub start_row: usize,
    pub end_row: usize,
    pub depth: u32,
}

impl View for RawNode {
    type V = NodeEntry;

    open spec fn view(&self) -> NodeEntry {
        NodeEntry {
            kind: self.kind@,
            field: match self.field {
                Some(f) => Some(f@),
                None => None,
            },
            named: self.named,
            start_byte: self.start_byte,
            end_byte: self.end_byte,
            start_row: self.start_row,
            end_row: self.end_row,
            depth: self.depth,
        }
    }
}

/// The tree tree-sitter parses `source` into with `grammar`, its nodes in
/// preorder (the order of their descendant indices, named and anonymous
/// nodes alike); none when the grammar does not load into a parser or the
/// parser returns no tree. Parsing is a function of the grammar and the
/// text.
pub uninterp spec fn ts_tree(grammar: Grammar, source: Seq<char>) -> Option<Seq<NodeEntry>>;

/// The nodes of a tree in preorder.
pub uninterp spec fn tree_nodes(tree: tree_sitter::Tree) -> Seq<NodeEntry>;

/// A new `tree_sitter::Parser`, `Parser::set_language` with the grammar's
/// language, then `Parser::parse` of the text with no earlier tree. The
/// tree is `ts_tree`; without one the error says which step failed.
#[verifier::external_body]
pub(crate) fn ts_parse_text(grammar: Grammar, source: &str) -> (r: Result<tree_sitter::Tree, ParseError>)
    ensures
        r is Ok <==> ts_tree(grammar, source@) is Some,
        r matches Ok(t) ==> tree_nodes(t) == ts_tree(grammar, source@)->0,
        r matches Err(e) ==> e == ParseError::IncompatibleGrammar || e == ParseError::NoTree,
{
    let language = match grammar {
        Grammar::JavaScript => tree_sitter_javascript::LANGUAGE,
        Grammar::TypeScript => tree_sitter_typescript::LANGUAGE_TYPESCRIPT,
        Grammar::Tsx => tree_sitter_typescript::LANGUAGE_TSX,
        Grammar::Dart => tree_sitter_dart::LANGUAGE,
        Grammar::Rust => tree_sitter_rust::LANGUAGE,
        Grammar::Python => tree_sitter_python::LANGUAGE,
        Grammar::Go => tree_sitter_go::LANGUAGE,
        Grammar::Svelte => tree_sitter_svelte_ng::LANGUAGE,
    };
    let mut parser = tree_sitter::Parser::new();
    parser.set_language(&language.into()).map_err(|_| ParseError::IncompatibleGrammar)?;
    parser.parse(source, None).ok_or(ParseError::NoTree)
}

/// `Node::descendant_count` of the root: the number of nodes, the root
/// included, as its documentation says.
#[verifier::external_body]
fn ts_node_count(tree: &tree_sitter::Tree) -> (r: usize)
    ensures
        r == tree_nodes(*tree).len(),
{
    tree.root_node().descendant_count()
}

/// The node of descendant index `i`: a cursor from `Tree::walk` moved there
/// with `TreeCursor::goto_descendant`, read with `Node::kind`,
/// `TreeCursor::field_name`, `Node::is_named`, the byte range, the rows of
/// the start and end positions, and `TreeCursor::depth`.
#[verifier::external_body]
fn ts_node_at(tree: &tree_sitter::Tree, i: usize) -> (r: RawNode)
    requires
        i < tree_nodes(*tree).len(),
    ensures
        r@ == tree_nodes(*tree)[i as int],
{
    let mut cursor = tree.walk();
    cursor.goto_descendant(i);
    let node = cursor.node();
    RawNode {
        kind: node.kind(),
        field: cursor.field_name(),
        named: node.is_named(),
        start_byte: node.start_byte(),
        end_byte: node.end_byte(),
        start_row: node.start_position().row,
        end_row: node.end_position().row,
        depth: cursor.depth(),
    }
}

/// The last node before `j` at depth `d`.
pub open spec fn last_at(es: Seq<NodeEntry>, d: int, j: int) -> Option<int>
    decreases j,
{
    if j <= 0 {
        None
    } else if es[j - 1].depth == d {
        Some(j - 1)
    } else {
        last_at(es, d, j - 1)
    }
}

/// The parent of node `i` in preorder: the last node before it one level
/// up.
pub open spec fn parent_at(es: Seq<NodeEntry>, i: int) -> Option<usize> {
    if es[i].depth == 0 {
        None
    } else {
        match last_at(es, es[i].depth - 1, i) {
            Some(p) => Some(p as usize),
            None => None,
        }
    }
}

/// Node `i` as the measurement reads it.
pub open spec fn syntax_node(es: Seq<NodeEntry>, i: int) -> SyntaxNode {
    SyntaxNode {
        kind: kind_of(es[i].kind),
        field: match es[i].field {
            Some(f) => Some(field_of(f)),
            None => None,
        },
        named: es[i].named,
        start_byte: es[i].start_byte,
        end_byte: es[i].end_byte,
        start_row: es[i].start_row,
        end_row: es[i].end_row,
        depth: es[i].depth as usize,
        parent: parent_at(es, i),
    }
}

/// All nodes as the measurement reads them.
pub open spec fn syntax_nodes(es: Seq<NodeEntry>) -> Seq<SyntaxNode> {
    Seq::new(es.len(), |i: int| syntax_node(es, i))
}

/// Node `i` lies inside the text, and its depth continues a preorder: the
/// root at depth 0, every later node below the root and at most one level
/// deeper than the node before it.
pub open spec fn entry_ok(es: Seq<NodeEntry>, i: int, len: int, max_row: int) -> bool {
    &&& es[i].start_byte <= es[i].end_byte <= len
    &&& es[i].start_row <= es[i].end_row <= max_row
    &&& i == 0 ==> es[i].depth == 0
    &&& i > 0 ==> 1 <= es[i].depth <= es[i - 1].depth + 1
}

/// A tree the measurement can read: a root, fewer than `usize::MAX` nodes,
/// each as `entry_ok` says.
pub open spec fn entries_ok(es: Seq<NodeEntry>, len: int, max_row: int) -> bool {
    &&& 1 <= es.len() < usize::MAX
    &&& forall|i: int| 0 <= i < es.len() ==> entry_ok(es, i, len, max_row)
}

/// The tree the measurement reads from `source`: the parse, when it is one
/// `entries_ok` accepts.
pub open spec fn parsed_nodes(grammar: Grammar, source: Seq<char>, max_row: int) -> Option<Seq<SyntaxNode>> {
    match ts_tree(grammar, source) {
        Some(es) => if entries_ok(es, encode_utf8(source).len() as int, max_row) {
            Some(syntax_nodes(es))
        } else {
            None
        },
        None => None,
    }
}

proof fn lemma_last_at(es: Seq<NodeEntry>, d: int, j: int)
    ensures
        last_at(es, d, j) matches Some(p) ==> 0 <= p < j && es[p].depth == d,
    decreases j,
{
    if j > 0 && es[j - 1].depth != d {
        lemma_last_at(es, d, j - 1);
    }
}

/// A tree `entries_ok` accepts reads as a well-formed syntax tree.
pub proof fn lemma_entries_wf(es: Seq<NodeEntry>, len: int, max_row: int)
    requires
        entries_ok(es, len, max_row),
    ensures
        tree_wf(syntax_nodes(es), len, max_row),
{
    let ns = syntax_nodes(es);
    assert forall|i: int| 0 <= i < ns.len() implies node_in_bounds(#[trigger] ns[i], len, max_row) by {
        assert(entry_ok(es, i, len, max_row));
    }
    assert forall|i: int| 0 <= i < ns.len() implies match #[trigger] ns[i].parent {
        Some(p) => p < i,
        None => true,
    } by {
        if es[i].depth != 0 {
            lemma_last_at(es, es[i].depth - 1, i);
        }
    }
}

/// Parses `source` with `grammar` and reads the tree out in preorder, every
/// node (named or not) with its kind, field, byte range, rows, depth and
/// parent (`parsed_nodes`). A tree with a node outside the text, or rows
/// past `max_row`, is refused.
pub fn read_tree(grammar: Grammar, source: &str, max_row: usize) -> (r: Result<SyntaxTree, ParseError>)
    ensures
        r is Ok <==> parsed_nodes(grammar, source@, max_row as int) is Some,
        r matches Ok(t) ==> parsed_nodes(grammar, source@, max_row as int) == Some(t.nodes@),
        r matches Ok(t) ==> tree_wf(t.nodes@, source.spec_bytes().len() as int, max_row as int),
        r matches Err(e) ==> if ts_tree(grammar, source@) is None {
            e == ParseError::IncompatibleGrammar || e == ParseError::NoTree
        } else {
            e == ParseError::UnexpectedTree
        },
{
    let tree = ts_parse_text(grammar, source)?;
    let ghost es = tree_nodes(tree);
    let len = byte_len(source);
    let total = ts_node_count(&tree);
    if total == 0 || total == usize::MAX {
        return Err(ParseError::UnexpectedTree);
    }
    let mut nodes: Vec<SyntaxNode> = Vec::new();
    let mut last: Vec<usize> = Vec::new();
    let mut k: usize = 0;
    while k < total
        invariant
            es == tree_nodes(tree),
            ts_tree(grammar, source@) == Some(es),
            total == es.len(),
            1 <= total < usize::MAX,
            k <= total,
            len == encode_utf8(source@).len(),
            nodes@.len() == k,
            forall|j: int| 0 <= j < k ==> #[trigger] nodes@[j] == syntax_node(es, j),
            forall|j: int| 0 <= j < k ==> entry_ok(es, j, len as int, max_row as int),
            k == 0 ==> last@.len() == 0,
            k > 0 ==> last@.len() == es[k - 1].depth + 1,
            forall|d: int| 0 <= d < last@.len() ==> last_at(es, d, k as int) == Some(#[trigger] last@[d] as int),
        decreases total - k,
    {
        let raw = ts_node_at(&tree, k);
        let depth = raw.depth as usize;
        if !(raw.start_byte <= raw.end_byte && raw.end_byte <= len && raw.start_row <= raw.end_row && raw.end_row
            <= max_row) {
            assert(!entry_ok(es, k as int, len as int, max_row as int));
            return Err(ParseError::UnexpectedTree);
        }
        let parent = if k == 0 {
            if depth != 0 {
                assert(!entry_ok(es, k as int, len as int, max_row as int));
                return Err(ParseError::UnexpectedTree);
            }
            None
        } else {
            if depth == 0 || depth > last.len() {
                assert(!entry_ok(es, k as int, len as int, max_row as int));
                return Err(ParseError::UnexpectedTree);
            }
            Some(last[depth - 1])
        };
        let field = match raw.field {
            Some(f) => Some(classify_field(f)),
            None => None,
        };
        let node = SyntaxNode {
            kind: classify_kind(raw.kind),
            field,
            named: raw.named,
            start_byte: raw.start_byte,
            end_byte: raw.end_byte,
            start_row: raw.start_row,
            end_row: raw.end_row,
            depth,
            parent,
        };
        assert(node == syntax_node(es, k as int));
        nodes.push(node);
        let ghost old_last = last@;
        while last.len() > depth
            invariant
                depth <= last@.len() <= old_last.len(),
                forall|d: int| 0 <= d < last@.len() ==> #[trigger] last@[d] == old_last[d],
            decreases last@.len(),
        {
            last.pop();
        }
        last.push(k);
        assert forall|d: int| 0 <= d < last@.len() implies last_at(es, d, k + 1) == Some(
            #[trigger] last@[d] as int,
        ) by {
            if d < depth {
                assert(last@[d] == old_last[d]);
            }
        }
        k = k + 1;
    }
    assert(nodes@ =~= syntax_nodes(es));
    proof {
        lemma_entries_wf(es, len as int, max_row as int);
    }
    Ok(SyntaxTree { nodes })
}

} // verus!
