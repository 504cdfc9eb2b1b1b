//! The language extractors and the classification tables they use to turn
//! source syntax into database kinds.

use vstd::prelude::*;
use crate::text::{chars_of, string_of, str_eq, trim, trim_chars, has_prefix, starts_with_chars, sub_chars,
    find_char, first_index_of, contains_sub, str_contains, trim_start, trim_start_chars};
use crate::syntax::{expression_kind, find_operator, is_expression_node, operator_of, SyntaxNode};

verus! {

/// Extracts JavaScript sources.
pub struct JavaScriptExtractor;

impl JavaScriptExtractor {
    pub fn new() -> (r: JavaScriptExtractor) {
        JavaScriptExtractor
    }

    /// The file extensions this extractor handles.
    pub fn extensions(&self) -> (r: Vec<&'static str>)
        ensures
            r@.map_values(|x: &str| x@) == seq!["js"@, "mjs"@, "cjs"@, "jsx"@],
    {
        let r = vec!["js", "mjs", "cjs", "jsx"];
        assert(r@.map_values(|x: &str| x@) =~= seq!["js"@, "mjs"@, "cjs"@, "jsx"@]);
        r
    }
}

/// Extracts TypeScript sources, sharing the JavaScript extraction and adding
/// type annotations, interfaces, enums, type aliases and decorators.
pub struct TypeScriptExtractor;

impl TypeScriptExtractor {
    pub fn new() -> (r: TypeScriptExtractor) {
        TypeScriptExtractor
    }

    /// The file extensions this extractor handles.
    pub fn extensions(&self) -> (r: Vec<&'static str>)
        ensures
            r@.map_values(|x: &str| x@) == seq!["ts"@, "mts"@, "cts"@, "tsx"@],
    {
        let r = vec!["ts", "mts", "cts", "tsx"];
        assert(r@.map_values(|x: &str| x@) =~= seq!["ts"@, "mts"@, "cts"@, "tsx"@]);
        r
    }
}

/// Extracts Python sources.
pub struct PythonExtractor;

impl PythonExtractor {
    pub fn new() -> (r: PythonExtractor) {
        PythonExtractor
    }

    /// The file extensions this extractor handles.
    pub fn extensions(&self) -> (r: Vec<&'static str>)
        ensures
            r@.map_values(|x: &str| x@) == seq!["py"@],
    {
        let r = vec!["py"];
        assert(r@.map_values(|x: &str| x@) =~= seq!["py"@]);
        r
    }
}

/// Extracts Ruby sources.
pub struct RubyExtractor;

impl RubyExtractor {
    pub fn new() -> (r: RubyExtractor) {
        RubyExtractor
    }

    /// The file extensions this extractor handles.
    pub fn extensions(&self) -> (r: Vec<&'static str>)
        ensures
            r@.map_values(|x: &str| x@) == seq!["rb"@, "rake"@, "gemspec"@],
    {
        let r = vec!["rb", "rake", "gemspec"];
        assert(r@.map_values(|x: &str| x@) =~= seq!["rb"@, "rake"@, "gemspec"@]);
        r
    }
}

/// Extracts Rust sources.
pub struct RustExtractor;

impl RustExtractor {
    pub fn new() -> (r: RustExtractor) {
        RustExtractor
    }

    /// The file extensions this extractor handles.
    pub fn extensions(&self) -> (r: Vec<&'static str>)
        ensures
            r@.map_values(|x: &str| x@) == seq!["rs"@],
    {
        let r = vec!["rs"];
        assert(r@.map_values(|x: &str| x@) =~= seq!["rs"@]);
        r
    }
}

/// Extracts Swift sources.
pub struct SwiftExtractor;

impl SwiftExtractor {
    pub fn new() -> (r: SwiftExtractor) {
        SwiftExtractor
    }

    /// The file extensions this extractor handles.
    pub fn extensions(&self) -> (r: Vec<&'static str>)
        ensures
            r@.map_values(|x: &str| x@) == seq!["swift"@],
    {
        let r = vec!["swift"];
        assert(r@.map_values(|x: &str| x@) =~= seq!["swift"@]);
        r
    }
}

/// Expression kind of a binary operator in the JavaScript database scheme;
/// an unknown operator counts as addition.
pub open spec fn js_binary_kind(op: Seq<char>) -> i64 {
    if op == "=="@ { 23 }
    else if op == "!="@ { 24 }
    else if op == "==="@ { 25 }
    else if op == "!=="@ { 26 }
    else if op == "<"@ { 27 }
    else if op == "<="@ { 28 }
    else if op == ">"@ { 29 }
    else if op == ">="@ { 30 }
    else if op == "<<"@ { 31 }
    else if op == ">>"@ { 32 }
    else if op == ">>>"@ { 33 }
    else if op == "+"@ { 34 }
    else if op == "-"@ { 35 }
    else if op == "*"@ { 36 }
    else if op == "/"@ { 37 }
    else if op == "%"@ { 38 }
    else if op == "**"@ { 87 }
    else if op == "|"@ { 39 }
    else if op == "^"@ { 40 }
    else if op == "&"@ { 41 }
    else if op == "in"@ { 42 }
    else if op == "instanceof"@ { 43 }
    else if op == "&&"@ { 44 }
    else if op == "||"@ { 45 }
    else if op == "??"@ { 107 }
    else { 34 }
}

/// Expression kind of a binary operator.
pub fn js_binary_op_kind(op: &str) -> (r: i64)
    ensures
        r == js_binary_kind(op@),
{
    if str_eq(op, "==") { 23 }
    else if str_eq(op, "!=") { 24 }
    else if str_eq(op, "===") { 25 }
    else if str_eq(op, "!==") { 26 }
    else if str_eq(op, "<") { 27 }
    else if str_eq(op, "<=") { 28 }
    else if str_eq(op, ">") { 29 }
    else if str_eq(op, ">=") { 30 }
    else if str_eq(op, "<<") { 31 }
    else if str_eq(op, ">>") { 32 }
    else if str_eq(op, ">>>") { 33 }
    else if str_eq(op, "+") { 34 }
    else if str_eq(op, "-") { 35 }
    else if str_eq(op, "*") { 36 }
    else if str_eq(op, "/") { 37 }
    else if str_eq(op, "%") { 38 }
    else if str_eq(op, "**") { 87 }
    else if str_eq(op, "|") { 39 }
    else if str_eq(op, "^") { 40 }
    else if str_eq(op, "&") { 41 }
    else if str_eq(op, "in") { 42 }
    else if str_eq(op, "instanceof") { 43 }
    else if str_eq(op, "&&") { 44 }
    else if str_eq(op, "||") { 45 }
    else if str_eq(op, "??") { 107 }
    else { 34 }
}

/// Expression kind of an assignment operator in the JavaScript database
/// scheme; an unknown operator counts as plain assignment.
pub open spec fn js_assign_kind(op: Seq<char>) -> i64 {
    if op == "="@ { 47 }
    else if op == "+="@ { 48 }
    else if op == "-="@ { 49 }
    else if op == "*="@ { 50 }
    else if op == "/="@ { 51 }
    else if op == "%="@ { 52 }
    else if op == "**="@ { 88 }
    else if op == "<<="@ { 53 }
    else if op == ">>="@ { 54 }
    else if op == ">>>="@ { 55 }
    else if op == "|="@ { 56 }
    else if op == "^="@ { 57 }
    else if op == "&="@ { 58 }
    else { 47 }
}

/// Expression kind of an assignment operator.
pub fn js_assign_op_kind(op: &str) -> (r: i64)
    ensures
        r == js_assign_kind(op@),
{
    if str_eq(op, "=") { 47 }
    else if str_eq(op, "+=") { 48 }
    else if str_eq(op, "-=") { 49 }
    else if str_eq(op, "*=") { 50 }
    else if str_eq(op, "/=") { 51 }
    else if str_eq(op, "%=") { 52 }
    else if str_eq(op, "**=") { 88 }
    else if str_eq(op, "<<=") { 53 }
    else if str_eq(op, ">>=") { 54 }
    else if str_eq(op, ">>>=") { 55 }
    else if str_eq(op, "|=") { 56 }
    else if str_eq(op, "^=") { 57 }
    else if str_eq(op, "&=") { 58 }
    else { 47 }
}


/// Whether the text `s` begins with `p`.
pub(crate) fn str_starts_with(s: &str, p: &str) -> (r: bool)
    ensures
        r == has_prefix(s@, p@),
{
    let a = chars_of(s);
    let b = chars_of(p);
    starts_with_chars(a.as_slice(), b.as_slice())
}

/// Statement kind of a JavaScript (or, with `ts`, TypeScript) syntax node
/// in the database scheme; `None` for a node that is no statement. A
/// lexical declaration is a `const` or a `let` one by its text, an export
/// a default, star or named one.
pub open spec fn js_stmt_kind(kind: Seq<char>, text: Seq<char>, ts: bool) -> Option<i64> {
    if kind == "expression_statement"@ { Some(2) }
    else if kind == "if_statement"@ { Some(3) }
    else if kind == "for_statement"@ { Some(14) }
    else if kind == "for_in_statement"@ { Some(15) }
    else if kind == "while_statement"@ { Some(12) }
    else if kind == "do_statement"@ { Some(13) }
    else if kind == "switch_statement"@ { Some(8) }
    else if kind == "switch_case"@ || kind == "switch_default"@ { Some(19) }
    else if kind == "return_statement"@ { Some(9) }
    else if kind == "throw_statement"@ { Some(10) }
    else if kind == "break_statement"@ { Some(5) }
    else if kind == "continue_statement"@ { Some(6) }
    else if kind == "try_statement"@ { Some(11) }
    else if kind == "catch_clause"@ { Some(20) }
    else if kind == "with_statement"@ { Some(7) }
    else if kind == "labeled_statement"@ { Some(4) }
    else if kind == "variable_declaration"@ { Some(18) }
    else if kind == "lexical_declaration"@ { if has_prefix(text, "const"@) { Some(22) } else { Some(23) } }
    else if kind == "statement_block"@ { Some(1) }
    else if kind == "empty_statement"@ { Some(0) }
    else if kind == "class_declaration"@ { Some(26) }
    else if kind == "function_declaration"@ || kind == "generator_function_declaration"@ { Some(17) }
    else if kind == "import_statement"@ { Some(27) }
    else if kind == "export_statement"@ {
        if contains_sub(text, "export default"@) { Some(29) }
        else if contains_sub(text, "export *"@) { Some(28) }
        else { Some(30) }
    }
    else if kind == "debugger_statement"@ { Some(16) }
    else if ts && kind == "interface_declaration"@ { Some(34) }
    else if ts && kind == "type_alias_declaration"@ { Some(35) }
    else if ts && kind == "enum_declaration"@ { Some(36) }
    else { None }
}

/// The statement kind of a node (`js_stmt_kind`): what the statement
/// extraction records for it.
pub fn js_statement_kind(node: &SyntaxNode, is_typescript: bool) -> (r: Option<i64>)
    ensures
        r == js_stmt_kind(node.kind@, node.text@, is_typescript),
{
    let k = node.kind.as_str();
    if str_eq(k, "expression_statement") { Some(2) }
    else if str_eq(k, "if_statement") { Some(3) }
    else if str_eq(k, "for_statement") { Some(14) }
    else if str_eq(k, "for_in_statement") { Some(15) }
    else if str_eq(k, "while_statement") { Some(12) }
    else if str_eq(k, "do_statement") { Some(13) }
    else if str_eq(k, "switch_statement") { Some(8) }
    else if str_eq(k, "switch_case") || str_eq(k, "switch_default") { Some(19) }
    else if str_eq(k, "return_statement") { Some(9) }
    else if str_eq(k, "throw_statement") { Some(10) }
    else if str_eq(k, "break_statement") { Some(5) }
    else if str_eq(k, "continue_statement") { Some(6) }
    else if str_eq(k, "try_statement") { Some(11) }
    else if str_eq(k, "catch_clause") { Some(20) }
    else if str_eq(k, "with_statement") { Some(7) }
    else if str_eq(k, "labeled_statement") { Some(4) }
    else if str_eq(k, "variable_declaration") { Some(18) }
    else if str_eq(k, "lexical_declaration") {
        if str_starts_with(node.text.as_str(), "const") { Some(22) } else { Some(23) }
    }
    else if str_eq(k, "statement_block") { Some(1) }
    else if str_eq(k, "empty_statement") { Some(0) }
    else if str_eq(k, "class_declaration") { Some(26) }
    else if str_eq(k, "function_declaration") || str_eq(k, "generator_function_declaration") { Some(17) }
    else if str_eq(k, "import_statement") { Some(27) }
    else if str_eq(k, "export_statement") {
        if str_contains(node.text.as_str(), "export default") { Some(29) }
        else if str_contains(node.text.as_str(), "export *") { Some(28) }
        else { Some(30) }
    }
    else if str_eq(k, "debugger_statement") { Some(16) }
    else if is_typescript && str_eq(k, "interface_declaration") { Some(34) }
    else if is_typescript && str_eq(k, "type_alias_declaration") { Some(35) }
    else if is_typescript && str_eq(k, "enum_declaration") { Some(36) }
    else { None }
}

/// How an expression extraction treats a node: it records an expression of
/// a kind, extracts its first named child in its place, or skips it.
#[derive(Debug, PartialEq, Eq, Structural)]
pub enum ExprClass {
    Kind(i64),
    Unwrap,
    /// Its `value` child is extracted in its place.
    ValueField,
    /// Each of its named children is extracted in its place.
    EachNamed,
    Skip,
}

/// Expression kind of a unary operator; an unknown one counts as negation.
pub open spec fn js_unary_kind(op: Seq<char>) -> i64 {
    if op == "-"@ { 16 }
    else if op == "+"@ { 17 }
    else if op == "!"@ { 18 }
    else if op == "~"@ { 19 }
    else if op == "typeof"@ { 20 }
    else if op == "void"@ { 21 }
    else if op == "delete"@ { 22 }
    else { 16 }
}

/// Expression kind of an update expression by its text: an increment when
/// the text holds `++`, prefix when it begins with the operator.
pub open spec fn js_update_kind(text: Seq<char>) -> i64 {
    let prefix = has_prefix(text, "++"@) || has_prefix(text, "--"@);
    if contains_sub(text, "++"@) {
        if prefix { 59 } else { 60 }
    } else {
        if prefix { 61 } else { 62 }
    }
}

/// How a JavaScript syntax node is treated as an expression.
pub open spec fn js_expr_class(n: SyntaxNode) -> ExprClass {
    let k = n.kind@;
    if k == "identifier"@ || k == "undefined"@ { ExprClass::Kind(79) }
    else if k == "this"@ { ExprClass::Kind(6) }
    else if k == "super"@ { ExprClass::Kind(81) }
    else if k == "null"@ { ExprClass::Kind(1) }
    else if k == "true"@ || k == "false"@ { ExprClass::Kind(2) }
    else if k == "number"@ { ExprClass::Kind(3) }
    else if k == "string"@ || k == "string_fragment"@ { ExprClass::Kind(4) }
    else if k == "regex"@ { ExprClass::Kind(5) }
    else if k == "template_string"@ { ExprClass::Kind(71) }
    else if k == "template_substitution"@ { ExprClass::Kind(72) }
    else if k == "array"@ { ExprClass::Kind(7) }
    else if k == "object"@ { ExprClass::Kind(8) }
    else if k == "function"@ || k == "generator_function"@ { ExprClass::Kind(9) }
    else if k == "arrow_function"@ { ExprClass::Kind(65) }
    else if k == "class"@ { ExprClass::Kind(80) }
    else if k == "call_expression"@ { ExprClass::Kind(13) }
    else if k == "new_expression"@ { ExprClass::Kind(12) }
    else if k == "member_expression"@ { ExprClass::Kind(14) }
    else if k == "subscript_expression"@ { ExprClass::Kind(15) }
    else if k == "assignment_expression"@ || k == "augmented_assignment_expression"@ {
        ExprClass::Kind(js_assign_kind(operator_of(n)))
    }
    else if k == "update_expression"@ { ExprClass::Kind(js_update_kind(n.text@)) }
    else if k == "binary_expression"@ { ExprClass::Kind(js_binary_kind(operator_of(n))) }
    else if k == "unary_expression"@ { ExprClass::Kind(js_unary_kind(operator_of(n))) }
    else if k == "ternary_expression"@ { ExprClass::Kind(11) }
    else if k == "sequence_expression"@ { ExprClass::Kind(10) }
    else if k == "yield_expression"@ { ExprClass::Kind(69) }
    else if k == "await_expression"@ { ExprClass::Kind(92) }
    else if k == "spread_element"@ { ExprClass::Kind(66) }
    else if k == "tagged_template_expression"@ { ExprClass::Kind(70) }
    else if k == "parenthesized_expression"@ || k == "optional_chain_expression"@ { ExprClass::Unwrap }
    else if k == "array_pattern"@ { ExprClass::Kind(67) }
    else if k == "object_pattern"@ { ExprClass::Kind(68) }
    else { ExprClass::Skip }
}

fn js_unary_op_kind(op: &str) -> (r: i64)
    ensures
        r == js_unary_kind(op@),
{
    if str_eq(op, "-") { 16 }
    else if str_eq(op, "+") { 17 }
    else if str_eq(op, "!") { 18 }
    else if str_eq(op, "~") { 19 }
    else if str_eq(op, "typeof") { 20 }
    else if str_eq(op, "void") { 21 }
    else if str_eq(op, "delete") { 22 }
    else { 16 }
}

/// How the expression extraction treats a node (`js_expr_class`).
pub fn classify_js_expression(node: &SyntaxNode) -> (r: ExprClass)
    ensures
        r == js_expr_class(*node),
{
    let k = node.kind.as_str();
    if str_eq(k, "identifier") || str_eq(k, "undefined") { ExprClass::Kind(79) }
    else if str_eq(k, "this") { ExprClass::Kind(6) }
    else if str_eq(k, "super") { ExprClass::Kind(81) }
    else if str_eq(k, "null") { ExprClass::Kind(1) }
    else if str_eq(k, "true") || str_eq(k, "false") { ExprClass::Kind(2) }
    else if str_eq(k, "number") { ExprClass::Kind(3) }
    else if str_eq(k, "string") || str_eq(k, "string_fragment") { ExprClass::Kind(4) }
    else if str_eq(k, "regex") { ExprClass::Kind(5) }
    else if str_eq(k, "template_string") { ExprClass::Kind(71) }
    else if str_eq(k, "template_substitution") { ExprClass::Kind(72) }
    else if str_eq(k, "array") { ExprClass::Kind(7) }
    else if str_eq(k, "object") { ExprClass::Kind(8) }
    else if str_eq(k, "function") || str_eq(k, "generator_function") { ExprClass::Kind(9) }
    else if str_eq(k, "arrow_function") { ExprClass::Kind(65) }
    else if str_eq(k, "class") { ExprClass::Kind(80) }
    else if str_eq(k, "call_expression") { ExprClass::Kind(13) }
    else if str_eq(k, "new_expression") { ExprClass::Kind(12) }
    else if str_eq(k, "member_expression") { ExprClass::Kind(14) }
    else if str_eq(k, "subscript_expression") { ExprClass::Kind(15) }
    else if str_eq(k, "assignment_expression") || str_eq(k, "augmented_assignment_expression") {
        let op = find_operator(node);
        ExprClass::Kind(js_assign_op_kind(op.as_str()))
    }
    else if str_eq(k, "update_expression") {
        let t = node.text.as_str();
        let prefix = str_starts_with(t, "++") || str_starts_with(t, "--");
        if str_contains(t, "++") {
            ExprClass::Kind(if prefix { 59 } else { 60 })
        } else {
            ExprClass::Kind(if prefix { 61 } else { 62 })
        }
    }
    else if str_eq(k, "binary_expression") {
        let op = find_operator(node);
        ExprClass::Kind(js_binary_op_kind(op.as_str()))
    }
    else if str_eq(k, "unary_expression") {
        let op = find_operator(node);
        ExprClass::Kind(js_unary_op_kind(op.as_str()))
    }
    else if str_eq(k, "ternary_expression") { ExprClass::Kind(11) }
    else if str_eq(k, "sequence_expression") { ExprClass::Kind(10) }
    else if str_eq(k, "yield_expression") { ExprClass::Kind(69) }
    else if str_eq(k, "await_expression") { ExprClass::Kind(92) }
    else if str_eq(k, "spread_element") { ExprClass::Kind(66) }
    else if str_eq(k, "tagged_template_expression") { ExprClass::Kind(70) }
    else if str_eq(k, "parenthesized_expression") || str_eq(k, "optional_chain_expression") { ExprClass::Unwrap }
    else if str_eq(k, "array_pattern") { ExprClass::Kind(67) }
    else if str_eq(k, "object_pattern") { ExprClass::Kind(68) }
    else { ExprClass::Skip }
}


/// Statement kind of a Python syntax node in the database scheme; `None`
/// for a node that is no statement.
pub open spec fn py_stmt_kind(kind: Seq<char>) -> Option<i64> {
    if kind == "expression_statement"@ { Some(13) }
    else if kind == "return_statement"@ { Some(1) }
    else if kind == "if_statement"@ { Some(2) }
    else if kind == "for_statement"@ { Some(3) }
    else if kind == "while_statement"@ { Some(4) }
    else if kind == "with_statement"@ { Some(5) }
    else if kind == "try_statement"@ { Some(6) }
    else if kind == "raise_statement"@ { Some(7) }
    else if kind == "pass_statement"@ { Some(9) }
    else if kind == "break_statement"@ { Some(10) }
    else if kind == "continue_statement"@ { Some(11) }
    else if kind == "assert_statement"@ { Some(12) }
    else if kind == "delete_statement"@ { Some(14) }
    else if kind == "global_statement"@ { Some(15) }
    else if kind == "nonlocal_statement"@ { Some(16) }
    else if kind == "match_statement"@ { Some(19) }
    else if kind == "assignment"@ { Some(0) }
    else if kind == "augmented_assignment"@ { Some(20) }
    else { None }
}

/// The statement kind of a Python node (`py_stmt_kind`).
pub fn py_statement_kind(node: &SyntaxNode) -> (r: Option<i64>)
    ensures
        r == py_stmt_kind(node.kind@),
{
    let k = node.kind.as_str();
    if str_eq(k, "expression_statement") { Some(13) }
    else if str_eq(k, "return_statement") { Some(1) }
    else if str_eq(k, "if_statement") { Some(2) }
    else if str_eq(k, "for_statement") { Some(3) }
    else if str_eq(k, "while_statement") { Some(4) }
    else if str_eq(k, "with_statement") { Some(5) }
    else if str_eq(k, "try_statement") { Some(6) }
    else if str_eq(k, "raise_statement") { Some(7) }
    else if str_eq(k, "pass_statement") { Some(9) }
    else if str_eq(k, "break_statement") { Some(10) }
    else if str_eq(k, "continue_statement") { Some(11) }
    else if str_eq(k, "assert_statement") { Some(12) }
    else if str_eq(k, "delete_statement") { Some(14) }
    else if str_eq(k, "global_statement") { Some(15) }
    else if str_eq(k, "nonlocal_statement") { Some(16) }
    else if str_eq(k, "match_statement") { Some(19) }
    else if str_eq(k, "assignment") { Some(0) }
    else if str_eq(k, "augmented_assignment") { Some(20) }
    else { None }
}

/// How the Python expression extraction treats a node: an expression of a
/// kind, its first named child extracted in its place (parentheses), or
/// skipped.
pub open spec fn py_expr_class(kind: Seq<char>) -> ExprClass {
    if kind == "parenthesized_expression"@ { ExprClass::Unwrap }
    else if kind == "call"@ { ExprClass::Kind(0) }
    else if kind == "attribute"@ { ExprClass::Kind(1) }
    else if kind == "identifier"@ { ExprClass::Kind(2) }
    else if kind == "integer"@ { ExprClass::Kind(3) }
    else if kind == "float"@ { ExprClass::Kind(4) }
    else if kind == "string"@ { ExprClass::Kind(5) }
    else if kind == "list"@ { ExprClass::Kind(6) }
    else if kind == "dictionary"@ { ExprClass::Kind(7) }
    else if kind == "tuple"@ { ExprClass::Kind(8) }
    else if kind == "set"@ { ExprClass::Kind(9) }
    else if kind == "binary_operator"@ { ExprClass::Kind(10) }
    else if kind == "unary_operator"@ { ExprClass::Kind(11) }
    else if kind == "boolean_operator"@ { ExprClass::Kind(12) }
    else if kind == "comparison_operator"@ { ExprClass::Kind(13) }
    else if kind == "subscript"@ { ExprClass::Kind(14) }
    else if kind == "starred_expression"@ { ExprClass::Kind(15) }
    else if kind == "yield"@ { ExprClass::Kind(16) }
    else if kind == "await"@ { ExprClass::Kind(17) }
    else if kind == "lambda"@ { ExprClass::Kind(18) }
    else if kind == "conditional_expression"@ { ExprClass::Kind(19) }
    else if kind == "list_comprehension"@ { ExprClass::Kind(20) }
    else if kind == "set_comprehension"@ { ExprClass::Kind(21) }
    else if kind == "dictionary_comprehension"@ { ExprClass::Kind(22) }
    else if kind == "generator_expression"@ { ExprClass::Kind(23) }
    else if kind == "concatenated_string"@ { ExprClass::Kind(30) }
    else if kind == "none"@ { ExprClass::Kind(25) }
    else if kind == "true"@ { ExprClass::Kind(26) }
    else if kind == "false"@ { ExprClass::Kind(27) }
    else if kind == "ellipsis"@ { ExprClass::Kind(28) }
    else if kind == "named_expression"@ { ExprClass::Kind(29) }
    else if kind == "slice"@ { ExprClass::Kind(31) }
    else if kind == "keyword_argument"@ { ExprClass::Kind(32) }
    else if kind == "pair"@ { ExprClass::Kind(33) }
    else { ExprClass::Skip }
}

/// How the Python expression extraction treats a node (`py_expr_class`).
pub fn classify_py_expression(node: &SyntaxNode) -> (r: ExprClass)
    ensures
        r == py_expr_class(node.kind@),
{
    let k = node.kind.as_str();
    if str_eq(k, "parenthesized_expression") { ExprClass::Unwrap }
    else if str_eq(k, "call") { ExprClass::Kind(0) }
    else if str_eq(k, "attribute") { ExprClass::Kind(1) }
    else if str_eq(k, "identifier") { ExprClass::Kind(2) }
    else if str_eq(k, "integer") { ExprClass::Kind(3) }
    else if str_eq(k, "float") { ExprClass::Kind(4) }
    else if str_eq(k, "string") { ExprClass::Kind(5) }
    else if str_eq(k, "list") { ExprClass::Kind(6) }
    else if str_eq(k, "dictionary") { ExprClass::Kind(7) }
    else if str_eq(k, "tuple") { ExprClass::Kind(8) }
    else if str_eq(k, "set") { ExprClass::Kind(9) }
    else if str_eq(k, "binary_operator") { ExprClass::Kind(10) }
    else if str_eq(k, "unary_operator") { ExprClass::Kind(11) }
    else if str_eq(k, "boolean_operator") { ExprClass::Kind(12) }
    else if str_eq(k, "comparison_operator") { ExprClass::Kind(13) }
    else if str_eq(k, "subscript") { ExprClass::Kind(14) }
    else if str_eq(k, "starred_expression") { ExprClass::Kind(15) }
    else if str_eq(k, "yield") { ExprClass::Kind(16) }
    else if str_eq(k, "await") { ExprClass::Kind(17) }
    else if str_eq(k, "lambda") { ExprClass::Kind(18) }
    else if str_eq(k, "conditional_expression") { ExprClass::Kind(19) }
    else if str_eq(k, "list_comprehension") { ExprClass::Kind(20) }
    else if str_eq(k, "set_comprehension") { ExprClass::Kind(21) }
    else if str_eq(k, "dictionary_comprehension") { ExprClass::Kind(22) }
    else if str_eq(k, "generator_expression") { ExprClass::Kind(23) }
    else if str_eq(k, "concatenated_string") { ExprClass::Kind(30) }
    else if str_eq(k, "none") { ExprClass::Kind(25) }
    else if str_eq(k, "true") { ExprClass::Kind(26) }
    else if str_eq(k, "false") { ExprClass::Kind(27) }
    else if str_eq(k, "ellipsis") { ExprClass::Kind(28) }
    else if str_eq(k, "named_expression") { ExprClass::Kind(29) }
    else if str_eq(k, "slice") { ExprClass::Kind(31) }
    else if str_eq(k, "keyword_argument") { ExprClass::Kind(32) }
    else if str_eq(k, "pair") { ExprClass::Kind(33) }
    else { ExprClass::Skip }
}

/// Statement kind of a Rust syntax node in the database scheme; `None` for
/// a node that is no statement (nested items are extracted as items).
pub open spec fn rust_stmt_kind(kind: Seq<char>) -> Option<i64> {
    if kind == "let_declaration"@ { Some(0) }
    else if kind == "expression_statement"@ { Some(1) }
    else if kind == "return_expression"@ { Some(2) }
    else if kind == "if_expression"@ { Some(3) }
    else if kind == "match_expression"@ { Some(4) }
    else if kind == "loop_expression"@ { Some(5) }
    else if kind == "while_expression"@ { Some(6) }
    else if kind == "for_expression"@ { Some(7) }
    else if kind == "block"@ { Some(8) }
    else { None }
}

/// The statement kind of a Rust node (`rust_stmt_kind`).
pub fn rust_statement_kind(node: &SyntaxNode) -> (r: Option<i64>)
    ensures
        r == rust_stmt_kind(node.kind@),
{
    let k = node.kind.as_str();
    if str_eq(k, "let_declaration") { Some(0) }
    else if str_eq(k, "expression_statement") { Some(1) }
    else if str_eq(k, "return_expression") { Some(2) }
    else if str_eq(k, "if_expression") { Some(3) }
    else if str_eq(k, "match_expression") { Some(4) }
    else if str_eq(k, "loop_expression") { Some(5) }
    else if str_eq(k, "while_expression") { Some(6) }
    else if str_eq(k, "for_expression") { Some(7) }
    else if str_eq(k, "block") { Some(8) }
    else { None }
}

/// How the Rust expression extraction treats a node: a cast is replaced by
/// its `value` child, parentheses by their first named child.
pub open spec fn rust_expr_class(kind: Seq<char>) -> ExprClass {
    if kind == "call_expression"@ { ExprClass::Kind(0) }
    else if kind == "field_expression"@ { ExprClass::Kind(2) }
    else if kind == "index_expression"@ { ExprClass::Kind(3) }
    else if kind == "identifier"@ || kind == "scoped_identifier"@ { ExprClass::Kind(4) }
    else if kind == "integer_literal"@ { ExprClass::Kind(5) }
    else if kind == "float_literal"@ { ExprClass::Kind(6) }
    else if kind == "string_literal"@ || kind == "raw_string_literal"@ { ExprClass::Kind(7) }
    else if kind == "char_literal"@ { ExprClass::Kind(8) }
    else if kind == "boolean_literal"@ { ExprClass::Kind(9) }
    else if kind == "binary_expression"@ { ExprClass::Kind(10) }
    else if kind == "unary_expression"@ { ExprClass::Kind(11) }
    else if kind == "reference_expression"@ { ExprClass::Kind(12) }
    else if kind == "try_expression"@ { ExprClass::Kind(24) }
    else if kind == "await_expression"@ { ExprClass::Kind(25) }
    else if kind == "return_expression"@ { ExprClass::Kind(26) }
    else if kind == "break_expression"@ { ExprClass::Kind(27) }
    else if kind == "continue_expression"@ { ExprClass::Kind(28) }
    else if kind == "closure_expression"@ { ExprClass::Kind(17) }
    else if kind == "if_expression"@ { ExprClass::Kind(18) }
    else if kind == "match_expression"@ { ExprClass::Kind(19) }
    else if kind == "block"@ { ExprClass::Kind(20) }
    else if kind == "tuple_expression"@ { ExprClass::Kind(21) }
    else if kind == "array_expression"@ { ExprClass::Kind(22) }
    else if kind == "struct_expression"@ { ExprClass::Kind(23) }
    else if kind == "range_expression"@ { ExprClass::Kind(16) }
    else if kind == "assignment_expression"@ { ExprClass::Kind(14) }
    else if kind == "compound_assignment_expr"@ { ExprClass::Kind(15) }
    else if kind == "macro_invocation"@ { ExprClass::Kind(29) }
    else if kind == "parenthesized_expression"@ { ExprClass::Unwrap }
    else if kind == "type_cast_expression"@ { ExprClass::ValueField }
    else { ExprClass::Skip }
}

/// How the Rust expression extraction treats a node (`rust_expr_class`).
pub fn classify_rust_expression(node: &SyntaxNode) -> (r: ExprClass)
    ensures
        r == rust_expr_class(node.kind@),
{
    let k = node.kind.as_str();
    if str_eq(k, "call_expression") { ExprClass::Kind(0) }
    else if str_eq(k, "field_expression") { ExprClass::Kind(2) }
    else if str_eq(k, "index_expression") { ExprClass::Kind(3) }
    else if str_eq(k, "identifier") || str_eq(k, "scoped_identifier") { ExprClass::Kind(4) }
    else if str_eq(k, "integer_literal") { ExprClass::Kind(5) }
    else if str_eq(k, "float_literal") { ExprClass::Kind(6) }
    else if str_eq(k, "string_literal") || str_eq(k, "raw_string_literal") { ExprClass::Kind(7) }
    else if str_eq(k, "char_literal") { ExprClass::Kind(8) }
    else if str_eq(k, "boolean_literal") { ExprClass::Kind(9) }
    else if str_eq(k, "binary_expression") { ExprClass::Kind(10) }
    else if str_eq(k, "unary_expression") { ExprClass::Kind(11) }
    else if str_eq(k, "reference_expression") { ExprClass::Kind(12) }
    else if str_eq(k, "try_expression") { ExprClass::Kind(24) }
    else if str_eq(k, "await_expression") { ExprClass::Kind(25) }
    else if str_eq(k, "return_expression") { ExprClass::Kind(26) }
    else if str_eq(k, "break_expression") { ExprClass::Kind(27) }
    else if str_eq(k, "continue_expression") { ExprClass::Kind(28) }
    else if str_eq(k, "closure_expression") { ExprClass::Kind(17) }
    else if str_eq(k, "if_expression") { ExprClass::Kind(18) }
    else if str_eq(k, "match_expression") { ExprClass::Kind(19) }
    else if str_eq(k, "block") { ExprClass::Kind(20) }
    else if str_eq(k, "tuple_expression") { ExprClass::Kind(21) }
    else if str_eq(k, "array_expression") { ExprClass::Kind(22) }
    else if str_eq(k, "struct_expression") { ExprClass::Kind(23) }
    else if str_eq(k, "range_expression") { ExprClass::Kind(16) }
    else if str_eq(k, "assignment_expression") { ExprClass::Kind(14) }
    else if str_eq(k, "compound_assignment_expr") { ExprClass::Kind(15) }
    else if str_eq(k, "macro_invocation") { ExprClass::Kind(29) }
    else if str_eq(k, "parenthesized_expression") { ExprClass::Unwrap }
    else if str_eq(k, "type_cast_expression") { ExprClass::ValueField }
    else { ExprClass::Skip }
}

/// Statement kind of a Ruby syntax node in the database scheme; `None` for
/// a node that is no statement.
pub open spec fn ruby_stmt_kind(kind: Seq<char>) -> Option<i64> {
    if kind == "if"@ { Some(0) }
    else if kind == "unless"@ { Some(1) }
    else if kind == "while"@ { Some(2) }
    else if kind == "until"@ { Some(3) }
    else if kind == "for"@ { Some(4) }
    else if kind == "case"@ { Some(5) }
    else if kind == "begin"@ { Some(6) }
    else if kind == "rescue"@ { Some(7) }
    else if kind == "ensure"@ { Some(8) }
    else if kind == "return"@ { Some(9) }
    else if kind == "break"@ { Some(10) }
    else if kind == "next"@ { Some(11) }
    else if kind == "redo"@ { Some(12) }
    else if kind == "retry"@ { Some(13) }
    else if kind == "yield"@ { Some(14) }
    else if kind == "if_modifier"@ { Some(16) }
    else if kind == "unless_modifier"@ { Some(17) }
    else if kind == "while_modifier"@ { Some(18) }
    else if kind == "until_modifier"@ { Some(19) }
    else if kind == "when"@ { Some(20) }
    else if kind == "else"@ { Some(21) }
    else { None }
}

/// The statement kind of a Ruby node (`ruby_stmt_kind`).
pub fn ruby_statement_kind(node: &SyntaxNode) -> (r: Option<i64>)
    ensures
        r == ruby_stmt_kind(node.kind@),
{
    let k = node.kind.as_str();
    if str_eq(k, "if") { Some(0) }
    else if str_eq(k, "unless") { Some(1) }
    else if str_eq(k, "while") { Some(2) }
    else if str_eq(k, "until") { Some(3) }
    else if str_eq(k, "for") { Some(4) }
    else if str_eq(k, "case") { Some(5) }
    else if str_eq(k, "begin") { Some(6) }
    else if str_eq(k, "rescue") { Some(7) }
    else if str_eq(k, "ensure") { Some(8) }
    else if str_eq(k, "return") { Some(9) }
    else if str_eq(k, "break") { Some(10) }
    else if str_eq(k, "next") { Some(11) }
    else if str_eq(k, "redo") { Some(12) }
    else if str_eq(k, "retry") { Some(13) }
    else if str_eq(k, "yield") { Some(14) }
    else if str_eq(k, "if_modifier") { Some(16) }
    else if str_eq(k, "unless_modifier") { Some(17) }
    else if str_eq(k, "while_modifier") { Some(18) }
    else if str_eq(k, "until_modifier") { Some(19) }
    else if str_eq(k, "when") { Some(20) }
    else if str_eq(k, "else") { Some(21) }
    else { None }
}

/// How the Ruby expression extraction treats a node: parenthesized
/// statements are replaced by each of their named children.
pub open spec fn ruby_expr_class(kind: Seq<char>) -> ExprClass {
    if kind == "call"@ { ExprClass::Kind(0) }
    else if kind == "identifier"@ { ExprClass::Kind(1) }
    else if kind == "integer"@ { ExprClass::Kind(2) }
    else if kind == "float"@ { ExprClass::Kind(3) }
    else if kind == "string"@ || kind == "string_content"@ { ExprClass::Kind(4) }
    else if kind == "symbol"@ || kind == "simple_symbol"@ || kind == "hash_key_symbol"@ { ExprClass::Kind(5) }
    else if kind == "array"@ { ExprClass::Kind(6) }
    else if kind == "hash"@ { ExprClass::Kind(7) }
    else if kind == "regex"@ { ExprClass::Kind(8) }
    else if kind == "range"@ { ExprClass::Kind(9) }
    else if kind == "self"@ { ExprClass::Kind(10) }
    else if kind == "nil"@ { ExprClass::Kind(11) }
    else if kind == "true"@ { ExprClass::Kind(12) }
    else if kind == "false"@ { ExprClass::Kind(13) }
    else if kind == "binary"@ { ExprClass::Kind(14) }
    else if kind == "unary"@ { ExprClass::Kind(15) }
    else if kind == "assignment"@ { ExprClass::Kind(16) }
    else if kind == "operator_assignment"@ { ExprClass::Kind(25) }
    else if kind == "element_reference"@ { ExprClass::Kind(17) }
    else if kind == "conditional"@ { ExprClass::Kind(18) }
    else if kind == "splat_argument"@ { ExprClass::Kind(19) }
    else if kind == "block_argument"@ { ExprClass::Kind(20) }
    else if kind == "lambda"@ { ExprClass::Kind(21) }
    else if kind == "heredoc_body"@ { ExprClass::Kind(22) }
    else if kind == "interpolation"@ { ExprClass::Kind(23) }
    else if kind == "constant"@ || kind == "scope_resolution"@ { ExprClass::Kind(24) }
    else if kind == "pair"@ { ExprClass::Kind(26) }
    else if kind == "parenthesized_statements"@ { ExprClass::EachNamed }
    else { ExprClass::Skip }
}

/// How the Ruby expression extraction treats a node (`ruby_expr_class`).
pub fn classify_ruby_expression(node: &SyntaxNode) -> (r: ExprClass)
    ensures
        r == ruby_expr_class(node.kind@),
{
    let k = node.kind.as_str();
    if str_eq(k, "call") { ExprClass::Kind(0) }
    else if str_eq(k, "identifier") { ExprClass::Kind(1) }
    else if str_eq(k, "integer") { ExprClass::Kind(2) }
    else if str_eq(k, "float") { ExprClass::Kind(3) }
    else if str_eq(k, "string") || str_eq(k, "string_content") { ExprClass::Kind(4) }
    else if str_eq(k, "symbol") || str_eq(k, "simple_symbol") || str_eq(k, "hash_key_symbol") { ExprClass::Kind(5) }
    else if str_eq(k, "array") { ExprClass::Kind(6) }
    else if str_eq(k, "hash") { ExprClass::Kind(7) }
    else if str_eq(k, "regex") { ExprClass::Kind(8) }
    else if str_eq(k, "range") { ExprClass::Kind(9) }
    else if str_eq(k, "self") { ExprClass::Kind(10) }
    else if str_eq(k, "nil") { ExprClass::Kind(11) }
    else if str_eq(k, "true") { ExprClass::Kind(12) }
    else if str_eq(k, "false") { ExprClass::Kind(13) }
    else if str_eq(k, "binary") { ExprClass::Kind(14) }
    else if str_eq(k, "unary") { ExprClass::Kind(15) }
    else if str_eq(k, "assignment") { ExprClass::Kind(16) }
    else if str_eq(k, "operator_assignment") { ExprClass::Kind(25) }
    else if str_eq(k, "element_reference") { ExprClass::Kind(17) }
    else if str_eq(k, "conditional") { ExprClass::Kind(18) }
    else if str_eq(k, "splat_argument") { ExprClass::Kind(19) }
    else if str_eq(k, "block_argument") { ExprClass::Kind(20) }
    else if str_eq(k, "lambda") { ExprClass::Kind(21) }
    else if str_eq(k, "heredoc_body") { ExprClass::Kind(22) }
    else if str_eq(k, "interpolation") { ExprClass::Kind(23) }
    else if str_eq(k, "constant") || str_eq(k, "scope_resolution") { ExprClass::Kind(24) }
    else if str_eq(k, "pair") { ExprClass::Kind(26) }
    else if str_eq(k, "parenthesized_statements") { ExprClass::EachNamed }
    else { ExprClass::Skip }
}

/// The statement kind of a control transfer by its leading keyword (a
/// return when none matches).
pub open spec fn swift_transfer_kind(t: Seq<char>) -> i64 {
    if has_prefix(t, "return"@) { 6 }
    else if has_prefix(t, "throw"@) { 7 }
    else if has_prefix(t, "break"@) { 8 }
    else if has_prefix(t, "continue"@) { 9 }
    else { 6 }
}

fn swift_transfer_kind_chars(t: &[char]) -> (r: i64)
    ensures
        r == swift_transfer_kind(t@),
{
    let a = chars_of("return");
    let b = chars_of("throw");
    let c = chars_of("break");
    let d = chars_of("continue");
    if starts_with_chars(t, a.as_slice()) { 6 }
    else if starts_with_chars(t, b.as_slice()) { 7 }
    else if starts_with_chars(t, c.as_slice()) { 8 }
    else if starts_with_chars(t, d.as_slice()) { 9 }
    else { 6 }
}

/// Statement kind of a Swift syntax node in the database scheme: a control
/// transfer by its leading keyword, any other expression node an
/// expression statement; `None` for a property declaration (extracted as a
/// local variable) and for what is no statement.
pub open spec fn swift_stmt_kind(kind: Seq<char>, text: Seq<char>) -> Option<i64> {
    if kind == "if_statement"@ { Some(0) }
    else if kind == "guard_statement"@ { Some(1) }
    else if kind == "switch_statement"@ { Some(2) }
    else if kind == "for_statement"@ || kind == "for_in_statement"@ { Some(3) }
    else if kind == "while_statement"@ { Some(4) }
    else if kind == "repeat_while_statement"@ { Some(5) }
    else if kind == "return_statement"@ { Some(6) }
    else if kind == "control_transfer_statement"@ { Some(swift_transfer_kind(trim_start(text))) }
    else if kind == "throw_statement"@ { Some(7) }
    else if kind == "break_statement"@ { Some(8) }
    else if kind == "continue_statement"@ { Some(9) }
    else if kind == "defer_statement"@ { Some(10) }
    else if kind == "do_statement"@ { Some(11) }
    else if kind == "property_declaration"@ { None }
    else if expression_kind(kind) { Some(12) }
    else { None }
}

/// The statement kind of a Swift node (`swift_stmt_kind`).
pub fn swift_statement_kind(node: &SyntaxNode) -> (r: Option<i64>)
    ensures
        r == swift_stmt_kind(node.kind@, node.text@),
{
    let k = node.kind.as_str();
    if str_eq(k, "if_statement") { Some(0) }
    else if str_eq(k, "guard_statement") { Some(1) }
    else if str_eq(k, "switch_statement") { Some(2) }
    else if str_eq(k, "for_statement") || str_eq(k, "for_in_statement") { Some(3) }
    else if str_eq(k, "while_statement") { Some(4) }
    else if str_eq(k, "repeat_while_statement") { Some(5) }
    else if str_eq(k, "return_statement") { Some(6) }
    else if str_eq(k, "control_transfer_statement") {
        let t = chars_of(node.text.as_str());
        let ts = trim_start_chars(t.as_slice());
        Some(swift_transfer_kind_chars(ts.as_slice()))
    }
    else if str_eq(k, "throw_statement") { Some(7) }
    else if str_eq(k, "break_statement") { Some(8) }
    else if str_eq(k, "continue_statement") { Some(9) }
    else if str_eq(k, "defer_statement") { Some(10) }
    else if str_eq(k, "do_statement") { Some(11) }
    else if str_eq(k, "property_declaration") { None }
    else if is_expression_node(node) { Some(12) }
    else { None }
}

/// Whether an infix expression's text is an assignment: it holds ` = ` and
/// none of `==`, `!=`, `<=`, `>=`.
pub open spec fn swift_infix_assigns(t: Seq<char>) -> bool {
    contains_sub(t, " = "@) && !contains_sub(t, "=="@) && !contains_sub(t, "!="@) && !contains_sub(t, "<="@)
        && !contains_sub(t, ">="@)
}

/// How the Swift expression extraction treats a node: an infix expression
/// is an assignment or a binary expression by its text.
pub open spec fn swift_expr_class(kind: Seq<char>, text: Seq<char>) -> ExprClass {
    if kind == "call_expression"@ { ExprClass::Kind(0) }
    else if kind == "navigation_expression"@ { ExprClass::Kind(1) }
    else if kind == "subscript_expression"@ { ExprClass::Kind(2) }
    else if kind == "simple_identifier"@ { ExprClass::Kind(3) }
    else if kind == "integer_literal"@ { ExprClass::Kind(4) }
    else if kind == "real_literal"@ { ExprClass::Kind(5) }
    else if kind == "line_string_literal"@ || kind == "multiline_string_literal"@ || kind == "raw_string_literal"@ { ExprClass::Kind(6) }
    else if kind == "boolean_literal"@ { ExprClass::Kind(7) }
    else if kind == "nil"@ { ExprClass::Kind(8) }
    else if kind == "array_literal"@ { ExprClass::Kind(9) }
    else if kind == "dictionary_literal"@ { ExprClass::Kind(10) }
    else if kind == "tuple_expression"@ { ExprClass::Kind(11) }
    else if kind == "infix_expression"@ {
        if swift_infix_assigns(text) { ExprClass::Kind(15) } else { ExprClass::Kind(12) }
    }
    else if kind == "prefix_expression"@ { ExprClass::Kind(13) }
    else if kind == "postfix_expression"@ { ExprClass::Kind(14) }
    else if kind == "directly_assignable_expression"@ || kind == "assignment"@ { ExprClass::Kind(15) }
    else if kind == "ternary_expression"@ { ExprClass::Kind(16) }
    else if kind == "try_expression"@ { ExprClass::Kind(17) }
    else if kind == "await_expression"@ { ExprClass::Kind(18) }
    else if kind == "lambda_literal"@ || kind == "closure_expression"@ { ExprClass::Kind(19) }
    else if kind == "is_expression"@ || kind == "check_expression"@ { ExprClass::Kind(20) }
    else if kind == "as_expression"@ { ExprClass::Kind(21) }
    else if kind == "optional_chaining_expression"@ { ExprClass::Kind(22) }
    else if kind == "forced_value_expression"@ || kind == "force_unwrap_expression"@ { ExprClass::Kind(23) }
    else if kind == "interpolated_expression"@ { ExprClass::Kind(24) }
    else if kind == "key_path_expression"@ { ExprClass::Kind(25) }
    else if kind == "parenthesized_expression"@ { ExprClass::Unwrap }
    else if kind == "interpolation"@ { ExprClass::Kind(24) }
    else { ExprClass::Skip }
}

/// How the Swift expression extraction treats a node (`swift_expr_class`).
pub fn classify_swift_expression(node: &SyntaxNode) -> (r: ExprClass)
    ensures
        r == swift_expr_class(node.kind@, node.text@),
{
    let k = node.kind.as_str();
    if str_eq(k, "call_expression") { ExprClass::Kind(0) }
    else if str_eq(k, "navigation_expression") { ExprClass::Kind(1) }
    else if str_eq(k, "subscript_expression") { ExprClass::Kind(2) }
    else if str_eq(k, "simple_identifier") { ExprClass::Kind(3) }
    else if str_eq(k, "integer_literal") { ExprClass::Kind(4) }
    else if str_eq(k, "real_literal") { ExprClass::Kind(5) }
    else if str_eq(k, "line_string_literal") || str_eq(k, "multiline_string_literal") || str_eq(k, "raw_string_literal") { ExprClass::Kind(6) }
    else if str_eq(k, "boolean_literal") { ExprClass::Kind(7) }
    else if str_eq(k, "nil") { ExprClass::Kind(8) }
    else if str_eq(k, "array_literal") { ExprClass::Kind(9) }
    else if str_eq(k, "dictionary_literal") { ExprClass::Kind(10) }
    else if str_eq(k, "tuple_expression") { ExprClass::Kind(11) }
    else if str_eq(k, "infix_expression") {
        let t = node.text.as_str();
        if str_contains(t, " = ") && !str_contains(t, "==") && !str_contains(t, "!=") && !str_contains(t, "<=")
            && !str_contains(t, ">=") {
            ExprClass::Kind(15)
        } else {
            ExprClass::Kind(12)
        }
    }
    else if str_eq(k, "prefix_expression") { ExprClass::Kind(13) }
    else if str_eq(k, "postfix_expression") { ExprClass::Kind(14) }
    else if str_eq(k, "directly_assignable_expression") || str_eq(k, "assignment") { ExprClass::Kind(15) }
    else if str_eq(k, "ternary_expression") { ExprClass::Kind(16) }
    else if str_eq(k, "try_expression") { ExprClass::Kind(17) }
    else if str_eq(k, "await_expression") { ExprClass::Kind(18) }
    else if str_eq(k, "lambda_literal") || str_eq(k, "closure_expression") { ExprClass::Kind(19) }
    else if str_eq(k, "is_expression") || str_eq(k, "check_expression") { ExprClass::Kind(20) }
    else if str_eq(k, "as_expression") { ExprClass::Kind(21) }
    else if str_eq(k, "optional_chaining_expression") { ExprClass::Kind(22) }
    else if str_eq(k, "forced_value_expression") || str_eq(k, "force_unwrap_expression") { ExprClass::Kind(23) }
    else if str_eq(k, "interpolated_expression") { ExprClass::Kind(24) }
    else if str_eq(k, "key_path_expression") { ExprClass::Kind(25) }
    else if str_eq(k, "parenthesized_expression") { ExprClass::Unwrap }
    else if str_eq(k, "interpolation") { ExprClass::Kind(24) }
    else { ExprClass::Skip }
}

/// The Swift declaration modifiers.
pub open spec fn swift_modifier(t: Seq<char>) -> bool {
    ||| t == "public"@
    ||| t == "private"@
    ||| t == "fileprivate"@
    ||| t == "internal"@
    ||| t == "open"@
    ||| t == "static"@
    ||| t == "class"@
    ||| t == "final"@
    ||| t == "override"@
    ||| t == "required"@
    ||| t == "convenience"@
    ||| t == "lazy"@
    ||| t == "weak"@
    ||| t == "unowned"@
    ||| t == "mutating"@
    ||| t == "nonmutating"@
    ||| t == "optional"@
    ||| t == "indirect"@
    ||| t == "dynamic"@
    ||| t == "prefix"@
    ||| t == "postfix"@
    ||| t == "infix"@
    ||| t == "nonisolated"@
    ||| t == "async"@
    ||| t == "rethrows"@
    ||| t == "throws"@
}

/// Whether a word is a Swift declaration modifier.
pub fn is_swift_modifier(text: &str) -> (r: bool)
    ensures
        r == swift_modifier(text@),
{
    str_eq(text, "public") || str_eq(text, "private") || str_eq(text, "fileprivate") || str_eq(text, "internal")
        || str_eq(text, "open") || str_eq(text, "static") || str_eq(text, "class") || str_eq(text, "final")
        || str_eq(text, "override") || str_eq(text, "required") || str_eq(text, "convenience") || str_eq(
        text,
        "lazy",
    ) || str_eq(text, "weak") || str_eq(text, "unowned") || str_eq(text, "mutating") || str_eq(
        text,
        "nonmutating",
    ) || str_eq(text, "optional") || str_eq(text, "indirect") || str_eq(text, "dynamic") || str_eq(
        text,
        "prefix",
    ) || str_eq(text, "postfix") || str_eq(text, "infix") || str_eq(text, "nonisolated") || str_eq(
        text,
        "async",
    ) || str_eq(text, "rethrows") || str_eq(text, "throws")
}

/// The part of `s` before its first `(`, trimmed.
pub open spec fn before_paren(s: Seq<char>) -> Seq<char> {
    match first_index_of(s, '(') {
        Some(i) => trim(s.take(i)),
        None => trim(s),
    }
}

/// The name of a Rust attribute: the text inside `#[..]` or `#![..]`, up to
/// its first parenthesis, trimmed.
pub open spec fn attribute_name(text: Seq<char>) -> Seq<char> {
    let s = trim(text);
    let inner = if has_prefix(s, "#!["@) {
        s.subrange(3, s.len() - 1)
    } else if has_prefix(s, "#["@) {
        s.subrange(2, s.len() - 1)
    } else {
        s
    };
    before_paren(inner)
}

/// An attribute's brackets can be cut off: after an opening `#[` or `#![`
/// there is at least one more character, and the last one is ASCII.
pub open spec fn attribute_text_ok(text: Seq<char>) -> bool {
    let s = trim(text);
    &&& has_prefix(s, "#!["@) ==> s.len() >= 4 && (s.last() as u32) < 0x80
    &&& (!has_prefix(s, "#!["@) && has_prefix(s, "#["@)) ==> s.len() >= 3 && (s.last() as u32) < 0x80
}

/// The name of a Rust attribute (`attribute_name`).
pub fn extract_attribute_name(text: &str) -> (r: String)
    requires
        attribute_text_ok(text@),
    ensures
        r@ == attribute_name(text@),
{
    let raw = chars_of(text);
    let s = trim_chars(raw.as_slice());
    let p3 = chars_of("#![");
    let p2 = chars_of("#[");
    proof {
        reveal_strlit("#![");
        reveal_strlit("#[");
    }
    let inner = if starts_with_chars(s.as_slice(), p3.as_slice()) {
        sub_chars(s.as_slice(), 3, s.len() - 1)
    } else if starts_with_chars(s.as_slice(), p2.as_slice()) {
        sub_chars(s.as_slice(), 2, s.len() - 1)
    } else {
        s
    };
    let out = match find_char(inner.as_slice(), '(') {
        Some(i) => {
            let head = sub_chars(inner.as_slice(), 0, i);
            assert(head@ =~= inner@.take(i as int));
            trim_chars(head.as_slice())
        },
        None => trim_chars(inner.as_slice()),
    };
    string_of(out.as_slice())
}

} // verus!
