//! Queries of the language extractors on syntax trees: which operator a
//! node carries, what a declaration is named, which keyword introduces a
//! type, and the like. A node is taken as plain values: its kind, its text,
//! whether it is named, the field of its parent it fills, its children and
//! where it stands in the source.

use vstd::prelude::*;
use crate::text::{str_eq, copy_str, chars_of, string_of, trim, trim_chars, trim_start_char, trim_start_char_chars,
    sub_chars};

verus! {

/// A node of a syntax tree.
#[derive(Debug)]
pub struct SyntaxNode {
    pub kind: String,
    pub text: String,
    pub named: bool,
    /// The field of its parent under which the node stands, if any.
    pub field: Option<String>,
    pub children: Vec<SyntaxNode>,
    /// Line and column, both from 0, where the node starts.
    pub start_row: u64,
    pub start_col: u64,
    /// Line and column, both from 0, just past the node's end.
    pub end_row: u64,
    pub end_col: u64,
}

/// The first child standing under field `f`.
pub open spec fn field_child(cs: Seq<SyntaxNode>, f: Seq<char>) -> Option<SyntaxNode>
    decreases cs.len(),
{
    if cs.len() == 0 {
        None
    } else if cs[0].field matches Some(g) && g@ == f {
        Some(cs[0])
    } else {
        field_child(cs.drop_first(), f)
    }
}

pub(crate) fn find_field<'a>(cs: &'a Vec<SyntaxNode>, f: &str) -> (r: Option<&'a SyntaxNode>)
    ensures
        match r {
            Some(n) => field_child(cs@, f@) == Some(*n),
            None => field_child(cs@, f@) is None,
        },
{
    let mut i: usize = 0;
    assert(cs@.skip(0) =~= cs@);
    while i < cs.len()
        invariant
            i <= cs@.len(),
            field_child(cs@, f@) == field_child(cs@.skip(i as int), f@),
        decreases cs@.len() - i,
    {
        assert(cs@.skip(i as int).drop_first() =~= cs@.skip(i + 1));
        assert(cs@.skip(i as int)[0] == cs@[i as int]);
        match &cs[i].field {
            Some(g) => {
                if str_eq(g.as_str(), f) {
                    return Some(&cs[i]);
                }
            },
            None => {},
        }
        i = i + 1;
    }
    None
}

// ---------------------------------------------------------------------------
// JavaScript
// ---------------------------------------------------------------------------

/// Whether a module's top level holds an import or export statement.
pub open spec fn module_syntax(root: SyntaxNode) -> bool {
    exists|i: int|
        0 <= i < root.children@.len() && (#[trigger] root.children@[i].kind@ == "import_statement"@
            || root.children@[i].kind@ == "export_statement"@)
}

/// Whether a program uses module syntax (`module_syntax`).
pub fn has_module_syntax(root: &SyntaxNode) -> (r: bool)
    ensures
        r == module_syntax(*root),
{
    let cs = &root.children;
    let mut i: usize = 0;
    while i < cs.len()
        invariant
            i <= cs@.len(),
            cs@ == root.children@,
            forall|j: int|
                0 <= j < i ==> !(#[trigger] cs@[j].kind@ == "import_statement"@ || cs@[j].kind@
                    == "export_statement"@),
        decreases cs@.len() - i,
    {
        if str_eq(cs[i].kind.as_str(), "import_statement") || str_eq(cs[i].kind.as_str(), "export_statement") {
            return true;
        }
        i = i + 1;
    }
    false
}

/// The operator tokens of JavaScript expressions.
pub open spec fn js_operator(t: Seq<char>) -> bool {
    ||| t == "+"@ ||| t == "-"@ ||| t == "*"@ ||| t == "/"@ ||| t == "%"@ ||| t == "**"@
    ||| t == "&"@ ||| t == "|"@ ||| t == "^"@ ||| t == "<<"@ ||| t == ">>"@ ||| t == ">>>"@
    ||| t == "=="@ ||| t == "!="@ ||| t == "==="@ ||| t == "!=="@ ||| t == "<"@ ||| t == ">"@
    ||| t == "<="@ ||| t == ">="@
    ||| t == "&&"@ ||| t == "||"@ ||| t == "??"@
    ||| t == "="@ ||| t == "+="@ ||| t == "-="@ ||| t == "*="@ ||| t == "/="@ ||| t == "%="@ ||| t == "**="@
    ||| t == "&="@ ||| t == "|="@ ||| t == "^="@ ||| t == "<<="@ ||| t == ">>="@ ||| t == ">>>="@
    ||| t == "&&="@ ||| t == "||="@ ||| t == "??="@
    ||| t == "!"@ ||| t == "~"@ ||| t == "++"@ ||| t == "--"@
    ||| t == "typeof"@ ||| t == "void"@ ||| t == "delete"@
    ||| t == "in"@ ||| t == "instanceof"@
}

fn is_js_operator(t: &str) -> (r: bool)
    ensures
        r == js_operator(t@),
{
    str_eq(t, "+") || str_eq(t, "-") || str_eq(t, "*") || str_eq(t, "/") || str_eq(t, "%") || str_eq(t, "**")
        || str_eq(t, "&") || str_eq(t, "|") || str_eq(t, "^") || str_eq(t, "<<") || str_eq(t, ">>") || str_eq(
        t,
        ">>>",
    ) || str_eq(t, "==") || str_eq(t, "!=") || str_eq(t, "===") || str_eq(t, "!==") || str_eq(t, "<") || str_eq(
        t,
        ">",
    ) || str_eq(t, "<=") || str_eq(t, ">=") || str_eq(t, "&&") || str_eq(t, "||") || str_eq(t, "??") || str_eq(
        t,
        "=",
    ) || str_eq(t, "+=") || str_eq(t, "-=") || str_eq(t, "*=") || str_eq(t, "/=") || str_eq(t, "%=") || str_eq(
        t,
        "**=",
    ) || str_eq(t, "&=") || str_eq(t, "|=") || str_eq(t, "^=") || str_eq(t, "<<=") || str_eq(t, ">>=") || str_eq(
        t,
        ">>>=",
    ) || str_eq(t, "&&=") || str_eq(t, "||=") || str_eq(t, "??=") || str_eq(t, "!") || str_eq(t, "~") || str_eq(
        t,
        "++",
    ) || str_eq(t, "--") || str_eq(t, "typeof") || str_eq(t, "void") || str_eq(t, "delete") || str_eq(t, "in")
        || str_eq(t, "instanceof")
}

/// The first unnamed child, from position `i` on, whose text is an
/// operator token.
pub open spec fn first_operator(cs: Seq<SyntaxNode>, i: int) -> Option<Seq<char>>
    decreases cs.len() - i,
{
    if i < 0 || i >= cs.len() {
        None
    } else if !cs[i].named && js_operator(cs[i].text@) {
        Some(cs[i].text@)
    } else {
        first_operator(cs, i + 1)
    }
}

/// The operator of an expression node: its first unnamed operator token,
/// else the text of its `operator` field, else nothing.
pub open spec fn operator_of(node: SyntaxNode) -> Seq<char> {
    match first_operator(node.children@, 0) {
        Some(t) => t,
        None => match field_child(node.children@, "operator"@) {
            Some(op) => op.text@,
            None => Seq::empty(),
        },
    }
}

/// The operator of an expression node (`operator_of`).
pub fn find_operator(node: &SyntaxNode) -> (r: String)
    ensures
        r@ == operator_of(*node),
{
    let cs = &node.children;
    let mut i: usize = 0;
    while i < cs.len()
        invariant
            i <= cs@.len(),
            cs@ == node.children@,
            first_operator(cs@, 0) == first_operator(cs@, i as int),
        decreases cs@.len() - i,
    {
        if !cs[i].named && is_js_operator(cs[i].text.as_str()) {
            return copy_str(cs[i].text.as_str());
        }
        i = i + 1;
    }
    match find_field(cs, "operator") {
        Some(op) => copy_str(op.text.as_str()),
        None => String::new(),
    }
}

// ---------------------------------------------------------------------------
// Ruby
// ---------------------------------------------------------------------------

/// A call of `require` or `require_relative`, by the text of its `method`
/// field.
pub open spec fn require_call(node: SyntaxNode) -> bool {
    match field_child(node.children@, "method"@) {
        Some(m) => m.text@ == "require"@ || m.text@ == "require_relative"@,
        None => false,
    }
}

/// Whether a call node calls `require` or `require_relative`.
pub fn is_require_call(node: &SyntaxNode) -> (r: bool)
    ensures
        r == require_call(*node),
{
    match find_field(&node.children, "method") {
        Some(m) => str_eq(m.text.as_str(), "require") || str_eq(m.text.as_str(), "require_relative"),
        None => false,
    }
}

/// A string literal's text without one pair of surrounding double or single
/// quotes.
pub open spec fn string_content(t: Seq<char>) -> Seq<char> {
    if t.len() > 0 && ((t[0] == '"' && t.last() == '"') || (t[0] == '\'' && t.last() == '\'')) {
        t.subrange(1, t.len() - 1)
    } else {
        t
    }
}

/// The content of a string literal (`string_content`); a lone quote
/// character is no literal.
pub fn extract_string_content(text: &str) -> (r: String)
    requires
        text@ != seq!['"'],
        text@ != seq!['\''],
    ensures
        r@ == string_content(text@),
{
    let cs = chars_of(text);
    let n = cs.len();
    if n > 0 && ((cs[0] == '"' && cs[n - 1] == '"') || (cs[0] == '\'' && cs[n - 1] == '\'')) {
        if n == 1 {
            proof {
                assert(text@ =~= seq![cs@[0]]);
            }
        }
        let inner = sub_chars(cs.as_slice(), 1, n - 1);
        string_of(inner.as_slice())
    } else {
        string_of(cs.as_slice())
    }
}

// ---------------------------------------------------------------------------
// Swift
// ---------------------------------------------------------------------------

/// The keywords that introduce a type declaration.
pub open spec fn type_keyword(t: Seq<char>) -> bool {
    t == "class"@ || t == "struct"@ || t == "enum"@ || t == "protocol"@ || t == "extension"@ || t == "actor"@
}

/// The kinds after which no type keyword comes.
pub open spec fn type_keyword_end(k: Seq<char>) -> bool {
    k == "type_identifier"@ || k == "class_body"@ || k == "enum_class_body"@ || k == "protocol_body"@
}

/// The type keyword among the children from position `i` on: modifiers are
/// skipped, and the search ends at the type's name or body.
pub open spec fn type_keyword_from(cs: Seq<SyntaxNode>, i: int) -> Seq<char>
    decreases cs.len() - i,
{
    if i < 0 || i >= cs.len() {
        Seq::empty()
    } else if cs[i].kind@ == "modifiers"@ {
        type_keyword_from(cs, i + 1)
    } else if type_keyword(cs[i].text@) {
        cs[i].text@
    } else if type_keyword_end(cs[i].kind@) {
        Seq::empty()
    } else {
        type_keyword_from(cs, i + 1)
    }
}

/// The keyword that introduces a type declaration (`type_keyword_from`).
pub fn find_type_keyword(node: &SyntaxNode) -> (r: String)
    ensures
        r@ == type_keyword_from(node.children@, 0),
{
    let cs = &node.children;
    let mut i: usize = 0;
    while i < cs.len()
        invariant
            i <= cs@.len(),
            cs@ == node.children@,
            type_keyword_from(cs@, 0) == type_keyword_from(cs@, i as int),
        decreases cs@.len() - i,
    {
        let c = &cs[i];
        if !str_eq(c.kind.as_str(), "modifiers") {
            let t = c.text.as_str();
            if str_eq(t, "class") || str_eq(t, "struct") || str_eq(t, "enum") || str_eq(t, "protocol") || str_eq(
                t,
                "extension",
            ) || str_eq(t, "actor") {
                return copy_str(t);
            }
            let k = c.kind.as_str();
            if str_eq(k, "type_identifier") || str_eq(k, "class_body") || str_eq(k, "enum_class_body") || str_eq(
                k,
                "protocol_body",
            ) {
                return String::new();
            }
        }
        i = i + 1;
    }
    String::new()
}

/// The keywords after which a declaration's name comes.
pub open spec fn declaration_keyword(t: Seq<char>) -> bool {
    t == "class"@ || t == "struct"@ || t == "enum"@ || t == "protocol"@ || t == "func"@ || t == "actor"@ || t
        == "extension"@ || t == "init"@ || t == "subscript"@
}

/// The kinds that come after where a declaration's name would be.
pub open spec fn past_name(k: Seq<char>) -> bool {
    k == "type_parameters"@ || k == "parameter_clause"@ || k == "inheritance_specifier"@ || k == "class_body"@ || k
        == "enum_class_body"@
}

/// The name among the children from position `i` on: the first identifier
/// after the declaration keyword, unless the name's place was passed.
pub open spec fn declaration_name_from(cs: Seq<SyntaxNode>, i: int, found: bool) -> Seq<char>
    decreases cs.len() - i,
{
    if i < 0 || i >= cs.len() {
        Seq::empty()
    } else if !found {
        declaration_name_from(cs, i + 1, declaration_keyword(cs[i].text@))
    } else if cs[i].kind@ == "simple_identifier"@ || cs[i].kind@ == "type_identifier"@ {
        cs[i].text@
    } else if past_name(cs[i].kind@) {
        Seq::empty()
    } else {
        declaration_name_from(cs, i + 1, true)
    }
}

/// The name of a declaration: its `name` field, else
/// `declaration_name_from`.
pub open spec fn declaration_name(node: SyntaxNode) -> Seq<char> {
    match field_child(node.children@, "name"@) {
        Some(n) => n.text@,
        None => declaration_name_from(node.children@, 0, false),
    }
}

/// The name of a declaration (`declaration_name`).
pub fn find_declaration_name(node: &SyntaxNode) -> (r: String)
    ensures
        r@ == declaration_name(*node),
{
    if let Some(n) = find_field(&node.children, "name") {
        return copy_str(n.text.as_str());
    }
    let cs = &node.children;
    let mut found = false;
    let mut i: usize = 0;
    while i < cs.len()
        invariant
            i <= cs@.len(),
            cs@ == node.children@,
            field_child(node.children@, "name"@) is None,
            declaration_name_from(cs@, 0, false) == declaration_name_from(cs@, i as int, found),
        decreases cs@.len() - i,
    {
        let c = &cs[i];
        let t = c.text.as_str();
        if !found {
            if str_eq(t, "class") || str_eq(t, "struct") || str_eq(t, "enum") || str_eq(t, "protocol") || str_eq(
                t,
                "func",
            ) || str_eq(t, "actor") || str_eq(t, "extension") || str_eq(t, "init") || str_eq(t, "subscript") {
                found = true;
            }
        } else {
            let k = c.kind.as_str();
            if str_eq(k, "simple_identifier") || str_eq(k, "type_identifier") {
                return copy_str(t);
            }
            if str_eq(k, "type_parameters") || str_eq(k, "parameter_clause") || str_eq(k, "inheritance_specifier")
                || str_eq(k, "class_body") || str_eq(k, "enum_class_body") {
                return String::new();
            }
        }
        i = i + 1;
    }
    String::new()
}

/// The type an extension extends, among the children from position `i` on.
pub open spec fn extension_type_from(cs: Seq<SyntaxNode>, i: int, found: bool) -> Seq<char>
    decreases cs.len() - i,
{
    if i < 0 || i >= cs.len() {
        Seq::empty()
    } else if !found {
        extension_type_from(cs, i + 1, cs[i].text@ == "extension"@)
    } else if cs[i].kind@ == "user_type"@ || cs[i].kind@ == "type_identifier"@ || cs[i].kind@ == "simple_identifier"@ {
        cs[i].text@
    } else if cs[i].kind@ == "inheritance_specifier"@ || cs[i].kind@ == "class_body"@ || cs[i].kind@
        == "type_parameters"@ || cs[i].kind@ == "where_clause"@ {
        Seq::empty()
    } else {
        extension_type_from(cs, i + 1, true)
    }
}

/// The name of the type an extension extends (`extension_type_from`).
pub fn find_extension_type_name(node: &SyntaxNode) -> (r: String)
    ensures
        r@ == extension_type_from(node.children@, 0, false),
{
    let cs = &node.children;
    let mut found = false;
    let mut i: usize = 0;
    while i < cs.len()
        invariant
            i <= cs@.len(),
            cs@ == node.children@,
            extension_type_from(cs@, 0, false) == extension_type_from(cs@, i as int, found),
        decreases cs@.len() - i,
    {
        let c = &cs[i];
        let t = c.text.as_str();
        if !found {
            if str_eq(t, "extension") {
                found = true;
            }
        } else {
            let k = c.kind.as_str();
            if str_eq(k, "user_type") || str_eq(k, "type_identifier") || str_eq(k, "simple_identifier") {
                return copy_str(t);
            }
            if str_eq(k, "inheritance_specifier") || str_eq(k, "class_body") || str_eq(k, "type_parameters") || str_eq(
                k,
                "where_clause",
            ) {
                return String::new();
            }
        }
        i = i + 1;
    }
    String::new()
}

/// The kinds of nested patterns searched for a bound name.
pub open spec fn pattern_kind(k: Seq<char>) -> bool {
    k == "pattern"@ || k == "value_binding_pattern"@ || k == "typed_pattern"@ || k == "binding_pattern"@
}

/// The name a pattern binds: among its children in order, an identifier
/// other than `let` and `var`, or the name a nested pattern binds.
pub open spec fn pattern_name(node: SyntaxNode) -> Option<Seq<char>>
    decreases node, 1nat, 0nat,
{
    pattern_name_from(node.children@, 0)
}

/// The name bound among the children from position `i` on.
pub open spec fn pattern_name_from(cs: Seq<SyntaxNode>, i: int) -> Option<Seq<char>>
    decreases cs, 0nat, cs.len() - i,
{
    if i < 0 || i >= cs.len() {
        None
    } else if cs[i].kind@ == "simple_identifier"@ && cs[i].text@.len() > 0 && cs[i].text@ != "let"@ && cs[i].text@
        != "var"@ {
        Some(cs[i].text@)
    } else if pattern_kind(cs[i].kind@) && pattern_name(cs[i]) is Some {
        pattern_name(cs[i])
    } else {
        pattern_name_from(cs, i + 1)
    }
}

/// The name a pattern binds (`pattern_name`).
pub fn find_pattern_name(node: &SyntaxNode) -> (r: Option<String>)
    ensures
        match r {
            Some(s) => pattern_name(*node) == Some(s@),
            None => pattern_name(*node) is None,
        },
    decreases node,
{
    let cs = &node.children;
    let mut i: usize = 0;
    while i < cs.len()
        invariant
            i <= cs@.len(),
            cs@ == node.children@,
            pattern_name(*node) == pattern_name_from(cs@, i as int),
        decreases cs@.len() - i,
    {
        let c = &cs[i];
        proof {
            reveal_strlit("");
            assert(""@ =~= Seq::<char>::empty());
        }
        if str_eq(c.kind.as_str(), "simple_identifier") {
            let t = c.text.as_str();
            if !str_eq(t, "") && !str_eq(t, "let") && !str_eq(t, "var") {
                assert(cs@[i as int].kind@ == "simple_identifier"@);
                proof {
                    if t@.len() == 0 {
                        assert(t@ =~= ""@);
                    }
                }
                assert(pattern_name_from(cs@, i as int) == Some(t@));
                return Some(copy_str(t));
            }
        }
        let k = c.kind.as_str();
        if str_eq(k, "pattern") || str_eq(k, "value_binding_pattern") || str_eq(k, "typed_pattern") || str_eq(
            k,
            "binding_pattern",
        ) {
            proof {
                assert(decreases_to!(*node => node.children));
                assert(decreases_to!(node.children => node.children@));
                assert(decreases_to!(node.children@ => node.children@[i as int]));
            }
            if let Some(name) = find_pattern_name(c) {
                return Some(name);
            }
        }
        i = i + 1;
    }
    None
}

/// The text of a type annotation without its leading colons and the
/// whitespace around.
pub open spec fn annotation_text(t: Seq<char>) -> Seq<char> {
    trim(trim_start_char(t, ':'))
}

/// The text of a type annotation (`annotation_text`).
pub fn extract_type_annotation_text(node: &SyntaxNode) -> (r: String)
    ensures
        r@ == annotation_text(node.text@),
{
    let cs = chars_of(node.text.as_str());
    let a = trim_start_char_chars(cs.as_slice(), ':');
    let b = trim_chars(a.as_slice());
    string_of(b.as_slice())
}

/// The kinds of patterns searched for a type annotation.
pub open spec fn annotated_kind(k: Seq<char>) -> bool {
    k == "typed_pattern"@ || k == "pattern"@ || k == "value_binding_pattern"@
}

/// The type annotation of a node: among its children in order, a type
/// annotation's text, or the annotation found in a nested pattern.
pub open spec fn type_annotation(node: SyntaxNode) -> Option<Seq<char>>
    decreases node, 1nat, 0nat,
{
    type_annotation_from(node.children@, 0)
}

/// The annotation found among the children from position `i` on.
pub open spec fn type_annotation_from(cs: Seq<SyntaxNode>, i: int) -> Option<Seq<char>>
    decreases cs, 0nat, cs.len() - i,
{
    if i < 0 || i >= cs.len() {
        None
    } else if cs[i].kind@ == "type_annotation"@ {
        Some(annotation_text(cs[i].text@))
    } else if annotated_kind(cs[i].kind@) && type_annotation(cs[i]) is Some {
        type_annotation(cs[i])
    } else {
        type_annotation_from(cs, i + 1)
    }
}

/// The type annotation of a node (`type_annotation`).
pub fn find_type_annotation(node: &SyntaxNode) -> (r: Option<String>)
    ensures
        match r {
            Some(s) => type_annotation(*node) == Some(s@),
            None => type_annotation(*node) is None,
        },
    decreases node,
{
    let cs = &node.children;
    let mut i: usize = 0;
    while i < cs.len()
        invariant
            i <= cs@.len(),
            cs@ == node.children@,
            type_annotation(*node) == type_annotation_from(cs@, i as int),
        decreases cs@.len() - i,
    {
        let c = &cs[i];
        let k = c.kind.as_str();
        if str_eq(k, "type_annotation") {
            return Some(extract_type_annotation_text(c));
        }
        if str_eq(k, "typed_pattern") || str_eq(k, "pattern") || str_eq(k, "value_binding_pattern") {
            proof {
                assert(decreases_to!(*node => node.children));
                assert(decreases_to!(node.children => node.children@));
                assert(decreases_to!(node.children@ => node.children@[i as int]));
            }
            if let Some(t) = find_type_annotation(c) {
                return Some(t);
            }
        }
        i = i + 1;
    }
    None
}

/// The kinds of Swift expression nodes.
pub open spec fn expression_kind(k: Seq<char>) -> bool {
    ||| k == "call_expression"@ ||| k == "navigation_expression"@ ||| k == "subscript_expression"@
    ||| k == "simple_identifier"@ ||| k == "integer_literal"@ ||| k == "real_literal"@
    ||| k == "line_string_literal"@ ||| k == "multiline_string_literal"@ ||| k == "raw_string_literal"@
    ||| k == "boolean_literal"@ ||| k == "nil"@
    ||| k == "array_literal"@ ||| k == "dictionary_literal"@ ||| k == "tuple_expression"@
    ||| k == "infix_expression"@ ||| k == "prefix_expression"@ ||| k == "postfix_expression"@
    ||| k == "assignment"@ ||| k == "directly_assignable_expression"@
    ||| k == "ternary_expression"@ ||| k == "try_expression"@ ||| k == "await_expression"@
    ||| k == "lambda_literal"@ ||| k == "closure_expression"@
    ||| k == "is_expression"@ ||| k == "check_expression"@ ||| k == "as_expression"@
    ||| k == "optional_chaining_expression"@ ||| k == "forced_value_expression"@ ||| k == "force_unwrap_expression"@
    ||| k == "interpolated_expression"@ ||| k == "key_path_expression"@
    ||| k == "parenthesized_expression"@ ||| k == "interpolation"@
}

/// Whether a node is an expression (`expression_kind`).
pub fn is_expression_node(node: &SyntaxNode) -> (r: bool)
    ensures
        r == expression_kind(node.kind@),
{
    let k = node.kind.as_str();
    str_eq(k, "call_expression") || str_eq(k, "navigation_expression") || str_eq(k, "subscript_expression")
        || str_eq(k, "simple_identifier") || str_eq(k, "integer_literal") || str_eq(k, "real_literal") || str_eq(
        k,
        "line_string_literal",
    ) || str_eq(k, "multiline_string_literal") || str_eq(k, "raw_string_literal") || str_eq(k, "boolean_literal")
        || str_eq(k, "nil") || str_eq(k, "array_literal") || str_eq(k, "dictionary_literal") || str_eq(
        k,
        "tuple_expression",
    ) || str_eq(k, "infix_expression") || str_eq(k, "prefix_expression") || str_eq(k, "postfix_expression")
        || str_eq(k, "assignment") || str_eq(k, "directly_assignable_expression") || str_eq(k, "ternary_expression")
        || str_eq(k, "try_expression") || str_eq(k, "await_expression") || str_eq(k, "lambda_literal") || str_eq(
        k,
        "closure_expression",
    ) || str_eq(k, "is_expression") || str_eq(k, "check_expression") || str_eq(k, "as_expression") || str_eq(
        k,
        "optional_chaining_expression",
    ) || str_eq(k, "forced_value_expression") || str_eq(k, "force_unwrap_expression") || str_eq(
        k,
        "interpolated_expression",
    ) || str_eq(k, "key_path_expression") || str_eq(k, "parenthesized_expression") || str_eq(k, "interpolation")
}

/// The number of the first `i` siblings of kind `kind`.
pub open spec fn kind_count(cs: Seq<SyntaxNode>, kind: Seq<char>, i: int) -> nat
    decreases i,
{
    if i <= 0 || i > cs.len() {
        0
    } else {
        kind_count(cs, kind, i - 1) + if cs[i - 1].kind@ == kind {
            1nat
        } else {
            0nat
        }
    }
}

/// How many siblings before the child at `position` of `parent` are of kind
/// `kind`; a node without parent has none.
pub fn count_preceding_siblings_of_kind(parent: Option<&SyntaxNode>, position: usize, kind: &str) -> (r: usize)
    requires
        parent matches Some(p) ==> position <= p.children@.len(),
    ensures
        r == match parent {
            Some(p) => kind_count(p.children@, kind@, position as int),
            None => 0,
        },
{
    match parent {
        None => 0,
        Some(p) => {
            let cs = &p.children;
            let mut count: usize = 0;
            let mut i: usize = 0;
            while i < position
                invariant
                    position <= cs@.len(),
                    i <= position,
                    count == kind_count(cs@, kind@, i as int),
                    count <= i,
                decreases position - i,
            {
                if str_eq(cs[i].kind.as_str(), kind) {
                    count = count + 1;
                }
                i = i + 1;
            }
            count
        },
    }
}

} // verus!
