use ocql::syntax::{
    count_preceding_siblings_of_kind, extract_string_content, extract_type_annotation_text, find_declaration_name,
    find_extension_type_name, find_operator, find_pattern_name, find_type_annotation, find_type_keyword,
    has_module_syntax, is_expression_node, is_require_call, SyntaxNode,
};
use ocql::categorize::{categorize_error, count_names, sort_by_count, undefined_name, UndefinedKind};
use ocql::def::FileId;
use ocql::diagnostics::{Diagnostic, DiagnosticNote, Severity, Span};
use ocql::extractors::{
    classify_js_expression, classify_py_expression, classify_ruby_expression, classify_rust_expression,
    classify_swift_expression, js_statement_kind, py_statement_kind, ruby_statement_kind, rust_statement_kind,
    swift_statement_kind, ExprClass,
    extract_attribute_name, is_swift_modifier, js_assign_op_kind, js_binary_op_kind, JavaScriptExtractor, PythonExtractor,
    RubyExtractor, RustExtractor, SwiftExtractor, TypeScriptExtractor,
};
use ocql::lir::{
    LirAggFunction, LirArithOp, LirAtom, LirBinding, LirCompOp, LirExpr, LirFilter, LirOperand, LirPlan, LirProgram,
    LirRule, LirStratum, LirValue,
};
use ocql::lsp::{
    diagnose, format_expected, offset_to_position, parse_error_to_range_and_message, DocumentAction, DocumentEvent,
    OpenDocuments, ParseFailure, Position,
};
use ocql::paths::{join_paths, path_components, split_str, starts_with_path};
use ocql::pretty::pretty_print;
use ocql::scc::strongly_connected_components;
use ocql::source::SourceManager;

fn strings(v: &[&str]) -> Vec<String> {
    v.iter().map(|s| s.to_string()).collect()
}

// ---------------------------------------------------------------------------
// Pretty printing
// ---------------------------------------------------------------------------

#[test]
fn pretty_print_renders_every_node_kind() {
    let scan = LirPlan::Scan {
        relation: "edge".to_string(),
        bindings: vec![LirBinding::var("x"), LirBinding::Const(LirValue::String("a".to_string()))],
    };
    let filtered = LirPlan::Filter {
        input: Box::new(scan),
        condition: LirFilter::And(vec![
            LirFilter::Comparison {
                left: LirOperand::Column("x".to_string()),
                op: LirCompOp::Gt,
                right: LirOperand::Literal(LirValue::Int(-3)),
            },
            LirFilter::Comparison {
                left: LirOperand::Column("x".to_string()),
                op: LirCompOp::Ne,
                right: LirOperand::Literal(LirValue::Bool(true)),
            },
        ]),
    };
    let extended = LirPlan::Extend {
        input: Box::new(filtered),
        column: "y".to_string(),
        expr: LirExpr {
            left: LirOperand::Column("x".to_string()),
            op: LirArithOp::Mul,
            right: LirOperand::Literal(LirValue::Float("2.5".to_string())),
        },
    };
    let join = LirPlan::WcoJoin {
        atoms: vec![LirAtom { relation: "r".to_string(), bindings: vec![LirBinding::var("a"), LirBinding::integer(1)] }],
        variable_order: strings(&["a"]),
        project: strings(&["a"]),
    };
    let anti = LirPlan::AntiJoin {
        positive: Box::new(join),
        negative: Box::new(LirPlan::Constant { columns: strings(&["a"]), rows: vec![vec![LirValue::Int(1)]] }),
        key_columns: strings(&["a"]),
    };
    let union = LirPlan::Union { inputs: vec![extended, anti] };
    let agg = LirPlan::Aggregate {
        input: Box::new(union),
        group_by: strings(&["x"]),
        function: LirAggFunction::StrictCount,
        agg_column: "y".to_string(),
        result_column: "n".to_string(),
    };
    let program = LirProgram {
        strata: vec![
            LirStratum {
                rules: vec![LirRule {
                    target: "p".to_string(),
                    target_columns: strings(&["x", "n"]),
                    body: LirPlan::Project { input: Box::new(agg), columns: strings(&["x", "n"]) },
                }],
                recursive: false,
            },
            LirStratum { rules: vec![], recursive: true },
        ],
    };
    let expected = [
        "--- stratum 0 (non-recursive) ---",
        "p(x, n) ←",
        "  Project [x, n]",
        "    Aggregate n = strictcount(y) group_by=[x]",
        "      Union (2 branches)",
        "        Extend y = x * 2.5",
        "          Filter x > -3 AND x != true",
        "            Scan edge(x, \"a\")",
        "        AntiJoin on [a]",
        "          positive:",
        "            WcoJoin order=[a] project=[a]",
        "              r(a, 1)",
        "          negative:",
        "            Constant [a] (1 rows)",
        "",
        "--- stratum 1 (recursive) ---",
        "",
    ]
    .join("\n");
    assert_eq!(pretty_print(&program), expected);
}

#[test]
fn operator_and_value_texts() {
    assert_eq!(LirArithOp::Mod.to_text(), "%");
    assert_eq!(LirCompOp::Le.to_text(), "<=");
    assert_eq!(LirAggFunction::StrictConcat.to_text(), "strictconcat");
    assert_eq!(LirValue::Int(-42).to_text(), "-42");
    assert_eq!(LirValue::String("s".to_string()).to_text(), "\"s\"");
    assert_eq!(LirValue::Bool(false).to_text(), "false");
    assert_eq!(LirValue::Float("1.5".to_string()).to_text(), "1.5");
}

// ---------------------------------------------------------------------------
// Strongly connected components
// ---------------------------------------------------------------------------

#[test]
fn tarjan_groups_cycles_and_orders_sinks_first() {
    // 0 -> 1 -> 2 -> 1, 2 -> 3
    let adj = vec![vec![1], vec![2], vec![1, 3], vec![]];
    let sccs = strongly_connected_components(&adj, &vec![0]);
    let sorted: Vec<Vec<usize>> = sccs
        .iter()
        .map(|c| {
            let mut c = c.clone();
            c.sort();
            c
        })
        .collect();
    assert_eq!(sorted, vec![vec![3], vec![1, 2], vec![0]]);
}

#[test]
fn tarjan_only_reaches_from_roots() {
    let adj = vec![vec![], vec![0]];
    let sccs = strongly_connected_components(&adj, &vec![0]);
    assert_eq!(sccs, vec![vec![0]]);
}

// ---------------------------------------------------------------------------
// Paths
// ---------------------------------------------------------------------------

#[test]
fn path_helpers() {
    assert_eq!(split_str("a.b.c", '.'), strings(&["a", "b", "c"]));
    assert_eq!(path_components("/a//b/./c/"), strings(&["/", "a", "b", "c"]));
    assert_eq!(join_paths("/a/b", "c/d.qll"), "/a/b/c/d.qll");
    assert_eq!(join_paths("/a/b", "/abs"), "/abs");
    assert!(starts_with_path("/a/b/c", "/a/b"));
    assert!(!starts_with_path("/a/bc", "/a/b"));
}

// ---------------------------------------------------------------------------
// Source context of diagnostics
// ---------------------------------------------------------------------------

#[test]
fn format_diagnostic_with_context_and_notes() {
    let mut sm = SourceManager::new();
    let id = sm.add_file("dir/test.ql".to_string(), "from int x\nwhere y > 0\nselect x\n".to_string());
    let diag = Diagnostic {
        severity: Severity::Error,
        message: "undefined variable `y`".to_string(),
        span: Span::new(17, 18),
        file: id,
        notes: vec![
            DiagnosticNote { message: "declared here".to_string(), span: Span::new(9, 10), file: id },
            DiagnosticNote { message: "no location".to_string(), span: Span::dummy(), file: FileId(0) },
        ],
    };
    let expected = "error: undefined variable `y`\n --> dir/test.ql:2:7\n  |\n2 | where y > 0\n  |       ^\n = note: declared here (dir/test.ql:1:10)\n = note: no location\n";
    assert_eq!(sm.format_diagnostic(&diag), expected);
}

#[test]
fn format_diagnostic_without_span_and_wide_underline() {
    let mut sm = SourceManager::new();
    let id = sm.add_file("t.ql".to_string(), "abc\r\n".to_string());
    let plain = Diagnostic {
        severity: Severity::Warning,
        message: "careful".to_string(),
        span: Span::dummy(),
        file: id,
        notes: vec![],
    };
    assert_eq!(sm.format_diagnostic(&plain), "warning: careful\n");
    let wide = Diagnostic { severity: Severity::Info, message: "m".to_string(), span: Span::new(1, 9), file: id, notes: vec![] };
    assert_eq!(sm.format_diagnostic(&wide), "info: m\n --> t.ql:1:2\n  |\n1 | abc\n  |  ^^\n");
    assert_eq!(wide.to_text(), "info: m");
}

#[test]
fn source_manager_registry() {
    let mut sm = SourceManager::new();
    let a = sm.add_file("a.ql".to_string(), "x\ny".to_string());
    let b = sm.add_file("b.ql".to_string(), "".to_string());
    assert_eq!(sm.file_count(), 2);
    assert_eq!(sm.file_ids(), vec![a, b]);
    assert_eq!(sm.get_file_id("b.ql"), Some(b));
    assert_eq!(sm.get_file_id("c.ql"), None);
    assert_eq!(sm.source(a), "x\ny");
    assert_eq!(sm.path(b), "b.ql");
    assert_eq!(sm.line_text(a, Span::new(2, 3)), "y");
    assert_eq!(sm.location(a, Span::new(2, 3)).to_text(), "a.ql:2:1");
    assert_eq!(sm.span_text(a, Span::new(1, 100)), "\ny");
}

// ---------------------------------------------------------------------------
// Language server helpers
// ---------------------------------------------------------------------------

#[test]
fn positions_of_offsets() {
    let text = "ab\ncd\n\nef";
    assert_eq!(offset_to_position(text, 0), Position { line: 0, character: 0 });
    assert_eq!(offset_to_position(text, 4), Position { line: 1, character: 1 });
    assert_eq!(offset_to_position(text, 7), Position { line: 3, character: 0 });
    assert_eq!(offset_to_position(text, 100), Position { line: 3, character: 2 });
}

#[test]
fn expected_tokens_text() {
    assert_eq!(format_expected(&vec![]), "something");
    assert_eq!(format_expected(&strings(&["\"upper_ident\""])), "type name");
    assert_eq!(format_expected(&strings(&["\"lower_ident\"", "\"int_lit\"", "\"(\""])), "identifier, integer or (");
    assert_eq!(format_expected(&strings(&["a", "b", "c", "d", "e", "f"])), "a, b, c, d, ...");
    assert_eq!(format_expected(&strings(&["a", "b", "c", "d", "string_lit"])), "a, b, c, d or string");
}

#[test]
fn parse_failures_become_ranges_and_messages() {
    let text = "from\nint x";
    let (range, msg) = parse_error_to_range_and_message(
        text,
        &ParseFailure::UnrecognizedToken { start: 5, end: 8, expected: strings(&["\"float_lit\""]) },
    );
    assert_eq!(range.start, Position { line: 1, character: 0 });
    assert_eq!(range.end, Position { line: 1, character: 3 });
    assert_eq!(msg, "unexpected token; expected number");
    let (range, msg) = parse_error_to_range_and_message(text, &ParseFailure::UnrecognizedEof { location: 10, expected: vec![] });
    assert_eq!(range.start, range.end);
    assert_eq!(msg, "unexpected end of file; expected something");
    let (_, msg) = parse_error_to_range_and_message(text, &ParseFailure::InvalidToken { location: 2 });
    assert_eq!(msg, "invalid token");
    let (_, msg) = parse_error_to_range_and_message(text, &ParseFailure::ExtraToken { start: 0, end: 4 });
    assert_eq!(msg, "extra token");
    let (range, msg) = parse_error_to_range_and_message(text, &ParseFailure::User { error: "bad char".to_string() });
    assert_eq!(range.start, Position { line: 0, character: 0 });
    assert_eq!(msg, "lexical error: bad char");
}

// ---------------------------------------------------------------------------
// Error buckets and extractor tables
// ---------------------------------------------------------------------------

#[test]
fn error_buckets() {
    assert_eq!(categorize_error("undefined type `Foo`"), "undefined type");
    assert_eq!(categorize_error("undefined predicate `p/1`"), "undefined predicate");
    assert_eq!(categorize_error("cannot compare `string` with `int`"), "type mismatch");
    assert_eq!(categorize_error("operator `+` not defined for `a` and `b`"), "operator type error");
    assert_eq!(categorize_error("`this` used outside a class"), "`this` outside class");
    assert_eq!(categorize_error("something else"), "other");
}

#[test]
fn extractor_tables() {
    assert_eq!(js_binary_op_kind("==="), 25);
    assert_eq!(js_binary_op_kind("**"), 87);
    assert_eq!(js_binary_op_kind("??"), 107);
    assert_eq!(js_binary_op_kind("~~"), 34);
    assert_eq!(js_assign_op_kind(">>>="), 55);
    assert_eq!(js_assign_op_kind("??="), 47);
    assert!(is_swift_modifier("public"));
    assert!(is_swift_modifier("nonisolated"));
    assert!(!is_swift_modifier("func"));
    assert_eq!(extract_attribute_name("#[derive(Debug, Clone)]"), "derive");
    assert_eq!(extract_attribute_name("  #![allow(dead_code)] "), "allow");
    assert_eq!(extract_attribute_name("#[test]"), "test");
    assert_eq!(extract_attribute_name("inline"), "inline");
}

// ---------------------------------------------------------------------------
// Syntax-tree queries of the extractors
// ---------------------------------------------------------------------------


fn leaf(kind: &str, text: &str, named: bool) -> SyntaxNode {
    SyntaxNode {
        kind: kind.to_string(),
        text: text.to_string(),
        named,
        field: None,
        children: vec![],
        start_row: 0,
        start_col: 0,
        end_row: 0,
        end_col: 0,
    }
}

fn with_field(mut n: SyntaxNode, field: &str) -> SyntaxNode {
    n.field = Some(field.to_string());
    n
}

fn node(kind: &str, children: Vec<SyntaxNode>) -> SyntaxNode {
    SyntaxNode {
        kind: kind.to_string(),
        text: String::new(),
        named: true,
        field: None,
        children,
        start_row: 0,
        start_col: 0,
        end_row: 0,
        end_col: 0,
    }
}

#[test]
fn javascript_module_syntax_and_operators() {
    let module = node("program", vec![leaf("comment", "// x", true), leaf("export_statement", "export {}", true)]);
    assert!(has_module_syntax(&module));
    let script = node("program", vec![leaf("expression_statement", "f()", true)]);
    assert!(!has_module_syntax(&script));
    let binary = node("binary_expression", vec![leaf("identifier", "a", true), leaf("===", "===", false), leaf("identifier", "b", true)]);
    assert_eq!(find_operator(&binary), "===");
    let unary = node("unary_expression", vec![leaf("typeof", "typeof", false), leaf("identifier", "x", true)]);
    assert_eq!(find_operator(&unary), "typeof");
    let by_field = node("augmented", vec![leaf("identifier", "a", true), with_field(leaf("op", "@@", true), "operator")]);
    assert_eq!(find_operator(&by_field), "@@");
    assert_eq!(find_operator(&node("call", vec![leaf("(", "(", false)])), "");
}

#[test]
fn ruby_require_and_strings() {
    let call = node("call", vec![with_field(leaf("identifier", "require_relative", true), "method")]);
    assert!(is_require_call(&call));
    let other = node("call", vec![with_field(leaf("identifier", "puts", true), "method")]);
    assert!(!is_require_call(&other));
    assert!(!is_require_call(&node("call", vec![])));
    assert_eq!(extract_string_content("\"json\""), "json");
    assert_eq!(extract_string_content("'set'"), "set");
    assert_eq!(extract_string_content("\"mixed'"), "\"mixed'");
    assert_eq!(extract_string_content("\"\""), "");
    assert_eq!(extract_string_content(""), "");
}

#[test]
fn swift_declaration_queries() {
    let class = node(
        "class_declaration",
        vec![leaf("modifiers", "public", true), leaf("class", "class", false), leaf("type_identifier", "Foo", true), leaf("class_body", "{}", true)],
    );
    assert_eq!(find_type_keyword(&class), "class");
    assert_eq!(find_declaration_name(&class), "Foo");
    let named = node("function_declaration", vec![with_field(leaf("simple_identifier", "run", true), "name")]);
    assert_eq!(find_declaration_name(&named), "run");
    let nameless = node("function_declaration", vec![leaf("func", "func", false), leaf("parameter_clause", "()", true), leaf("simple_identifier", "late", true)]);
    assert_eq!(find_declaration_name(&nameless), "");
    assert_eq!(find_type_keyword(&node("x", vec![leaf("type_identifier", "T", true), leaf("struct", "struct", false)])), "");
    let ext = node("class_declaration", vec![leaf("extension", "extension", false), leaf("user_type", "Array", true)]);
    assert_eq!(find_extension_type_name(&ext), "Array");
    assert_eq!(find_extension_type_name(&node("x", vec![leaf("user_type", "Array", true)])), "");
}

#[test]
fn swift_patterns_and_annotations() {
    let pattern = node(
        "property_declaration",
        vec![
            leaf("simple_identifier", "let", true),
            node("value_binding_pattern", vec![node("pattern", vec![leaf("simple_identifier", "count", true)])]),
            node("typed_pattern", vec![leaf("type_annotation", ":  Int ", true)]),
        ],
    );
    assert_eq!(find_pattern_name(&pattern), Some("count".to_string()));
    assert_eq!(find_type_annotation(&pattern), Some("Int".to_string()));
    assert_eq!(find_pattern_name(&node("x", vec![leaf("simple_identifier", "var", true)])), None);
    assert_eq!(find_type_annotation(&node("x", vec![leaf("type_identifier", "Int", true)])), None);
    assert_eq!(extract_type_annotation_text(&leaf("type_annotation", "::[String]", true)), "[String]");
    assert!(is_expression_node(&leaf("call_expression", "f()", true)));
    assert!(!is_expression_node(&leaf("class_declaration", "class A {}", true)));
    let parent = node("params", vec![leaf("parameter", "a", true), leaf(",", ",", false), leaf("parameter", "b", true), leaf("parameter", "c", true)]);
    assert_eq!(count_preceding_siblings_of_kind(Some(&parent), 3, "parameter"), 2);
    assert_eq!(count_preceding_siblings_of_kind(None, 0, "parameter"), 0);
}

#[test]
fn extractor_extensions() {
    assert_eq!(JavaScriptExtractor::new().extensions(), vec!["js", "mjs", "cjs", "jsx"]);
    assert_eq!(TypeScriptExtractor::new().extensions(), vec!["ts", "mts", "cts", "tsx"]);
    assert_eq!(PythonExtractor::new().extensions(), vec!["py"]);
    assert_eq!(RubyExtractor::new().extensions(), vec!["rb", "rake", "gemspec"]);
    assert_eq!(RustExtractor::new().extensions(), vec!["rs"]);
    assert_eq!(SwiftExtractor::new().extensions(), vec!["swift"]);
}

// ---------------------------------------------------------------------------
// Open documents and their diagnostics
// ---------------------------------------------------------------------------

#[test]
fn diagnose_parsed_document_has_no_diagnostics() {
    assert!(diagnose("class A {}", None).is_empty());
}

#[test]
fn diagnose_reports_one_error_from_ocql() {
    let text = "ab\ncd";
    let failure = ParseFailure::ExtraToken { start: 3, end: 5 };
    let d = diagnose(text, Some(&failure));
    assert_eq!(d.len(), 1);
    assert!(d[0].is_error);
    assert_eq!(d[0].source, "ocql");
    assert_eq!(d[0].message, "extra token");
    assert_eq!(d[0].range.start, Position { line: 1, character: 0 });
    assert_eq!(d[0].range.end, Position { line: 1, character: 2 });
}

fn diagnosed(a: DocumentAction) -> Option<(String, String)> {
    match a {
        DocumentAction::Diagnose { uri, text } => Some((uri, text)),
        _ => None,
    }
}

#[test]
fn open_change_close_documents() {
    let mut docs = OpenDocuments::new();
    let a = docs.handle(DocumentEvent::Opened { uri: "file:///a.ql".to_string(), text: "select 1".to_string() });
    assert_eq!(diagnosed(a), Some(("file:///a.ql".to_string(), "select 1".to_string())));
    let a = docs.handle(DocumentEvent::Changed { uri: "file:///a.ql".to_string(), last_text: Some("select 2".to_string()) });
    assert_eq!(diagnosed(a), Some(("file:///a.ql".to_string(), "select 2".to_string())));
    let a = docs.handle(DocumentEvent::Changed { uri: "file:///a.ql".to_string(), last_text: None });
    assert!(matches!(a, DocumentAction::Nothing));
    let a = docs.handle(DocumentEvent::Closed { uri: "file:///a.ql".to_string() });
    match a {
        DocumentAction::Clear { uri } => assert_eq!(uri, "file:///a.ql"),
        _ => panic!("closing a document clears its diagnostics"),
    }
}

#[test]
fn javascript_statement_kinds() {
    assert_eq!(js_statement_kind(&leaf("if_statement", "if (a) b;", true), false), Some(3));
    assert_eq!(js_statement_kind(&leaf("lexical_declaration", "const a = 1;", true), false), Some(22));
    assert_eq!(js_statement_kind(&leaf("lexical_declaration", "let a = 1;", true), false), Some(23));
    assert_eq!(js_statement_kind(&leaf("export_statement", "export default f;", true), false), Some(29));
    assert_eq!(js_statement_kind(&leaf("export_statement", "export * from 'm';", true), false), Some(28));
    assert_eq!(js_statement_kind(&leaf("export_statement", "export { a };", true), false), Some(30));
    assert_eq!(js_statement_kind(&leaf("switch_default", "default:", true), false), Some(19));
    assert_eq!(js_statement_kind(&leaf("interface_declaration", "interface I {}", true), false), None);
    assert_eq!(js_statement_kind(&leaf("interface_declaration", "interface I {}", true), true), Some(34));
    assert_eq!(js_statement_kind(&leaf("enum_declaration", "enum E {}", true), true), Some(36));
    assert_eq!(js_statement_kind(&leaf("identifier", "x", true), true), None);
}

#[test]
fn javascript_expression_classes() {
    assert_eq!(classify_js_expression(&leaf("identifier", "x", true)), ExprClass::Kind(79));
    assert_eq!(classify_js_expression(&leaf("undefined", "undefined", true)), ExprClass::Kind(79));
    assert_eq!(classify_js_expression(&leaf("false", "false", true)), ExprClass::Kind(2));
    let add = node("binary_expression", vec![leaf("identifier", "a", true), leaf("+", "+", false), leaf("number", "1", true)]);
    assert_eq!(classify_js_expression(&add), ExprClass::Kind(34));
    let assign = node("augmented_assignment_expression", vec![leaf("identifier", "a", true), leaf("-=", "-=", false), leaf("number", "1", true)]);
    assert_eq!(classify_js_expression(&assign), ExprClass::Kind(49));
    let not = node("unary_expression", vec![leaf("!", "!", false), leaf("identifier", "a", true)]);
    assert_eq!(classify_js_expression(&not), ExprClass::Kind(18));
    assert_eq!(classify_js_expression(&leaf("update_expression", "++i", true)), ExprClass::Kind(59));
    assert_eq!(classify_js_expression(&leaf("update_expression", "i++", true)), ExprClass::Kind(60));
    assert_eq!(classify_js_expression(&leaf("update_expression", "--i", true)), ExprClass::Kind(61));
    assert_eq!(classify_js_expression(&leaf("update_expression", "i--", true)), ExprClass::Kind(62));
    assert_eq!(classify_js_expression(&leaf("parenthesized_expression", "(a)", true)), ExprClass::Unwrap);
    assert_eq!(classify_js_expression(&leaf("optional_chain_expression", "a?.b", true)), ExprClass::Unwrap);
    assert_eq!(classify_js_expression(&leaf("pair", "a: 1", true)), ExprClass::Skip);
    assert_eq!(classify_js_expression(&leaf("comment", "// c", true)), ExprClass::Skip);
}

#[test]
fn python_statement_and_expression_classes() {
    assert_eq!(py_statement_kind(&leaf("assignment", "a = 1", true)), Some(0));
    assert_eq!(py_statement_kind(&leaf("augmented_assignment", "a += 1", true)), Some(20));
    assert_eq!(py_statement_kind(&leaf("pass_statement", "pass", true)), Some(9));
    assert_eq!(py_statement_kind(&leaf("function_definition", "def f(): pass", true)), None);
    assert_eq!(classify_py_expression(&leaf("identifier", "x", true)), ExprClass::Kind(2));
    assert_eq!(classify_py_expression(&leaf("concatenated_string", "'a' 'b'", true)), ExprClass::Kind(30));
    assert_eq!(classify_py_expression(&leaf("pair", "a: 1", true)), ExprClass::Kind(33));
    assert_eq!(classify_py_expression(&leaf("parenthesized_expression", "(x)", true)), ExprClass::Unwrap);
    assert_eq!(classify_py_expression(&leaf("comment", "# c", true)), ExprClass::Skip);
}

#[test]
fn rust_ruby_swift_statement_and_expression_classes() {
    assert_eq!(rust_statement_kind(&leaf("let_declaration", "let a = 1;", true)), Some(0));
    assert_eq!(rust_statement_kind(&leaf("function_item", "fn f() {}", true)), None);
    assert_eq!(classify_rust_expression(&leaf("scoped_identifier", "a::b", true)), ExprClass::Kind(4));
    assert_eq!(classify_rust_expression(&leaf("type_cast_expression", "a as u8", true)), ExprClass::ValueField);
    assert_eq!(classify_rust_expression(&leaf("parenthesized_expression", "(a)", true)), ExprClass::Unwrap);
    assert_eq!(ruby_statement_kind(&leaf("unless_modifier", "a unless b", true)), Some(17));
    assert_eq!(ruby_statement_kind(&leaf("call", "f", true)), None);
    assert_eq!(classify_ruby_expression(&leaf("hash_key_symbol", "a", true)), ExprClass::Kind(5));
    assert_eq!(classify_ruby_expression(&leaf("parenthesized_statements", "(a; b)", true)), ExprClass::EachNamed);
    assert_eq!(swift_statement_kind(&leaf("control_transfer_statement", "  throw e", true)), Some(7));
    assert_eq!(swift_statement_kind(&leaf("control_transfer_statement", "continue", true)), Some(9));
    assert_eq!(swift_statement_kind(&leaf("control_transfer_statement", "fallthrough", true)), Some(6));
    assert_eq!(swift_statement_kind(&leaf("property_declaration", "let a = 1", true)), None);
    assert_eq!(swift_statement_kind(&leaf("call_expression", "f()", true)), Some(12));
    assert_eq!(swift_statement_kind(&leaf("comment", "// c", true)), None);
    assert_eq!(classify_swift_expression(&leaf("infix_expression", "a = b", true)), ExprClass::Kind(15));
    assert_eq!(classify_swift_expression(&leaf("infix_expression", "a == b", true)), ExprClass::Kind(12));
    assert_eq!(classify_swift_expression(&leaf("infix_expression", "a + b", true)), ExprClass::Kind(12));
    assert_eq!(classify_swift_expression(&leaf("interpolation", "\\(a)", true)), ExprClass::Kind(24));
}

#[test]
fn undefined_names_are_read_from_error_messages() {
    assert_eq!(undefined_name("undefined type `Foo`"), Some((UndefinedKind::Type, "Foo".to_string())));
    assert_eq!(undefined_name("undefined variable `x`"), Some((UndefinedKind::Variable, "x".to_string())));
    assert_eq!(undefined_name("undefined predicate `p` with 2 arguments"), Some((UndefinedKind::Predicate, "p".to_string())));
    assert_eq!(undefined_name("undefined predicate `q"), Some((UndefinedKind::Predicate, "q".to_string())));
    assert_eq!(undefined_name("undefined type `Foo"), None);
    assert_eq!(undefined_name("undefined module `M`"), None);
    assert_eq!(undefined_name("undefined type `A`B`"), Some((UndefinedKind::Type, "A`B".to_string())));
}

#[test]
fn names_are_counted_and_ordered_by_count() {
    let items: Vec<String> = ["a", "b", "a", "c", "a", "b"].iter().map(|s| s.to_string()).collect();
    let tally = count_names(&items);
    let mut sorted_by_name = tally.clone();
    sorted_by_name.sort();
    assert_eq!(sorted_by_name, vec![("a".to_string(), 3), ("b".to_string(), 2), ("c".to_string(), 1)]);
    let ordered = sort_by_count(tally);
    assert_eq!(ordered, vec![("a".to_string(), 3), ("b".to_string(), 2), ("c".to_string(), 1)]);
    assert!(count_names(&vec![]).is_empty());
    let ties = sort_by_count(vec![("x".to_string(), 1), ("y".to_string(), 4), ("z".to_string(), 1)]);
    assert_eq!(ties[0], ("y".to_string(), 4));
    assert_eq!(ties.len(), 3);
}
