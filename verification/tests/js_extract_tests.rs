use ocql::js_extract::{
    extract_expr, extract_function_params, extract_program, extract_stmt, Fact, FactLog, FactValue,
};
use ocql::syntax::SyntaxNode;

fn mk(kind: &str, text: &str, named: bool, field: Option<&str>, children: Vec<SyntaxNode>) -> SyntaxNode {
    SyntaxNode {
        kind: kind.to_string(),
        text: text.to_string(),
        named,
        field: field.map(|f| f.to_string()),
        children,
        start_row: 1,
        start_col: 2,
        end_row: 3,
        end_col: 4,
    }
}

fn named(kind: &str, text: &str) -> SyntaxNode {
    mk(kind, text, true, None, vec![])
}

fn under(field: &str, mut n: SyntaxNode) -> SyntaxNode {
    n.field = Some(field.to_string());
    n
}

fn token(text: &str) -> SyntaxNode {
    mk(text, text, false, None, vec![])
}

fn render(log: &FactLog) -> Vec<String> {
    log.facts()
        .iter()
        .map(|f| match f {
            Fact::Row { relation, values } => {
                let vs: Vec<String> = values
                    .iter()
                    .map(|v| match v {
                        FactValue::Entity(e) => format!("#{}", e),
                        FactValue::Int(i) => format!("{}", i),
                        FactValue::Str(s) => format!("{:?}", s),
                    })
                    .collect();
                format!("{}({})", relation, vs.join(","))
            }
            Fact::Location { id, file, .. } => format!("loc#{}@{}", id, file),
        })
        .collect()
}

#[test]
fn js_let_declaration_facts() {
    let decl = mk(
        "variable_declarator",
        "x = 1",
        true,
        None,
        vec![under("name", named("identifier", "x")), token("="), under("value", named("number", "1"))],
    );
    let stmt = mk("lexical_declaration", "let x = 1;", true, None, vec![token("let"), decl, token(";")]);
    let root = mk("program", "let x = 1;", true, None, vec![stmt]);
    let mut log = FactLog::new();
    extract_program(&mut log, 7, &root, false);
    let expected = vec![
        "toplevels(#0,0)",
        "loc#1@7",
        "hasLocation(#0,#1)",
        "scopes(#2,0)",
        "loc#4@7",
        "stmts(#3,23,#0,0)",
        "hasLocation(#3,#4)",
        "loc#6@7",
        "exprs(#5,64,#3,0)",
        "hasLocation(#5,#6)",
        "variables(#7,\"x\",#2)",
        "loc#8@7",
        "hasLocation(#7,#8)",
        "exprs(#9,78,#5,0)",
        "hasLocation(#9,#8)",
        "literals(\"x\",#9)",
        "loc#11@7",
        "exprs(#10,3,#5,1)",
        "hasLocation(#10,#11)",
        "literals(\"1\",#10)",
    ];
    assert_eq!(render(&log), expected);
    assert_eq!(log.next_id(), 12);
}

#[test]
fn js_module_program_uses_module_scope() {
    let import = mk(
        "import_statement",
        "import { a, b } from './m';",
        true,
        None,
        vec![
            token("import"),
            mk(
                "import_clause",
                "{ a, b }",
                true,
                None,
                vec![mk(
                    "named_imports",
                    "{ a, b }",
                    true,
                    None,
                    vec![
                        mk("import_specifier", "a", true, None, vec![under("name", named("identifier", "a"))]),
                        mk("import_specifier", "b", true, None, vec![under("name", named("identifier", "b"))]),
                    ],
                )],
            ),
            token("from"),
            under("source", named("string", "'./m'")),
        ],
    );
    let root = mk("program", "", true, None, vec![import]);
    let mut log = FactLog::new();
    extract_program(&mut log, 1, &root, false);
    let r = render(&log);
    assert_eq!(r[0], "toplevels(#0,1)");
    assert_eq!(r[3], "scopes(#2,3)");
    assert_eq!(r[5], "stmts(#3,27,#0,0)");
    assert_eq!(r[8], "imports(#5,#3,\"a, b\",\"./m\")");
    assert_eq!(r[9], "hasLocation(#5,#6)");
    assert_eq!(r.len(), 10);
}

#[test]
fn js_call_arguments_are_numbered_from_one() {
    let args = mk(
        "arguments",
        "(a, 2)",
        true,
        None,
        vec![token("("), named("identifier", "a"), token(","), named("number", "2"), token(")")],
    );
    let call = mk("call_expression", "f(a, 2)", true, None, vec![under("function", named("identifier", "f")), under("arguments", args)]);
    let mut log = FactLog::new();
    let r = extract_expr(&mut log, 0, &call, 100, 200, 5, false);
    assert_eq!(r, Some(0));
    let rows: Vec<String> = render(&log).into_iter().filter(|s| s.starts_with("exprs")).collect();
    assert_eq!(rows, vec!["exprs(#0,13,#100,5)", "exprs(#2,79,#0,0)", "exprs(#4,79,#0,1)", "exprs(#6,3,#0,2)"]);
}

#[test]
fn js_parenthesized_expression_is_unwrapped() {
    let paren = mk("parenthesized_expression", "(x)", true, None, vec![token("("), named("identifier", "x"), token(")")]);
    let mut log = FactLog::new();
    let r = extract_expr(&mut log, 0, &paren, 9, 9, 3, false);
    assert_eq!(r, Some(0));
    assert_eq!(render(&log)[1], "exprs(#0,79,#9,3)");
    let mut empty = FactLog::new();
    let pair = named("pair", "a: 1");
    assert_eq!(extract_expr(&mut empty, 0, &pair, 9, 9, 0, false), None);
    assert_eq!(empty.facts().len(), 0);
}

#[test]
fn js_if_else_and_block_scope() {
    let cons = mk("statement_block", "{}", true, Some("consequence"), vec![token("{"), named("comment", "// c"), token("}")]);
    let alt = mk("return_statement", "return y;", true, Some("alternative"), vec![token("return"), named("identifier", "y")]);
    let ifs = mk("if_statement", "if (c) {} else return y;", true, None, vec![under("condition", named("identifier", "c")), cons, alt]);
    let mut log = FactLog::new();
    let r = extract_stmt(&mut log, 0, &ifs, 50, 60, 0, false);
    assert_eq!(r, Some(0));
    let rows: Vec<String> = render(&log).into_iter().filter(|s| !s.starts_with("loc") && !s.starts_with("hasLocation")).collect();
    assert_eq!(
        rows,
        vec![
            "stmts(#0,3,#50,0)",
            "exprs(#2,79,#0,0)",
            "literals(\"c\",#2)",
            "stmts(#4,1,#0,0)",
            "scopes(#6,4)",
            "comments(#7,0,#4,\"// c\")",
            "stmts(#9,9,#0,1)",
            "exprs(#11,79,#9,0)",
            "literals(\"y\",#11)",
        ]
    );
}

#[test]
fn js_function_params_bind_variables() {
    let params = mk(
        "formal_parameters",
        "(a, b = 1, ...c, [d])",
        true,
        None,
        vec![
            token("("),
            named("identifier", "a"),
            mk("assignment_pattern", "b = 1", true, None, vec![under("left", named("identifier", "b")), under("right", named("number", "1"))]),
            mk("rest_pattern", "...c", true, None, vec![token("..."), named("identifier", "c")]),
            mk("array_pattern", "[d]", true, None, vec![token("["), named("identifier", "d"), token("]")]),
            token(")"),
        ],
    );
    let mut log = FactLog::new();
    extract_function_params(&mut log, 0, &params, 10, 20, false);
    let vars: Vec<String> = render(&log).into_iter().filter(|s| s.starts_with("variables")).collect();
    assert_eq!(
        vars,
        vec!["variables(#0,\"a\",#20)", "variables(#2,\"b\",#20)", "variables(#4,\"c\",#20)", "variables(#6,\"d\",#20)"]
    );
    assert_eq!(log.next_id(), 8);
}

#[test]
fn ts_required_parameter_has_type_annotation() {
    let p = mk(
        "required_parameter",
        "a: number",
        true,
        None,
        vec![under("pattern", named("identifier", "a")), under("type", named("type_annotation", ": number"))],
    );
    let params = mk("formal_parameters", "(a: number)", true, None, vec![token("("), p, token(")")]);
    let mut ts_log = FactLog::new();
    extract_function_params(&mut ts_log, 0, &params, 10, 20, true);
    let rows: Vec<String> = render(&ts_log).into_iter().filter(|s| !s.starts_with("loc") && !s.starts_with("hasLocation")).collect();
    assert_eq!(rows, vec!["variables(#0,\"a\",#20)", "type_annotations(#2,#10,\": number\")"]);
    let mut js_log = FactLog::new();
    extract_function_params(&mut js_log, 0, &params, 10, 20, false);
    assert_eq!(js_log.facts().len(), 0);
}

#[test]
fn js_class_with_getter_and_field() {
    let getter = mk(
        "method_definition",
        "get v() { }",
        true,
        None,
        vec![
            token("get"),
            under("name", named("property_identifier", "v")),
            under("parameters", mk("formal_parameters", "()", true, None, vec![token("("), token(")")])),
            under("body", mk("statement_block", "{ }", true, None, vec![token("{"), token("}")])),
        ],
    );
    let field = mk("field_definition", "w = 1", true, None, vec![under("value", named("number", "1"))]);
    let body = mk("class_body", "{...}", true, Some("body"), vec![token("{"), getter, field, token("}")]);
    let class = mk("class_declaration", "class K {...}", true, None, vec![token("class"), under("name", named("identifier", "K")), body]);
    let mut log = FactLog::new();
    extract_stmt(&mut log, 0, &class, 1, 2, 0, false);
    let rows: Vec<String> = render(&log).into_iter().filter(|s| !s.starts_with("loc") && !s.starts_with("hasLocation")).collect();
    assert_eq!(
        rows,
        vec![
            "stmts(#0,26,#1,0)",
            "classes(#2,\"K\",#0)",
            "scopes(#4,8)",
            "variables(#5,\"K\",#2)",
            "properties(#6,#2,0,1)",
            "functions(#8,\"v\",#4)",
            "scopes(#10,1)",
            "stmts(#11,1,#8,0)",
            "scopes(#13,4)",
            "properties(#14,#2,1,0)",
            "exprs(#16,3,#14,1)",
            "literals(\"1\",#16)",
        ]
    );
}

#[test]
fn js_object_pair_and_shorthand() {
    let obj = mk(
        "object",
        "{ k: 1, s }",
        true,
        None,
        vec![
            token("{"),
            mk("pair", "k: 1", true, None, vec![under("key", named("property_identifier", "k")), under("value", named("number", "1"))]),
            named("shorthand_property_identifier", "s"),
            token("}"),
        ],
    );
    let mut log = FactLog::new();
    extract_expr(&mut log, 0, &obj, 3, 4, 0, false);
    let rows: Vec<String> = render(&log).into_iter().filter(|s| !s.starts_with("loc") && !s.starts_with("hasLocation")).collect();
    assert_eq!(
        rows,
        vec![
            "exprs(#0,8,#3,0)",
            "properties(#2,#0,0,0)",
            "exprs(#4,3,#2,1)",
            "literals(\"1\",#4)",
            "properties(#6,#0,1,0)",
            "exprs(#8,79,#6,0)",
            "literals(\"s\",#8)",
        ]
    );
}

#[test]
fn js_export_default_and_arrow() {
    let arrow = mk(
        "arrow_function",
        "x => x",
        true,
        None,
        vec![under("parameter", named("identifier", "x")), token("=>"), under("body", named("identifier", "x"))],
    );
    let export = mk("export_statement", "export default x => x", true, None, vec![token("export"), token("default"), arrow]);
    let mut log = FactLog::new();
    extract_stmt(&mut log, 0, &export, 1, 2, 0, false);
    let rows: Vec<String> = render(&log).into_iter().filter(|s| !s.starts_with("loc") && !s.starts_with("hasLocation")).collect();
    assert_eq!(
        rows,
        vec![
            "stmts(#0,29,#1,0)",
            "exports(#2,#0)",
            "exprs(#4,65,#0,0)",
            "functions(#6,\"\",#2)",
            "scopes(#8,1)",
            "variables(#9,\"x\",#8)",
            "exprs(#11,79,#6,0)",
            "literals(\"x\",#11)",
        ]
    );
}
