use ocql::js_extract::{Fact, FactLog, FactValue};
use ocql::py_extract::{extract_module, extract_py_import};
use ocql::syntax::SyntaxNode;

fn pnode(kind: &str, text: &str, named: bool, field: Option<&str>, children: Vec<SyntaxNode>) -> SyntaxNode {
    SyntaxNode {
        kind: kind.to_string(),
        text: text.to_string(),
        named,
        field: field.map(|f| f.to_string()),
        children,
        start_row: 0,
        start_col: 0,
        end_row: 0,
        end_col: 1,
    }
}

fn pleaf(kind: &str, text: &str) -> SyntaxNode {
    pnode(kind, text, true, None, vec![])
}

fn ptok(text: &str) -> SyntaxNode {
    pnode(text, text, false, None, vec![])
}

fn pfield(field: &str, mut n: SyntaxNode) -> SyntaxNode {
    n.field = Some(field.to_string());
    n
}

fn rows_without_locations(log: &FactLog) -> Vec<String> {
    log.facts()
        .iter()
        .filter_map(|f| match f {
            Fact::Row { relation, values } if relation != "hasLocation" => {
                let vs: Vec<String> = values
                    .iter()
                    .map(|v| match v {
                        FactValue::Entity(e) => format!("#{}", e),
                        FactValue::Int(i) => format!("{}", i),
                        FactValue::Str(s) => format!("{:?}", s),
                    })
                    .collect();
                Some(format!("{}({})", relation, vs.join(",")))
            }
            _ => None,
        })
        .collect()
}

#[test]
fn py_assignment_of_call() {
    let args = pnode("argument_list", "(1)", true, None, vec![ptok("("), pleaf("integer", "1"), ptok(")")]);
    let call = pnode("call", "f(1)", true, None, vec![pfield("function", pleaf("identifier", "f")), pfield("arguments", args)]);
    let assign = pnode(
        "assignment",
        "x = f(1)",
        true,
        None,
        vec![pfield("left", pleaf("identifier", "x")), ptok("="), pfield("right", call)],
    );
    let stmt = pnode("expression_statement", "x = f(1)", true, None, vec![assign]);
    let root = pnode("module", "x = f(1)", true, None, vec![stmt]);
    let mut log = FactLog::new();
    extract_module(&mut log, 5, &root);
    assert_eq!(
        rows_without_locations(&log),
        vec![
            "py_Modules(#0,0,\"<module>\",#5)",
            "py_stmts(#2,13,#0,0)",
            "py_exprs(#4,2,#2,0)",
            "py_expr_names(#4,\"x\")",
            "py_variables(#6,\"x\",#2)",
            "py_exprs(#7,0,#2,1)",
            "py_exprs(#9,2,#7,0)",
            "py_expr_names(#9,\"f\")",
            "py_exprs(#11,3,#7,1)",
            "py_expr_values(#11,\"1\")",
        ]
    );
    assert_eq!(log.next_id(), 13);
}

#[test]
fn py_decorated_async_function() {
    let params = pnode(
        "parameters",
        "(a, *args, b=2)",
        true,
        None,
        vec![
            ptok("("),
            pleaf("identifier", "a"),
            ptok(","),
            pnode("list_splat_pattern", "*args", true, None, vec![ptok("*"), pleaf("identifier", "args")]),
            ptok(","),
            pnode(
                "default_parameter",
                "b=2",
                true,
                None,
                vec![pfield("name", pleaf("identifier", "b")), ptok("="), pfield("value", pleaf("integer", "2"))],
            ),
            ptok(")"),
        ],
    );
    let body = pnode("block", "pass", true, Some("body"), vec![pleaf("pass_statement", "pass")]);
    let func = pnode(
        "function_definition",
        "async def g(a, *args, b=2): pass",
        true,
        None,
        vec![ptok("async"), ptok("def"), pfield("name", pleaf("identifier", "g")), pfield("parameters", params), ptok(":"), body],
    );
    let dec = pnode("decorated_definition", "@dec\nasync def g(a, *args, b=2): pass", true, None, vec![pleaf("decorator", "@dec"), func]);
    let root = pnode("module", "", true, None, vec![dec]);
    let mut log = FactLog::new();
    extract_module(&mut log, 1, &root);
    assert_eq!(
        rows_without_locations(&log),
        vec![
            "py_Modules(#0,0,\"<module>\",#1)",
            "py_Functions(#2,\"g\",#0,0)",
            "py_function_is_async(#2)",
            "py_scope_nesting(#2,#0)",
            "py_parameters(#4,\"a\",0,#2,0)",
            "py_parameters(#6,\"*\",1,#2,2)",
            "py_parameters(#8,\"b\",2,#2,0)",
            "py_parameter_defaults(#8,\"2\")",
            "py_stmts(#10,9,#2,0)",
            "py_decorators(#12,#2,0,\"dec\")",
        ]
    );
}

#[test]
fn py_imports_record_module_and_names() {
    let plain = pnode(
        "import_statement",
        "import os.path as p, sys",
        true,
        None,
        vec![
            ptok("import"),
            pnode(
                "aliased_import",
                "os.path as p",
                true,
                None,
                vec![pfield("name", pleaf("dotted_name", "os.path")), ptok("as"), pfield("alias", pleaf("identifier", "p"))],
            ),
            ptok(","),
            pleaf("dotted_name", "sys"),
        ],
    );
    let mut log = FactLog::new();
    extract_py_import(&mut log, 0, 9, &plain, 3, false);
    assert_eq!(
        rows_without_locations(&log),
        vec![
            "py_imports(#0,0,\"os.path as p, sys\",#9,3)",
            "py_import_names(#0,0,\"os.path\",\"p\")",
            "py_import_names(#0,1,\"sys\",\"\")",
        ]
    );
    let from = pnode(
        "import_from_statement",
        "from m import *",
        true,
        None,
        vec![ptok("from"), pfield("module_name", pleaf("dotted_name", "m")), ptok("import"), pleaf("wildcard_import", "*")],
    );
    let mut log2 = FactLog::new();
    extract_py_import(&mut log2, 0, 9, &from, 0, true);
    assert_eq!(
        rows_without_locations(&log2),
        vec!["py_imports(#0,1,\"m\",#9,0)", "py_import_names(#0,0,\"*\",\"\")"]
    );
}
