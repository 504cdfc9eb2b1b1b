use ocql::js_extract::{Fact, FactLog, FactValue};
use ocql::sw_extract::extract_source_file;
use ocql::syntax::SyntaxNode;

fn snode(kind: &str, text: &str, named: bool, children: Vec<SyntaxNode>) -> SyntaxNode {
    SyntaxNode {
        kind: kind.to_string(),
        text: text.to_string(),
        named,
        field: None,
        children,
        start_row: 0,
        start_col: 0,
        end_row: 0,
        end_col: 1,
    }
}

fn sleaf(kind: &str, text: &str) -> SyntaxNode {
    snode(kind, text, true, vec![])
}

fn stok(text: &str) -> SyntaxNode {
    snode(text, text, false, vec![])
}

fn sname(kind: &str, text: &str) -> SyntaxNode {
    let mut n = sleaf(kind, text);
    n.field = Some("name".to_string());
    n
}

fn swift_rows(log: &FactLog) -> Vec<String> {
    log.facts()
        .iter()
        .filter_map(|f| match f {
            Fact::Row { relation, values } if relation != "hasLocation" => {
                let vs: Vec<String> = values
                    .iter()
                    .map(|v| match v {
                        FactValue::Entity(e) => format!("#{}", e),
                        FactValue::Int(i) => format!("{}", i),
                        FactValue::Str(s) => format!("{:?}", s),
                    })
                    .collect();
                Some(format!("{}({})", relation, vs.join(",")))
            }
            _ => None,
        })
        .collect()
}

#[test]
fn swift_class_with_method_returning_literal() {
    let ret = snode("control_transfer_statement", "return 1", true, vec![stok("return"), sleaf("integer_literal", "1")]);
    let stmts = snode("statements", "return 1", true, vec![ret]);
    let body = snode("function_body", "{ return 1 }", true, vec![stok("{"), stmts, stok("}")]);
    let func = snode("function_declaration", "func f() { return 1 }", true, vec![stok("func"), sname("simple_identifier", "f"), body]);
    let class_body = snode("class_body", "{ func f() { return 1 } }", true, vec![stok("{"), func, stok("}")]);
    let class = snode(
        "class_declaration",
        "class A { func f() { return 1 } }",
        true,
        vec![stok("class"), sname("type_identifier", "A"), class_body],
    );
    let root = snode("source_file", "class A { func f() { return 1 } }", true, vec![class]);
    let mut log = FactLog::new();
    extract_source_file(&mut log, 7, &root);
    assert_eq!(
        swift_rows(&log),
        vec![
            "swift_classes(#0,\"A\",#7)",
            "swift_type_inheritance(#0,\"A\",0)",
            "swift_functions(#2,\"f\",#0)",
            "swift_stmts(#4,6,#2,0)",
            "swift_exprs(#6,4,#4,0)",
        ]
    );
}

#[test]
fn swift_enum_cases_and_top_level_assignment() {
    let entry = snode(
        "enum_entry",
        "case a, b",
        true,
        vec![stok("case"), sleaf("simple_identifier", "a"), stok(","), sleaf("simple_identifier", "b")],
    );
    let ebody = snode("enum_class_body", "{ case a, b }", true, vec![stok("{"), entry, stok("}")]);
    let decl = snode(
        "class_declaration",
        "enum E { case a, b }",
        true,
        vec![stok("enum"), sname("type_identifier", "E"), ebody],
    );
    let assign = snode(
        "infix_expression",
        "x = y",
        true,
        vec![sleaf("simple_identifier", "x"), stok("="), sleaf("simple_identifier", "y")],
    );
    let root = snode("source_file", "enum E { case a, b }\nx = y", true, vec![decl, assign]);
    let mut log = FactLog::new();
    extract_source_file(&mut log, 7, &root);
    assert_eq!(
        swift_rows(&log),
        vec![
            "swift_enums(#0,\"E\",#7)",
            "swift_type_inheritance(#0,\"E\",0)",
            "swift_enum_cases(#2,\"a\",#0)",
            "swift_enum_cases(#4,\"b\",#0)",
            "swift_stmts(#6,12,#7,0)",
            "swift_exprs(#8,15,#6,0)",
            "swift_exprs(#10,3,#8,0)",
            "swift_exprs(#12,3,#8,1)",
        ]
    );
}

#[test]
fn swift_local_property_is_recorded_as_variable_and_property() {
    let prop = snode(
        "property_declaration",
        "let x = 1",
        true,
        vec![stok("let"), sleaf("pattern", "x"), stok("="), sleaf("integer_literal", "1")],
    );
    let stmts = snode("statements", "let x = 1", true, vec![prop]);
    let body = snode("function_body", "{ let x = 1 }", true, vec![stok("{"), stmts, stok("}")]);
    let func = snode("function_declaration", "func f() { let x = 1 }", true, vec![stok("func"), sname("simple_identifier", "f"), body]);
    let root = snode("source_file", "func f() { let x = 1 }", true, vec![func]);
    let mut log = FactLog::new();
    extract_source_file(&mut log, 7, &root);
    assert_eq!(
        swift_rows(&log),
        vec![
            "swift_functions(#0,\"f\",#7)",
            "swift_local_vars(#2,\"x\",\"unknown\",#0)",
            "swift_properties(#4,\"x\",\"unknown\",#0)",
        ]
    );
}
