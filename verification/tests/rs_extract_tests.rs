use ocql::js_extract::{Fact, FactLog, FactValue};
use ocql::rs_extract::extract_source_file;
use ocql::syntax::SyntaxNode;

fn snode(kind: &str, text: &str, field: Option<&str>, children: Vec<SyntaxNode>) -> SyntaxNode {
    SyntaxNode {
        kind: kind.to_string(),
        text: text.to_string(),
        named: true,
        field: field.map(|f| f.to_string()),
        children,
        start_row: 0,
        start_col: 0,
        end_row: 0,
        end_col: 0,
    }
}

fn sleaf(kind: &str, text: &str, field: Option<&str>) -> SyntaxNode {
    snode(kind, text, field, vec![])
}

fn rs_rows(log: &FactLog) -> Vec<String> {
    log.facts()
        .iter()
        .filter_map(|f| match f {
            Fact::Row { relation, values } if relation != "hasLocation" => {
                let vs: Vec<String> = values
                    .iter()
                    .map(|v| match v {
                        FactValue::Entity(e) => format!("#{}", e),
                        FactValue::Int(i) => format!("{}", i),
                        FactValue::Str(s) => format!("{:?}", s),
                    })
                    .collect();
                Some(format!("{}({})", relation, vs.join(",")))
            }
            _ => None,
        })
        .collect()
}

#[test]
fn rs_struct_and_function_items() {
    let attr = sleaf("attribute_item", "#[derive(Debug)]", None);
    let strukt = snode(
        "struct_item",
        "struct P { x: i32 }",
        None,
        vec![
            sleaf("type_identifier", "P", Some("name")),
            snode(
                "field_declaration_list",
                "{ x: i32 }",
                Some("body"),
                vec![snode(
                    "field_declaration",
                    "x: i32",
                    None,
                    vec![sleaf("field_identifier", "x", Some("name")), sleaf("primitive_type", "i32", Some("type"))],
                )],
            ),
        ],
    );
    let func = snode(
        "function_item",
        "fn f(a: u8) { let y = a; }",
        None,
        vec![
            sleaf("identifier", "f", Some("name")),
            snode(
                "parameters",
                "(a: u8)",
                Some("parameters"),
                vec![snode("parameter", "a: u8", None, vec![sleaf("identifier", "a", Some("pattern")), sleaf("primitive_type", "u8", Some("type"))])],
            ),
            snode(
                "block",
                "{ let y = a; }",
                Some("body"),
                vec![snode(
                    "let_declaration",
                    "let y = a;",
                    None,
                    vec![sleaf("identifier", "y", Some("pattern")), sleaf("identifier", "a", Some("value"))],
                )],
            ),
        ],
    );
    let root = snode("source_file", "", None, vec![attr, strukt, func]);
    let mut log = FactLog::new();
    extract_source_file(&mut log, 7, &root);
    assert_eq!(
        rs_rows(&log),
        vec![
            "rs_attributes(#0,\"derive\",#7)",
            "rs_structs(#2,\"P\",#7)",
            "rs_fields(#4,\"x\",\"i32\",#2)",
            "rs_functions(#6,\"f\",#7)",
            "rs_params(#8,\"a\",\"u8\",0,#6)",
            "rs_stmts(#10,0,#6,0)",
            "rs_local_vars(#12,\"y\",\"unknown\",#10)",
            "rs_exprs(#14,4,#10,0)",
        ]
    );
}
