use ocql::js_extract::{Fact, FactLog, FactValue};
use ocql::rb_extract::{extract_rb_program, rb_tree_supported};
use ocql::syntax::SyntaxNode;

fn rnode(kind: &str, text: &str, field: Option<&str>, children: Vec<SyntaxNode>) -> SyntaxNode {
    SyntaxNode {
        kind: kind.to_string(),
        text: text.to_string(),
        named: true,
        field: field.map(|f| f.to_string()),
        children,
        start_row: 2,
        start_col: 0,
        end_row: 2,
        end_col: 5,
    }
}

fn rleaf(kind: &str, text: &str, field: Option<&str>) -> SyntaxNode {
    rnode(kind, text, field, vec![])
}

fn rtok(text: &str) -> SyntaxNode {
    let mut n = rnode(text, text, None, vec![]);
    n.named = false;
    n
}

fn rstring(text: &str, content: &str) -> SyntaxNode {
    let q = &text[..1];
    rnode("string", text, None, vec![rtok(q), rleaf("string_content", content, None), rtok(q)])
}

/// `puts <arg>` as a call with an argument list.
fn rputs(text: &str, arg: SyntaxNode) -> SyntaxNode {
    let arg_text = text["puts ".len()..].to_string();
    rnode(
        "call",
        text,
        None,
        vec![rleaf("identifier", "puts", Some("method")), rnode("argument_list", &arg_text, Some("arguments"), vec![arg])],
    )
}

fn extract(root: &SyntaxNode) -> Vec<String> {
    assert!(rb_tree_supported(root));
    let mut log = FactLog::new();
    extract_rb_program(&mut log, 100, root);
    rb_rows(&log)
}

fn print_tree(node: &SyntaxNode, depth: usize) {
    let indent = "  ".repeat(depth);
    println!("{}[{}] named={} children={} {:?}", indent, node.kind, node.named, node.children.len(), node.text);
    for c in &node.children {
        print_tree(c, depth + 1);
    }
}

/// `[1,2,3].each do |x|\n  puts x\nend\n`: the block's parameter list holds
/// its `|` delimiters.
fn array_each_block(var: &str) -> SyntaxNode {
    let array = rnode(
        "array",
        "[1,2,3]",
        Some("receiver"),
        vec![rtok("["), rleaf("integer", "1", None), rtok(","), rleaf("integer", "2", None), rtok(","), rleaf("integer", "3", None), rtok("]")],
    );
    each_block(array, var)
}

fn each_block(receiver: SyntaxNode, var: &str) -> SyntaxNode {
    let params = rnode(
        "block_parameters",
        &format!("|{}|", var),
        Some("parameters"),
        vec![rtok("|"), rleaf("identifier", var, None), rtok("|")],
    );
    let body = rnode("body_statement", &format!("puts {}", var), Some("body"), vec![rputs(&format!("puts {}", var), rleaf("identifier", var, None))]);
    let block = rnode("do_block", "do ... end", Some("block"), vec![rtok("do"), params, body, rtok("end")]);
    let text = format!("{}.each do |{}|\n  puts {}\nend", receiver.text, var, var);
    let call = rnode("call", &text, None, vec![receiver, rtok("."), rleaf("identifier", "each", Some("method")), block]);
    rnode("program", &text, None, vec![call])
}

fn rb_rows(log: &FactLog) -> Vec<String> {
    log.facts()
        .iter()
        .filter_map(|f| match f {
            Fact::Row { relation, values } if relation != "hasLocation" => {
                let vs: Vec<String> = values
                    .iter()
                    .map(|v| match v {
                        FactValue::Entity(e) => format!("#{}", e),
                        FactValue::Int(i) => format!("{}", i),
                        FactValue::Str(s) => format!("{:?}", s),
                    })
                    .collect();
                Some(format!("{}({})", relation, vs.join(",")))
            }
            _ => None,
        })
        .collect()
}

#[test]
fn rb_require_class_and_method() {
    let require = rnode(
        "call",
        "require 'json'",
        None,
        vec![
            rleaf("identifier", "require", Some("method")),
            rnode("argument_list", "'json'", Some("arguments"), vec![rleaf("string", "'json'", None)]),
        ],
    );
    let params = rnode(
        "method_parameters",
        "a, b = 1",
        Some("parameters"),
        vec![
            rleaf("identifier", "a", None),
            rnode("optional_parameter", "b = 1", None, vec![rleaf("identifier", "b", Some("name")), rleaf("integer", "1", Some("value"))]),
        ],
    );
    let method = rnode(
        "method",
        "def run a, b = 1\n a\nend",
        None,
        vec![rleaf("identifier", "run", Some("name")), params, rnode("body_statement", "a", Some("body"), vec![rleaf("identifier", "a", None)])],
    );
    let class = rnode(
        "class",
        "class Foo < Bar ... end",
        None,
        vec![
            rleaf("constant", "Foo", Some("name")),
            rleaf("constant", "Bar", Some("superclass")),
            rnode("body_statement", "...", Some("body"), vec![method]),
        ],
    );
    let root = rnode("program", "", None, vec![require, class]);
    let mut log = FactLog::new();
    extract_rb_program(&mut log, 9, &root);
    assert_eq!(
        rb_rows(&log),
        vec![
            "rb_requires(#0,\"json\")",
            "rb_exprs(#2,0,#9,0)",
            "rb_calls(#2,\"require 'json'\",#2,\"require\")",
            "rb_exprs(#4,4,#2,1)",
            "rb_classes(#6,\"Foo\",#9,\"Bar\")",
            "rb_methods(#8,\"run\",#6)",
            "rb_params(#10,\"a\",0,0,#8)",
            "rb_params(#12,\"b\",1,1,#8)",
            "rb_exprs(#14,1,#8,0)",
            "rb_local_vars(#16,\"a\",#8)",
        ]
    );
}

#[test]
fn test_tree_structure_block() {
    let root = array_each_block("x");
    print_tree(&root, 0);
    assert_eq!(root.children[0].kind, "call");
    // The parameter extraction never leaves a list that holds anything but
    // parameters, so the walk does not take this tree.
    assert!(!rb_tree_supported(&root));
}

#[test]
fn test_tree_structure() {
    let root = rnode("program", "puts 'hello'", None, vec![rputs("puts 'hello'", rstring("'hello'", "hello"))]);
    print_tree(&root, 0);
    assert!(rb_tree_supported(&root));
}

#[test]
fn test_minimal_extraction() {
    let assign = rnode(
        "assignment",
        "x = 1",
        None,
        vec![rleaf("identifier", "x", Some("left")), rtok("="), rleaf("integer", "1", Some("right"))],
    );
    let root = rnode("program", "x = 1", None, vec![assign]);
    assert_eq!(
        extract(&root),
        vec![
            "rb_exprs(#0,16,#100,0)",
            "rb_exprs(#2,1,#0,0)",
            "rb_local_vars(#4,\"x\",#0)",
            "rb_exprs(#5,2,#0,1)",
        ]
    );
}

#[test]
fn test_call_extraction() {
    let require = rnode(
        "call",
        "require 'json'",
        None,
        vec![
            rleaf("identifier", "require", Some("method")),
            rnode("argument_list", "'json'", Some("arguments"), vec![rstring("'json'", "json")]),
        ],
    );
    let root = rnode("program", "puts 'hello'\nrequire 'json'", None, vec![rputs("puts 'hello'", rstring("'hello'", "hello")), require]);
    assert_eq!(
        extract(&root),
        vec![
            "rb_exprs(#0,0,#100,0)",
            "rb_calls(#0,\"puts 'hello'\",#0,\"puts\")",
            "rb_exprs(#2,4,#0,1)",
            "rb_requires(#4,\"json\")",
            "rb_exprs(#6,0,#100,1)",
            "rb_calls(#6,\"require 'json'\",#6,\"require\")",
            "rb_exprs(#8,4,#6,1)",
        ]
    );
}

#[test]
fn test_class_extraction() {
    let method = rnode(
        "method",
        "def bar\n    42\n  end",
        None,
        vec![
            rtok("def"),
            rleaf("identifier", "bar", Some("name")),
            rnode("body_statement", "42", Some("body"), vec![rleaf("integer", "42", None)]),
            rtok("end"),
        ],
    );
    let class = rnode(
        "class",
        "class Foo\n  def bar\n    42\n  end\nend",
        None,
        vec![
            rtok("class"),
            rleaf("constant", "Foo", Some("name")),
            rnode("body_statement", "def bar\n    42\n  end", Some("body"), vec![method]),
            rtok("end"),
        ],
    );
    let root = rnode("program", "class Foo ... end", None, vec![class]);
    assert_eq!(
        extract(&root),
        vec!["rb_classes(#0,\"Foo\",#100,\"\")", "rb_methods(#2,\"bar\",#0)", "rb_exprs(#4,2,#2,0)"]
    );
}

#[test]
fn test_block_extraction_simpler() {
    let block = rnode(
        "do_block",
        "do\n  bar\nend",
        Some("block"),
        vec![rtok("do"), rnode("body_statement", "bar", Some("body"), vec![rleaf("identifier", "bar", None)]), rtok("end")],
    );
    let call = rnode("call", "foo do\n  bar\nend", None, vec![rleaf("identifier", "foo", Some("method")), block]);
    let root = rnode("program", "foo do\n  bar\nend", None, vec![call]);
    assert_eq!(
        extract(&root),
        vec![
            "rb_exprs(#0,0,#100,0)",
            "rb_calls(#0,\"foo do\\n  bar\\nend\",#0,\"foo\")",
            "rb_blocks(#2,#0)",
            "rb_exprs(#4,1,#2,0)",
            "rb_local_vars(#6,\"bar\",#2)",
        ]
    );
}

#[test]
fn test_block_extraction_with_receiver() {
    let root = each_block(rleaf("identifier", "x", Some("receiver")), "i");
    // The block's parameter list holds its `|` delimiters, which the
    // parameter extraction never gets past: the walk does not take it.
    assert!(!rb_tree_supported(&root));
}

#[test]
fn test_block_extraction_with_array() {
    let root = array_each_block("i");
    assert!(!rb_tree_supported(&root));
}

#[test]
fn test_block_extraction_simple() {
    let block = rnode("do_block", "do\nend", Some("block"), vec![rtok("do"), rtok("end")]);
    let call = rnode("call", "foo do\nend", None, vec![rleaf("identifier", "foo", Some("method")), block]);
    let root = rnode("program", "foo do\nend", None, vec![call]);
    assert_eq!(
        extract(&root),
        vec!["rb_exprs(#0,0,#100,0)", "rb_calls(#0,\"foo do\\nend\",#0,\"foo\")", "rb_blocks(#2,#0)"]
    );
}

#[test]
fn test_block_extraction() {
    let root = array_each_block("x");
    assert!(!rb_tree_supported(&root));
}

#[test]
fn test_if_extraction() {
    let then = rnode("then", "puts 'yes'", Some("consequence"), vec![rputs("puts 'yes'", rstring("'yes'", "yes"))]);
    let alt = rnode("else", "else\n  puts 'no'", Some("alternative"), vec![rtok("else"), rputs("puts 'no'", rstring("'no'", "no"))]);
    let if_node = rnode(
        "if",
        "if true\n  puts 'yes'\nelse\n  puts 'no'\nend",
        None,
        vec![rtok("if"), rleaf("true", "true", Some("condition")), then, alt, rtok("end")],
    );
    let root = rnode("program", "if ... end", None, vec![if_node]);
    assert_eq!(
        extract(&root),
        vec![
            "rb_stmts(#0,0,#100,0)",
            "rb_exprs(#2,12,#0,0)",
            "rb_exprs(#4,0,#0,0)",
            "rb_calls(#4,\"puts 'yes'\",#4,\"puts\")",
            "rb_exprs(#6,4,#4,1)",
            "rb_stmts(#8,21,#0,1)",
            "rb_exprs(#10,0,#8,0)",
            "rb_calls(#10,\"puts 'no'\",#10,\"puts\")",
            "rb_exprs(#12,4,#10,1)",
        ]
    );
}

#[test]
fn test_begin_rescue_extraction() {
    let assign = rnode(
        "assignment",
        "x = 1",
        None,
        vec![rleaf("identifier", "x", Some("left")), rtok("="), rleaf("integer", "1", Some("right"))],
    );
    let rescue = rnode(
        "rescue",
        "rescue => e\n  puts e",
        None,
        vec![
            rtok("rescue"),
            rnode("exception_variable", "=> e", Some("variable"), vec![rtok("=>"), rleaf("identifier", "e", None)]),
            rnode("then", "puts e", Some("body"), vec![rputs("puts e", rleaf("identifier", "e", None))]),
        ],
    );
    let ensure = rnode("ensure", "ensure\n  puts 'done'", None, vec![rtok("ensure"), rputs("puts 'done'", rstring("'done'", "done"))]);
    let begin = rnode("begin", "begin ... end", None, vec![rtok("begin"), assign, rescue, ensure, rtok("end")]);
    let root = rnode("program", "begin ... end", None, vec![begin]);
    assert_eq!(
        extract(&root),
        vec![
            "rb_stmts(#0,6,#100,0)",
            "rb_exprs(#2,16,#0,0)",
            "rb_exprs(#4,1,#2,0)",
            "rb_local_vars(#6,\"x\",#2)",
            "rb_exprs(#7,2,#2,1)",
            "rb_stmts(#9,7,#0,1)",
            "rb_stmts(#11,8,#0,2)",
            "rb_exprs(#13,0,#11,0)",
            "rb_calls(#13,\"puts 'done'\",#13,\"puts\")",
            "rb_exprs(#15,4,#13,1)",
        ]
    );
}
