use ocql::ast::{
    ClassDecl, ClassMember, Expr, ExprKind, Formula, FormulaKind, Ident, Literal, ModuleDecl, ModuleMember, Predicate,
    PredicateAliasDecl, PredicateHead, Select, SelectExpr, SourceFile, TypeAliasDecl, TypeExpr, TypeExprKind,
    TypeParam, VarDecl,
};
use ocql::collect::{resolve_type_expr_simple, DeclarationCollector};
use ocql::database::{analyze_single_file, HirDatabase};
use ocql::def::{DefKind, FileId};
use ocql::diagnostics::{Severity, Span};
use ocql::namespace::ModuleNamespaces;
use ocql::resolve::{AggKind, BinOp, CompOp, ResolvedRef};
use ocql::resolver::NameResolver;
use ocql::types::{PrimitiveType, Type};

// ---------------------------------------------------------------------------
// Building syntax trees
// ---------------------------------------------------------------------------

fn sp(start: usize) -> Span {
    Span::new(start, start + 1)
}

fn ident(name: &str) -> Ident {
    Ident { name: name.to_string(), span: sp(0) }
}

fn ident_at(name: &str, at: usize) -> Ident {
    Ident { name: name.to_string(), span: sp(at) }
}

fn prim(p: PrimitiveType) -> TypeExpr {
    TypeExpr { kind: TypeExprKind::Primitive(p), span: sp(0) }
}

fn named_type(name: &str) -> TypeExpr {
    TypeExpr { kind: TypeExprKind::ClassName(ident(name)), span: sp(0) }
}

fn var(ty: TypeExpr, name: &str) -> VarDecl {
    VarDecl { ty, name: ident(name), span: sp(0) }
}

fn int_var(name: &str) -> VarDecl {
    var(prim(PrimitiveType::Int), name)
}

fn expr(kind: ExprKind) -> Expr {
    Expr { kind, span: sp(0) }
}

fn lit_int(n: i64) -> Expr {
    expr(ExprKind::Literal(Literal::Int(n)))
}

fn float() -> Expr {
    expr(ExprKind::Literal(Literal::Float))
}

fn string(s: &str) -> Expr {
    expr(ExprKind::Literal(Literal::String(s.to_string())))
}

fn v(name: &str) -> Expr {
    expr(ExprKind::Variable(ident(name)))
}

fn bin(lhs: Expr, op: BinOp, rhs: Expr) -> Expr {
    expr(ExprKind::BinaryOp { lhs: Box::new(lhs), op, rhs: Box::new(rhs) })
}

fn call(name: &str, args: Vec<Expr>) -> Expr {
    expr(ExprKind::Call { name: ident(name), args })
}

fn range(low: Expr, high: Expr) -> Expr {
    expr(ExprKind::Range { low: Box::new(low), high: Box::new(high) })
}

fn formula(kind: FormulaKind) -> Formula {
    Formula { kind, span: sp(0) }
}

fn cmp(lhs: Expr, op: CompOp, rhs: Expr) -> Formula {
    formula(FormulaKind::Comparison { lhs: Box::new(lhs), op, rhs: Box::new(rhs) })
}

fn and(lhs: Formula, rhs: Formula) -> Formula {
    formula(FormulaKind::Conjunction { lhs: Box::new(lhs), rhs: Box::new(rhs) })
}

fn pcall(name: &str, args: Vec<Expr>) -> Formula {
    formula(FormulaKind::PredicateCall { name: ident(name), args })
}

fn exists_f(vars: Vec<VarDecl>, body: Formula) -> Formula {
    formula(FormulaKind::Exists { vars, guard: None, body: Box::new(body) })
}

fn predicate(name: &str, params: Vec<VarDecl>, result_type: Option<TypeExpr>, body: Formula) -> Predicate {
    Predicate {
        head: PredicateHead { name: ident(name), params, result_type, span: sp(0) },
        body: Some(body),
        span: sp(0),
    }
}

fn select(from: Vec<VarDecl>, where_clause: Option<Formula>, exprs: Vec<Expr>) -> ModuleMember {
    ModuleMember::Select(Select {
        from,
        where_clause,
        select_exprs: exprs.into_iter().map(|e| SelectExpr { expr: e, label: None, span: sp(0) }).collect(),
        order_by: vec![],
    })
}

fn analyze(members: Vec<ModuleMember>) -> HirDatabase {
    analyze_single_file(Ok(SourceFile { members }), "", "test.ql")
}

fn analyze_ok(members: Vec<ModuleMember>) -> HirDatabase {
    let db = analyze(members);
    let errors: Vec<String> = db.all_errors().iter().map(|d| d.message.clone()).collect();
    assert!(errors.is_empty(), "unexpected errors: {errors:?}");
    db
}

fn analyze_errors(members: Vec<ModuleMember>) -> Vec<String> {
    let db = analyze(members);
    db.all_errors().iter().map(|d| d.message.clone()).collect()
}

fn count_typed(db: &HirDatabase, t: &Type) -> usize {
    db.files[0].expr_types.iter().filter(|(_, ty)| ty == t).count()
}

fn is_small() -> ModuleMember {
    // predicate isSmall(int x) { x >= 0 and x < 10 }
    ModuleMember::Predicate(predicate(
        "isSmall",
        vec![int_var("x")],
        None,
        and(cmp(v("x"), CompOp::Ge, lit_int(0)), cmp(v("x"), CompOp::Lt, lit_int(10))),
    ))
}

// ---------------------------------------------------------------------------
// Single-file analysis
// ---------------------------------------------------------------------------

#[test]
fn simple_select() {
    // from int x where x > 0 select x
    let db = analyze_ok(vec![select(vec![int_var("x")], Some(cmp(v("x"), CompOp::Gt, lit_int(0))), vec![v("x")])]);
    let file = &db.files[0];
    assert!(!file.expr_types.is_empty());
    assert!(count_typed(&db, &Type::Primitive(PrimitiveType::Int)) > 0, "expected int-typed expressions");
}

#[test]
fn predicate_call_in_where() {
    analyze_ok(vec![is_small(), select(vec![int_var("x")], Some(pcall("isSmall", vec![v("x")])), vec![v("x")])]);
}

#[test]
fn predicate_with_result() {
    // int doubleIt(int x) { result = x + x }
    let double_it = ModuleMember::Predicate(predicate(
        "doubleIt",
        vec![int_var("x")],
        Some(prim(PrimitiveType::Int)),
        cmp(expr(ExprKind::Result), CompOp::Eq, bin(v("x"), BinOp::Add, v("x"))),
    ));
    analyze_ok(vec![
        double_it,
        select(vec![int_var("x")], Some(cmp(v("x"), CompOp::Eq, call("doubleIt", vec![lit_int(3)]))), vec![v("x")]),
    ]);
}

#[test]
fn undefined_variable_error() {
    let errors = analyze_errors(vec![select(vec![int_var("x")], Some(cmp(v("y"), CompOp::Gt, lit_int(0))), vec![v("x")])]);
    assert!(
        errors.iter().any(|e| e.contains("undefined variable `y`")),
        "expected 'undefined variable' error, got: {errors:?}"
    );
}

#[test]
fn undefined_predicate_error() {
    let errors = analyze_errors(vec![select(vec![int_var("x")], Some(pcall("notDefined", vec![v("x")])), vec![v("x")])]);
    assert!(
        errors.iter().any(|e| e.contains("undefined predicate `notDefined`")),
        "expected 'undefined predicate' error, got: {errors:?}"
    );
}

#[test]
fn type_mismatch_comparison() {
    // from int x, string s where x = s select x
    let errors = analyze_errors(vec![select(
        vec![int_var("x"), var(prim(PrimitiveType::String), "s")],
        Some(cmp(v("x"), CompOp::Eq, v("s"))),
        vec![v("x")],
    )]);
    assert!(errors.iter().any(|e| e.contains("cannot compare")), "expected type mismatch error, got: {errors:?}");
}

#[test]
fn arithmetic_type_checking() {
    let db = analyze_ok(vec![select(
        vec![int_var("x")],
        Some(cmp(v("x"), CompOp::Eq, bin(lit_int(1), BinOp::Add, lit_int(2)))),
        vec![v("x")],
    )]);
    assert!(
        count_typed(&db, &Type::Primitive(PrimitiveType::Int)) >= 3,
        "expected at least 3 int expressions (1, 2, 1+2)"
    );
}

#[test]
fn string_concat() {
    let db = analyze_ok(vec![select(
        vec![var(prim(PrimitiveType::String), "s")],
        Some(cmp(v("s"), CompOp::Eq, bin(string("hello"), BinOp::Add, string(" world")))),
        vec![v("s")],
    )]);
    assert!(
        count_typed(&db, &Type::Primitive(PrimitiveType::String)) >= 3,
        "expected string-typed expressions for literals and concat"
    );
}

#[test]
fn exists_quantifier() {
    // where exists_f(int y | isSmall(y) and x = y)
    analyze_ok(vec![
        is_small(),
        select(
            vec![int_var("x")],
            Some(exists_f(vec![int_var("y")], and(pcall("isSmall", vec![v("y")]), cmp(v("x"), CompOp::Eq, v("y"))))),
            vec![v("x")],
        ),
    ]);
}

#[test]
fn quantifier_scoping() {
    // where exists_f(int y | y > 0) and y < 10
    let errors = analyze_errors(vec![select(
        vec![int_var("x")],
        Some(and(exists_f(vec![int_var("y")], cmp(v("y"), CompOp::Gt, lit_int(0))), cmp(v("y"), CompOp::Lt, lit_int(10)))),
        vec![v("x")],
    )]);
    assert!(
        errors.iter().any(|e| e.contains("undefined variable `y`")),
        "expected scoping error for y, got: {errors:?}"
    );
}

#[test]
fn aggregation_count() {
    // where n = count(int x | x = [1 .. 10] | x)
    let count = expr(ExprKind::Aggregation {
        kind: AggKind::Count,
        vars: vec![int_var("x")],
        guard: Some(Box::new(cmp(v("x"), CompOp::Eq, range(lit_int(1), lit_int(10))))),
        expr: Some(Box::new(v("x"))),
        separator: None,
        order_by: vec![],
    });
    let db = analyze_ok(vec![select(vec![int_var("n")], Some(cmp(v("n"), CompOp::Eq, count)), vec![v("n")])]);
    assert!(count_typed(&db, &Type::Primitive(PrimitiveType::Int)) > 0);
}

#[test]
fn class_basic() {
    // class SmallInt extends int { SmallInt() { this >= 0 and this < 100 } }
    let class = ModuleMember::Class(ClassDecl {
        name: ident("SmallInt"),
        supertypes: vec![prim(PrimitiveType::Int)],
        instanceof: vec![],
        members: vec![ClassMember::CharacteristicPredicate {
            name: ident("SmallInt"),
            body: and(
                cmp(expr(ExprKind::This), CompOp::Ge, lit_int(0)),
                cmp(expr(ExprKind::This), CompOp::Lt, lit_int(100)),
            ),
            span: sp(0),
        }],
        span: sp(0),
    });
    analyze_ok(vec![class, select(vec![var(named_type("SmallInt"), "x")], None, vec![v("x")])]);
}

#[test]
fn result_outside_predicate() {
    let errors = analyze_errors(vec![select(
        vec![int_var("x")],
        Some(cmp(v("x"), CompOp::Eq, expr(ExprKind::Result))),
        vec![v("x")],
    )]);
    assert!(
        errors.iter().any(|e| e.contains("`result` used outside")),
        "expected result-outside-predicate error, got: {errors:?}"
    );
}

#[test]
fn this_outside_class() {
    let errors = analyze_errors(vec![ModuleMember::Predicate(predicate(
        "foo",
        vec![],
        None,
        cmp(expr(ExprKind::This), CompOp::Eq, lit_int(1)),
    ))]);
    assert!(
        errors.iter().any(|e| e.contains("`this` used outside")),
        "expected this-outside-class error, got: {errors:?}"
    );
}

#[test]
fn multiple_predicates_different_arity() {
    analyze_ok(vec![
        ModuleMember::Predicate(predicate("p", vec![int_var("x")], None, cmp(v("x"), CompOp::Gt, lit_int(0)))),
        ModuleMember::Predicate(predicate("p", vec![int_var("x"), int_var("y")], None, cmp(v("x"), CompOp::Gt, v("y")))),
        select(
            vec![int_var("a"), int_var("b")],
            Some(and(pcall("p", vec![v("a")]), pcall("p", vec![v("a"), v("b")]))),
            vec![v("a"), v("b")],
        ),
    ]);
}

#[test]
fn range_expression() {
    analyze_ok(vec![select(vec![int_var("x")], Some(cmp(v("x"), CompOp::Eq, range(lit_int(1), lit_int(10)))), vec![v("x")])]);
}

#[test]
fn float_arithmetic() {
    let db = analyze_ok(vec![select(
        vec![var(prim(PrimitiveType::Float), "x")],
        Some(cmp(v("x"), CompOp::Eq, bin(float(), BinOp::Add, float()))),
        vec![v("x")],
    )]);
    assert!(count_typed(&db, &Type::Primitive(PrimitiveType::Float)) >= 3);
}

#[test]
fn mixed_int_float() {
    let db = analyze_ok(vec![select(
        vec![var(prim(PrimitiveType::Float), "x")],
        Some(cmp(v("x"), CompOp::Eq, bin(lit_int(1), BinOp::Add, float()))),
        vec![v("x")],
    )]);
    assert!(count_typed(&db, &Type::Primitive(PrimitiveType::Float)) > 0, "expected float result from int + float");
}

// ---------------------------------------------------------------------------
// More of resolution
// ---------------------------------------------------------------------------

#[test]
fn parse_failure_is_the_only_diagnostic() {
    let db = analyze_single_file(Err("UnrecognizedEof".to_string()), "from", "bad.ql");
    assert!(db.files.is_empty());
    assert_eq!(db.diagnostics.len(), 1);
    assert_eq!(db.diagnostics[0].message, "Parse error: UnrecognizedEof");
    assert_eq!(db.diagnostics[0].severity, Severity::Error);
    assert_eq!(db.diagnostics[0].span, Span::dummy());
    assert!(!db.is_ok());
}

#[test]
fn analysis_keeps_source_path_and_declarations() {
    let db = analyze_ok(vec![is_small()]);
    let f = &db.files[0];
    assert_eq!(f.path, "test.ql");
    assert_eq!(f.defs.len(), 1);
    assert_eq!(f.defs[0].kind, DefKind::Predicate);
    assert_eq!(f.defs[0].name, "isSmall");
    assert_eq!(f.ast.members.len(), 1);
}

#[test]
fn undefined_messages_exact() {
    let errors = analyze_errors(vec![select(
        vec![var(named_type("Missing"), "m")],
        Some(pcall("nope", vec![lit_int(1), lit_int(2)])),
        vec![v("m")],
    )]);
    assert_eq!(errors, vec!["undefined type `Missing`", "undefined predicate `nope` with arity 2"]);
}

#[test]
fn operator_errors_exact() {
    let errors = analyze_errors(vec![select(
        vec![var(prim(PrimitiveType::Boolean), "b"), var(prim(PrimitiveType::String), "s")],
        Some(and(
            cmp(v("b"), CompOp::Eq, bin(v("b"), BinOp::Mul, lit_int(2))),
            cmp(v("s"), CompOp::Eq, expr(ExprKind::UnaryOp { operand: Box::new(v("s")) })),
        )),
        vec![range(lit_int(1), string("z"))],
    )]);
    assert_eq!(
        errors,
        vec![
            "arithmetic operator not defined for `boolean` and `int`",
            "unary operator requires numeric type, got `string`",
            "range bounds have different types: `int` vs `string`",
        ]
    );
}

#[test]
fn predicate_without_result_in_expression() {
    let errors = analyze_errors(vec![
        is_small(),
        select(vec![int_var("x")], Some(cmp(v("x"), CompOp::Eq, call("isSmall", vec![lit_int(1)]))), vec![v("x")]),
    ]);
    assert_eq!(errors, vec!["predicate `isSmall` has no result type; cannot use in expression context"]);
}

#[test]
fn class_extending_int_types_as_int() {
    // class Small extends int { Small() { this < 10 } int twice() { result = this + this } }
    let twice = predicate(
        "twice",
        vec![],
        Some(prim(PrimitiveType::Int)),
        cmp(expr(ExprKind::Result), CompOp::Eq, bin(expr(ExprKind::This), BinOp::Add, expr(ExprKind::This))),
    );
    let class = ModuleMember::Class(ClassDecl {
        name: ident("Small"),
        supertypes: vec![prim(PrimitiveType::Int)],
        instanceof: vec![],
        members: vec![ClassMember::MemberPredicate(twice)],
        span: sp(0),
    });
    let db = analyze_ok(vec![class]);
    assert!(count_typed(&db, &Type::Primitive(PrimitiveType::Int)) >= 1);
}

#[test]
fn unresolved_name_in_class_is_not_reported() {
    // a field inherited from a superclass may be used by name
    let pred = predicate("get", vec![], Some(prim(PrimitiveType::Int)), cmp(expr(ExprKind::Result), CompOp::Eq, v("inherited")));
    let class = ModuleMember::Class(ClassDecl {
        name: ident("C"),
        supertypes: vec![prim(PrimitiveType::Int)],
        instanceof: vec![],
        members: vec![ClassMember::MemberPredicate(pred)],
        span: sp(0),
    });
    analyze_ok(vec![class]);
}

#[test]
fn parameterized_module_suppresses_unresolved() {
    let inner = ModuleMember::Predicate(predicate("q", vec![var(named_type("T"), "t")], None, pcall("fromParam", vec![v("t")])));
    let module = ModuleMember::Module(ModuleDecl {
        name: ident("M"),
        type_params: vec![TypeParam { name: ident("T") }],
        members: vec![inner],
        span: sp(0),
    });
    analyze_ok(vec![module]);
}

#[test]
fn names_resolve_to_their_variables() {
    let db = analyze_ok(vec![select(
        vec![VarDecl { ty: prim(PrimitiveType::Int), name: ident_at("x", 5), span: sp(4) }],
        None,
        vec![expr(ExprKind::Variable(ident_at("x", 9)))],
    )]);
    let res = &db.files[0].name_resolution;
    assert_eq!(res.len(), 2);
    let id_of = |i: usize| match &res[i].1 {
        ResolvedRef::Def(d) => *d,
        _ => panic!("a variable resolves to its declaration"),
    };
    assert_eq!(res[0].0, sp(5));
    assert_eq!(res[1].0, sp(9));
    assert_eq!(id_of(0), id_of(1));
    // the predicate-free file numbers its variables from zero
    assert_eq!(id_of(0).local.0, 0);
}

#[test]
fn resolver_over_explicit_namespaces() {
    let local = ModuleNamespaces::new();
    let imported = ModuleNamespaces::new();
    let builtin = ModuleNamespaces::new();
    let project = ModuleNamespaces::new();
    let exported: Vec<(FileId, ModuleNamespaces)> = vec![];
    let mut r = NameResolver::new(FileId(3), &local, &imported, &builtin, &project, &exported, 7);
    let sf = SourceFile { members: vec![select(vec![int_var("x")], None, vec![v("x")])] };
    r.resolve_source_file(&sf);
    let (res, types, diags) = r.take_results();
    assert!(diags.is_empty());
    assert_eq!(types, vec![(sp(0), Type::Primitive(PrimitiveType::Int))]);
    match &res[0].1 {
        ResolvedRef::Def(d) => {
            assert_eq!(d.file, FileId(3));
            assert_eq!(d.local.0, 7);
        },
        _ => panic!("the from variable resolves to its declaration"),
    }
}

// ---------------------------------------------------------------------------
// Declaration collection
// ---------------------------------------------------------------------------

#[test]
fn collector_binds_members_aliases_and_classes() {
    let class = ModuleMember::Class(ClassDecl {
        name: ident("Small"),
        supertypes: vec![named_type("Num")],
        instanceof: vec![],
        members: vec![
            ClassMember::MemberPredicate(predicate("get", vec![], Some(prim(PrimitiveType::Int)), pcall("any", vec![]))),
            ClassMember::Field { ty: prim(PrimitiveType::Int), name: ident("f"), span: sp(0) },
        ],
        span: sp(0),
    });
    let alias = ModuleMember::TypeAlias(TypeAliasDecl { name: ident("Num"), target: prim(PrimitiveType::Int), span: sp(0) });
    let pred_alias = ModuleMember::PredicateAlias(PredicateAliasDecl {
        name: ident("g"),
        target_parts: vec!["Other".to_string(), "h".to_string()],
        target_arity: 1,
        span: sp(0),
    });
    let sf = SourceFile { members: vec![alias, class, pred_alias] };
    let mut c = DeclarationCollector::new(FileId(0));
    c.collect_source_file(&sf);
    assert_eq!(c.next_local_id(), 5);
    let ns = c.namespaces();
    let small = ns.get_type("Small").unwrap();
    assert_eq!(ns.get_type_alias(small), Some(Type::Primitive(PrimitiveType::Int)));
    let get = ns.get_predicate("Small::get", 0).unwrap();
    assert_eq!(get.result_type, Some(Type::Primitive(PrimitiveType::Int)));
    let g = ns.get_predicate("g", 1).unwrap();
    assert_eq!(g.result_type, Some(Type::Error));
    let defs = c.into_defs();
    let kinds: Vec<DefKind> = defs.iter().map(|d| d.kind).collect();
    assert_eq!(
        kinds,
        vec![
            DefKind::TypeAlias,
            DefKind::Class,
            DefKind::MemberPredicate,
            DefKind::Field,
            DefKind::PredicateAlias,
        ]
    );
}

#[test]
fn simple_types_without_resolution() {
    assert_eq!(resolve_type_expr_simple(&prim(PrimitiveType::Date)), Type::Primitive(PrimitiveType::Date));
    let db = TypeExpr { kind: TypeExprKind::Database("expr".to_string()), span: sp(0) };
    assert_eq!(resolve_type_expr_simple(&db), Type::DbEntity("expr".to_string()));
    assert_eq!(resolve_type_expr_simple(&named_type("C")), Type::Error);
}

#[test]
fn declarations_are_numbered_in_order() {
    let sf = SourceFile {
        members: vec![
            is_small(),
            ModuleMember::TypeAlias(TypeAliasDecl { name: ident("Num"), target: prim(PrimitiveType::Int), span: sp(0) }),
            ModuleMember::Module(ModuleDecl { name: ident("M"), type_params: vec![], members: vec![is_small()], span: sp(0) }),
        ],
    };
    let mut c = DeclarationCollector::new(FileId(2));
    c.collect_source_file(&sf);
    let defs = c.into_defs();
    assert_eq!(defs.len(), 4);
    for (i, d) in defs.iter().enumerate() {
        assert_eq!(d.id.file, FileId(2));
        assert_eq!(d.id.local.0 as usize, i);
    }
}

#[test]
fn resolution_reports_only_errors_of_its_file_and_numbers_after_declarations() {
    // predicate isSmall(int x) {...}; from int y where undefinedThing(y) select y
    let db = analyze(vec![
        is_small(),
        select(vec![int_var("y")], Some(pcall("undefinedThing", vec![v("y")])), vec![v("y")]),
    ]);
    let f = &db.files[0];
    assert_eq!(f.diagnostics.len(), 1);
    assert!(f.diagnostics.iter().all(|d| d.severity == Severity::Error && d.file == FileId(0) && d.notes.is_empty()));
    // one declaration collected (number 0); the parameter x is number 1, y is number 2
    let y_refs: Vec<u32> = f
        .name_resolution
        .iter()
        .filter_map(|(_, r)| match r {
            ResolvedRef::Def(d) => Some(d.local.0),
            _ => None,
        })
        .collect();
    assert_eq!(y_refs, vec![1, 1, 2, 2, 2]);
}

#[test]
fn own_aliases_win_over_imported_ones() {
    let c = ocql::def::DefId { file: FileId(0), local: ocql::def::LocalDefId(0) };
    let mut local = ModuleNamespaces::new();
    local.insert_type("C", c);
    local.insert_type_alias(c, Type::Primitive(PrimitiveType::Int));
    let mut imported = ModuleNamespaces::new();
    imported.insert_type_alias(c, Type::Primitive(PrimitiveType::String));
    let builtin = ModuleNamespaces::new();
    let project = ModuleNamespaces::new();
    let exported: Vec<(FileId, ModuleNamespaces)> = vec![];
    let mut r = NameResolver::new(FileId(0), &local, &imported, &builtin, &project, &exported, 1);
    let sf = SourceFile { members: vec![select(vec![var(named_type("C"), "x")], None, vec![bin(v("x"), BinOp::Add, lit_int(1))])] };
    r.resolve_source_file(&sf);
    let (_, types, diags) = r.take_results();
    assert!(diags.is_empty());
    assert_eq!(types[0].1, Type::Class(c));
    assert_eq!(types[2].1, Type::Primitive(PrimitiveType::Int));
}
