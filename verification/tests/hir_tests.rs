use ocql::builtins::{builtin_file, Builtins};
use ocql::class_hierarchy::{ClassHierarchy, ClassInfo};
use ocql::ast::SourceFile;
use ocql::database::{FileAnalysis, HirDatabase};
use ocql::def::{DefId, DefKind, FileId, LocalDefId};
use ocql::diagnostics::{Diagnostic, Severity, Span};
use ocql::module_graph::{ImportEdge, ModuleGraph, UnresolvedImport};
use ocql::namespace::{lookup_module, lookup_predicate, lookup_type, ModuleNamespaces, PredicateInfo};
use ocql::resolve::{
    aggregation_result_type, check_binary_op, check_comparison_types, resolve_type_alias, AggKind, BinOp, CompOp,
    ResolvedRef, ScopeStack,
};
use ocql::types::{PrimitiveType, Type};

fn def(file: u32, local: u32) -> DefId {
    DefId { file: FileId(file), local: LocalDefId(local) }
}

fn int_t() -> Type {
    Type::Primitive(PrimitiveType::Int)
}

fn float() -> Type {
    Type::Primitive(PrimitiveType::Float)
}

fn string() -> Type {
    Type::Primitive(PrimitiveType::String)
}

fn boolean() -> Type {
    Type::Primitive(PrimitiveType::Boolean)
}

// ---------------------------------------------------------------------------
// Scopes
// ---------------------------------------------------------------------------

#[test]
fn define_then_lookup_finds_the_variable() {
    let mut scopes = ScopeStack::new(FileId(3), 10);
    scopes.push_scope();
    let id = scopes.define_var("x", int_t());
    assert_eq!(id, def(3, 10));
    let (found, ty) = scopes.lookup_var("x").unwrap();
    assert_eq!(found, id);
    assert_eq!(ty, int_t());
    assert!(scopes.lookup_var("y").is_none());
}

#[test]
fn inner_scope_shadows_and_pop_restores() {
    let mut scopes = ScopeStack::new(FileId(0), 0);
    scopes.push_scope();
    let outer = scopes.define_var("x", int_t());
    scopes.push_scope();
    let inner = scopes.define_var("x", string());
    assert_eq!(scopes.lookup_var("x").unwrap().0, inner);
    assert_eq!(scopes.lookup_var("x").unwrap().1, string());
    scopes.pop_scope();
    assert_eq!(scopes.lookup_var("x").unwrap().0, outer);
    assert_eq!(scopes.lookup_var("x").unwrap().1, int_t());
}

#[test]
fn later_definition_in_one_scope_wins() {
    let mut scopes = ScopeStack::new(FileId(0), 5);
    scopes.push_scope();
    scopes.define_var("v", int_t());
    let second = scopes.define_var("v", float());
    assert_eq!(second, def(0, 6));
    assert_eq!(scopes.lookup_var("v").unwrap().0, second);
}

#[test]
fn define_without_scope_only_numbers() {
    let mut scopes = ScopeStack::new(FileId(1), 7);
    let id = scopes.define_var("x", int_t());
    assert_eq!(id, def(1, 7));
    assert!(scopes.lookup_var("x").is_none());
    assert_eq!(scopes.fresh_def(), def(1, 8));
}

#[test]
fn resolved_ref_variants() {
    let r = ResolvedRef::Def(def(0, 1));
    assert!(matches!(r, ResolvedRef::Def(d) if d == def(0, 1)));
    let b = ResolvedRef::Builtin("length".to_string());
    assert!(matches!(b, ResolvedRef::Builtin(ref n) if n == "length"));
    assert!(matches!(ResolvedRef::Unresolved, ResolvedRef::Unresolved));
}

// ---------------------------------------------------------------------------
// Typing rules
// ---------------------------------------------------------------------------

#[test]
fn arithmetic_types() {
    let none: Vec<(DefId, Type)> = vec![];
    let (t, e) = check_binary_op(&int_t(), &int_t(), BinOp::Mul, &none);
    assert_eq!(t, int_t());
    assert!(e.is_none());
    let (t, e) = check_binary_op(&int_t(), &float(), BinOp::Sub, &none);
    assert_eq!(t, float());
    assert!(e.is_none());
    let (t, e) = check_binary_op(&string(), &int_t(), BinOp::Add, &none);
    assert_eq!(t, string());
    assert!(e.is_none());
}

#[test]
fn arithmetic_errors() {
    let none: Vec<(DefId, Type)> = vec![];
    let (t, e) = check_binary_op(&boolean(), &int_t(), BinOp::Add, &none);
    assert_eq!(t, Type::Error);
    assert_eq!(e.unwrap(), "operator `+` not defined for `boolean` and `int`");
    let (t, e) = check_binary_op(&string(), &int_t(), BinOp::Mod, &none);
    assert_eq!(t, Type::Error);
    assert_eq!(e.unwrap(), "arithmetic operator not defined for `string` and `int`");
    let (t, e) = check_binary_op(&Type::Error, &boolean(), BinOp::Div, &none);
    assert_eq!(t, Type::Error);
    assert!(e.is_none());
}

#[test]
fn aliases_are_followed_before_typing() {
    let alias = def(0, 1);
    let chained = def(0, 2);
    let aliases = vec![(alias, int_t()), (chained, Type::Class(alias))];
    assert_eq!(resolve_type_alias(&Type::Class(chained), &aliases), int_t());
    let (t, e) = check_binary_op(&Type::Class(chained), &int_t(), BinOp::Add, &aliases);
    assert_eq!(t, int_t());
    assert!(e.is_none());
    let other = Type::Class(def(5, 5));
    assert_eq!(resolve_type_alias(&other, &aliases), other);
}

#[test]
fn alias_cycle_stops_after_ten_steps() {
    let a = def(0, 1);
    let b = def(0, 2);
    let aliases = vec![(a, Type::Class(b)), (b, Type::Class(a))];
    // ten steps from `a` end at `a` again
    assert_eq!(resolve_type_alias(&Type::Class(a), &aliases), Type::Class(a));
    assert_eq!(resolve_type_alias(&Type::Class(b), &aliases), Type::Class(b));
}

#[test]
fn comparisons() {
    assert!(check_comparison_types(&int_t(), &float(), CompOp::Lt).is_none());
    assert!(check_comparison_types(&string(), &string(), CompOp::Eq).is_none());
    assert!(check_comparison_types(&Type::Error, &string(), CompOp::Eq).is_none());
    assert!(check_comparison_types(&Type::Class(def(0, 1)), &int_t(), CompOp::Eq).is_none());
    assert_eq!(
        check_comparison_types(&string(), &int_t(), CompOp::Ne).unwrap(),
        "cannot compare `string` with `int`"
    );
    assert_eq!(
        check_comparison_types(&boolean(), &Type::Primitive(PrimitiveType::Date), CompOp::Eq).unwrap(),
        "cannot compare `boolean` with `date`"
    );
}

#[test]
fn aggregation_types() {
    assert_eq!(aggregation_result_type(Some(AggKind::Count), &string()), int_t());
    assert_eq!(aggregation_result_type(Some(AggKind::Sum), &float()), float());
    assert_eq!(aggregation_result_type(Some(AggKind::Sum), &string()), int_t());
    assert_eq!(aggregation_result_type(Some(AggKind::Avg), &int_t()), float());
    assert_eq!(aggregation_result_type(Some(AggKind::Max), &string()), string());
    assert_eq!(aggregation_result_type(Some(AggKind::Concat), &int_t()), string());
    assert_eq!(aggregation_result_type(None, &int_t()), Type::Error);
}

// ---------------------------------------------------------------------------
// Namespaces
// ---------------------------------------------------------------------------

#[test]
fn namespace_insert_replaces() {
    let mut ns = ModuleNamespaces::new();
    ns.insert_type("Foo", def(0, 1));
    ns.insert_type("Foo", def(0, 2));
    assert_eq!(ns.get_type("Foo"), Some(def(0, 2)));
    assert_eq!(ns.get_type("Bar"), None);
    ns.insert_predicate("p", 1, PredicateInfo { def_id: def(0, 3), result_type: None, arity: 1 });
    assert_eq!(ns.get_predicate("p", 1).unwrap().def_id, def(0, 3));
    assert!(ns.get_predicate("p", 2).is_none());
    ns.insert_module("M", def(0, 4));
    assert_eq!(ns.get_module("M"), Some(def(0, 4)));
}

#[test]
fn lookups_search_namespaces_in_order() {
    let mut local = ModuleNamespaces::new();
    let mut imported = ModuleNamespaces::new();
    local.insert_type("A", def(1, 1));
    imported.insert_type("A", def(2, 1));
    imported.insert_type("B", def(2, 2));
    imported.insert_module("M", def(2, 3));
    imported.insert_predicate("q", 0, PredicateInfo { def_id: def(2, 4), result_type: Some(Type::Error), arity: 0 });
    let chain = vec![&local, &imported];
    assert_eq!(lookup_type(&chain, "A"), Some(def(1, 1)));
    assert_eq!(lookup_type(&chain, "B"), Some(def(2, 2)));
    assert_eq!(lookup_type(&chain, "C"), None);
    assert_eq!(lookup_module(&chain, "M"), Some(def(2, 3)));
    assert_eq!(lookup_predicate(&chain, "q", 0).unwrap().def_id, def(2, 4));
    assert!(lookup_predicate(&chain, "q", 1).is_none());
}

// ---------------------------------------------------------------------------
// Class hierarchy
// ---------------------------------------------------------------------------

fn class(id: DefId, supers: Vec<DefId>, preds: Vec<(&str, usize, DefId)>, fields: Vec<(&str, Type)>) -> ClassInfo {
    ClassInfo {
        def_id: id,
        supertypes: supers,
        supertype_names: vec![],
        member_predicates: preds
            .into_iter()
            .map(|(n, a, d)| ((n.to_string(), a), PredicateInfo { def_id: d, result_type: None, arity: a }))
            .collect(),
        fields: fields.into_iter().map(|(n, t)| (n.to_string(), t)).collect(),
    }
}

#[test]
fn member_predicates_are_inherited() {
    let base = def(0, 1);
    let mid = def(0, 2);
    let leaf = def(0, 3);
    let mut h = ClassHierarchy::new();
    h.register_class(class(base, vec![], vec![("getName", 0, def(0, 10))], vec![]));
    h.register_class(class(mid, vec![base], vec![("getSize", 0, def(0, 11))], vec![]));
    h.register_class(class(leaf, vec![mid], vec![], vec![]));
    assert_eq!(h.lookup_member_predicate(leaf, "getName", 0).unwrap().def_id, def(0, 10));
    assert_eq!(h.lookup_member_predicate(leaf, "getSize", 0).unwrap().def_id, def(0, 11));
    assert!(h.lookup_member_predicate(leaf, "getName", 1).is_none());
    assert!(h.lookup_member_predicate(base, "getSize", 0).is_none());
}

#[test]
fn own_member_predicate_overrides() {
    let base = def(0, 1);
    let leaf = def(0, 2);
    let mut h = ClassHierarchy::new();
    h.register_class(class(base, vec![], vec![("toString", 0, def(0, 10))], vec![]));
    h.register_class(class(leaf, vec![base], vec![("toString", 0, def(0, 20))], vec![]));
    assert_eq!(h.lookup_member_predicate(leaf, "toString", 0).unwrap().def_id, def(0, 20));
}

#[test]
fn cyclic_supertypes_terminate() {
    let a = def(0, 1);
    let b = def(0, 2);
    let mut h = ClassHierarchy::new();
    h.register_class(class(a, vec![b], vec![], vec![]));
    h.register_class(class(b, vec![a], vec![], vec![]));
    assert!(h.lookup_member_predicate(a, "missing", 0).is_none());
    assert!(h.lookup_field(a, "missing").is_none());
    assert!(h.all_fields(a).is_empty());
}

#[test]
fn fields_are_inherited_supertypes_first() {
    let base = def(0, 1);
    let leaf = def(0, 2);
    let mut h = ClassHierarchy::new();
    h.register_class(class(base, vec![], vec![], vec![("name", string()), ("size", int_t())]));
    h.register_class(class(leaf, vec![base], vec![], vec![("size", float()), ("extra", boolean())]));
    assert_eq!(h.lookup_field(leaf, "size"), Some(&float()));
    assert_eq!(h.lookup_field(leaf, "name"), Some(&string()));
    assert!(h.lookup_field(base, "extra").is_none());
    let all = h.all_fields(leaf);
    let names: Vec<&str> = all.iter().map(|(n, _)| n.as_str()).collect();
    assert_eq!(names, vec!["name", "size", "extra"]);
    assert_eq!(all[1].1, int_t());
}

#[test]
fn register_class_replaces_and_get_finds() {
    let a = def(0, 1);
    let mut h = ClassHierarchy::new();
    h.register_class(class(a, vec![], vec![], vec![("x", int_t())]));
    h.register_class(class(a, vec![], vec![], vec![("y", int_t())]));
    let info = h.get(a).unwrap();
    assert_eq!(info.fields.len(), 1);
    assert_eq!(info.fields[0].0, "y");
    assert!(h.get(def(9, 9)).is_none());
    h.register_name("A".to_string(), a);
}

#[test]
fn supertypes_resolved_by_lookup() {
    let a = def(0, 1);
    let b = def(0, 2);
    let mut info = class(b, vec![], vec![], vec![]);
    info.supertype_names = vec!["A".to_string(), "Unknown".to_string()];
    let mut h = ClassHierarchy::new();
    h.register_class(class(a, vec![], vec![("f", 0, def(0, 30))], vec![]));
    h.register_class(info);
    h.resolve_supertypes(|n: &str| if n == "A" { Some(a) } else { None });
    assert_eq!(h.get(b).unwrap().supertypes, vec![a]);
    assert_eq!(h.lookup_member_predicate(b, "f", 0).unwrap().def_id, def(0, 30));
}

// ---------------------------------------------------------------------------
// Builtins
// ---------------------------------------------------------------------------

#[test]
fn builtins_register_member_and_global_predicates() {
    let b = Builtins::new();
    let length = b.namespaces.get_predicate("string::length", 0).unwrap();
    assert_eq!(length.def_id, DefId { file: builtin_file(), local: LocalDefId(0) });
    assert_eq!(length.result_type, Some(int_t()));
    let split1 = b.namespaces.get_predicate("string::splitAt", 1).unwrap();
    let split2 = b.namespaces.get_predicate("string::splitAt", 2).unwrap();
    assert_ne!(split1.def_id, split2.def_id);
    assert!(b.namespaces.get_predicate("string::regexpMatch", 1).unwrap().result_type.is_none());
    let url = b.namespaces.get_predicate("toUrl", 5).unwrap();
    assert_eq!(url.result_type, Some(string()));
    assert!(b.namespaces.get_predicate("none", 0).is_some());
    assert!(b.namespaces.get_predicate("length", 0).is_none());
    assert_eq!(b.defs.len(), 55);
    assert_eq!(b.defs[0].name, "string::length");
    assert_eq!(b.defs[0].kind, DefKind::MemberPredicate);
    assert_eq!(b.defs[54].name, "unresolveElement");
    assert_eq!(b.defs[54].kind, DefKind::Predicate);
    assert_eq!(builtin_file(), FileId(u32::MAX));
}

// ---------------------------------------------------------------------------
// Module graph
// ---------------------------------------------------------------------------

fn edge(target: u32) -> ImportEdge {
    ImportEdge {
        target: FileId(target),
        target_path: format!("f{target}.qll"),
        import_path: vec![format!("f{target}")],
        is_private: false,
        alias: None,
        span: Span::new(0, 1),
    }
}

#[test]
fn edges_and_counts() {
    let mut g = ModuleGraph::new();
    g.add_edge(FileId(0), edge(1));
    g.add_edge(FileId(0), edge(2));
    g.add_edge(FileId(1), edge(2));
    assert_eq!(g.total_edge_count(), 3);
    let imports: Vec<u32> = g.file_imports(FileId(0)).iter().map(|e| e.target.0).collect();
    assert_eq!(imports, vec![1, 2]);
    assert!(g.file_imports(FileId(2)).is_empty());
    g.add_unresolved(UnresolvedImport { from_file: FileId(2), import_path: vec!["x".to_string()], span: Span::new(1, 2) });
    assert_eq!(g.total_edge_count(), 3);
}

#[test]
fn topological_order_puts_imports_first() {
    let mut g = ModuleGraph::new();
    // 0 imports 1 and 2; 1 imports 2
    g.add_edge(FileId(0), edge(1));
    g.add_edge(FileId(0), edge(2));
    g.add_edge(FileId(1), edge(2));
    g.compute_topo_order(&vec![FileId(0), FileId(1), FileId(2)]);
    let order: Vec<Vec<u32>> = g.processing_order().iter().map(|c| c.iter().map(|f| f.0).collect()).collect();
    assert_eq!(order, vec![vec![2], vec![1], vec![0]]);
}

#[test]
fn mutual_imports_share_a_group() {
    let mut g = ModuleGraph::new();
    g.add_edge(FileId(0), edge(1));
    g.add_edge(FileId(1), edge(0));
    g.add_edge(FileId(1), edge(2));
    g.compute_topo_order(&vec![FileId(0), FileId(1), FileId(2), FileId(3)]);
    let order: Vec<Vec<u32>> = g.processing_order().iter().map(|c| {
        let mut v: Vec<u32> = c.iter().map(|f| f.0).collect();
        v.sort();
        v
    }).collect();
    assert_eq!(order, vec![vec![2], vec![0, 1], vec![3]]);
}

// ---------------------------------------------------------------------------
// Database
// ---------------------------------------------------------------------------

fn diag(severity: Severity, message: &str) -> Diagnostic {
    Diagnostic { severity, message: message.to_string(), span: Span::dummy(), file: FileId(0), notes: vec![] }
}

#[test]
fn all_errors_skips_warnings() {
    let file = FileAnalysis {
        ast: SourceFile { members: vec![] },
        source: String::new(),
        path: "a.ql".to_string(),
        defs: vec![],
        name_resolution: vec![],
        expr_types: vec![],
        diagnostics: vec![diag(Severity::Warning, "w"), diag(Severity::Error, "e2")],
    };
    let db = HirDatabase { files: vec![file], diagnostics: vec![diag(Severity::Error, "e1"), diag(Severity::Info, "i")] };
    let errors: Vec<&str> = db.all_errors().iter().map(|d| d.message.as_str()).collect();
    assert_eq!(errors, vec!["e1", "e2"]);
    assert!(!db.is_ok());
    let clean = HirDatabase { files: vec![], diagnostics: vec![diag(Severity::Warning, "w")] };
    assert!(clean.is_ok());
}

// ---------------------------------------------------------------------------
// Types
// ---------------------------------------------------------------------------

#[test]
fn type_names_and_numeric_results() {
    assert_eq!(int_t().display_name(), "int");
    assert_eq!(Type::DbEntity("expr".to_string()).display_name(), "@expr");
    assert_eq!(Type::Class(def(1, 2)).display_name(), "class(DefId(1.2))");
    assert_eq!(Type::Error.display_name(), "<error>");
    assert!(float().is_numeric());
    assert!(!string().is_numeric());
    assert_eq!(int_t().numeric_result(&float()), float());
    assert_eq!(int_t().numeric_result(&int_t()), int_t());
    assert_eq!(int_t().numeric_result(&string()), Type::Error);
}

#[test]
fn topological_order_holds_only_reached_files() {
    let mut g = ModuleGraph::new();
    g.add_edge(FileId(0), edge(1));
    g.add_edge(FileId(2), edge(3));
    g.compute_topo_order(&vec![FileId(0)]);
    let order: Vec<Vec<u32>> = g.processing_order().iter().map(|c| c.iter().map(|f| f.0).collect()).collect();
    assert_eq!(order, vec![vec![1], vec![0]]);
}
