use ocql::project::{is_ql_extension, is_ql_source_path, pack_search_step, parse_qlpack, skip_pack_search_dir, skip_source_dir, ProjectIndex, QlPack};
use ocql::discover::parent_search_dirs;

fn pack(name: &str, root: &str, deps: &[&str]) -> QlPack {
    QlPack {
        name: name.to_string(),
        root: root.to_string(),
        dependencies: deps.iter().map(|d| d.to_string()).collect(),
        is_library: true,
        dbscheme: None,
    }
}

fn listed(raw: &str, canonical: &str) -> (String, String) {
    (raw.to_string(), canonical.to_string())
}

fn files_under(root: &str) -> Vec<(String, String)> {
    match root {
        "/ws/cpp" => vec![
            listed("/ws/cpp/./a.qll", "/ws/cpp/a.qll"),
            listed("/ws/cpp/README.md", "/ws/cpp/README.md"),
            listed("/ws/cpp/sub/b.ql", "/ws/cpp/sub/b.ql"),
            listed("/ws/cpp/.ql", "/ws/cpp/.ql"),
        ],
        "/lib/util" => vec![listed("/lib/util/codeql/util/Unit.qll", "/lib/util/codeql/util/Unit.qll")],
        "/ws" => vec![listed("/ws/q.ql", "/ws/q.ql"), listed("/ws/q.qlx", "/ws/q.qlx")],
        _ => vec![],
    }
}

#[test]
fn parse_qlpack_reads_name_dependencies_and_flags() {
    let content = "name: codeql/cpp-all\nversion: 0.1.0\nlibrary: true\ndbscheme: \"semmlecode.cpp.dbscheme\"\ndependencies:\n  codeql/util: ${workspace}\n  codeql/dataflow: \"*\"\n  # a comment\nwarnOnImplicitThis: true\n";
    let p = parse_qlpack(content, "/ws/cpp".to_string()).unwrap();
    assert_eq!(p.name, "codeql/cpp-all");
    assert_eq!(p.root, "/ws/cpp");
    assert_eq!(p.dependencies, vec!["codeql/util".to_string(), "codeql/dataflow".to_string()]);
    assert!(p.is_library);
    assert_eq!(p.dbscheme, Some("semmlecode.cpp.dbscheme".to_string()));
}

#[test]
fn parse_qlpack_edge_cases() {
    let p = parse_qlpack("name: 'my/pack'\ndependencies: null\n  other/pack: 1\n", "/p".to_string()).unwrap();
    assert_eq!(p.name, "my/pack");
    assert!(p.dependencies.is_empty());
    assert!(!p.is_library);
    assert_eq!(p.dbscheme, None);
    assert!(parse_qlpack("version: 1.0\nlibrary: true\n", "/p".to_string()).is_none());
    let q = parse_qlpack("name: x\r\ndbscheme: \"\"\r\n", "/p".to_string()).unwrap();
    assert_eq!(q.name, "x");
    assert_eq!(q.dbscheme, None);
}

#[test]
fn directory_and_extension_rules() {
    assert!(skip_pack_search_dir(".git"));
    assert!(skip_pack_search_dir("node_modules"));
    assert!(skip_pack_search_dir("target"));
    assert!(skip_pack_search_dir("ql-packs"));
    assert!(!skip_pack_search_dir("test"));
    assert!(skip_source_dir("test"));
    assert!(skip_source_dir("upgrades"));
    assert!(skip_source_dir(".cache"));
    assert!(!skip_source_dir("ql-packs"));
    assert!(is_ql_extension("ql"));
    assert!(is_ql_extension("qll"));
    assert!(!is_ql_extension("qlx"));
}

#[test]
fn ql_source_paths_go_by_the_extension_of_the_file_name() {
    assert!(is_ql_source_path("/ws/a.ql"));
    assert!(is_ql_source_path("/ws/lib.v2/Unit.qll"));
    assert!(is_ql_source_path("x.y.qll"));
    assert!(!is_ql_source_path("/ws/.ql"));
    assert!(!is_ql_source_path("/ws/a.ql/README"));
    assert!(!is_ql_source_path("/ws/a.qlx"));
    assert!(!is_ql_source_path("/ws/ql"));
    assert!(!is_ql_source_path(""));
}

#[test]
fn discover_adds_needed_parent_packs_and_records_files() {
    let local = vec![pack("codeql/cpp-all", "/ws/cpp", &["codeql/util"])];
    let index = ProjectIndex::discover(
        "/ws",
        local,
        || vec![pack("codeql/util", "/lib/util", &[]), pack("codeql/other", "/lib/other", &[])],
        files_under,
    );
    let mut names = index.pack_names();
    names.sort();
    assert_eq!(names, vec!["codeql/cpp-all", "codeql/util"]);
    assert_eq!(index.pack_count(), 2);
    assert_eq!(index.import_roots(), &vec!["/ws/cpp".to_string(), "/lib/util".to_string()]);
    assert_eq!(index.file_count(), 3);
    assert_eq!(index.all_files(), vec!["/ws/cpp/a.qll", "/ws/cpp/sub/b.ql", "/lib/util/codeql/util/Unit.qll"]);
    assert_eq!(index.find_pack_name("/ws/cpp/sub/b.ql"), Some("codeql/cpp-all".to_string()));
    assert_eq!(index.find_pack_root("/lib/util/codeql/util/Unit.qll"), Some("/lib/util"));
}

#[test]
fn discover_without_packs_uses_workspace_root() {
    let index = ProjectIndex::discover(
        "/ws",
        vec![],
        || -> Vec<QlPack> { panic!("no dependency is missing") },
        files_under,
    );
    assert_eq!(index.pack_count(), 0);
    assert_eq!(index.import_roots(), &vec!["/ws".to_string()]);
    assert_eq!(index.all_files(), vec!["/ws/q.ql"]);
}

#[test]
fn discover_keeps_first_pack_of_a_name_and_transitive_dependencies() {
    let local = vec![pack("a", "/ws/a", &["b"]), pack("a", "/ws/a2", &[])];
    let index = ProjectIndex::discover(
        "/ws",
        local,
        || vec![pack("b", "/up/b", &["c"]), pack("c", "/up/c", &[]), pack("b", "/up/b2", &[])],
        |_: &str| -> Vec<(String, String)> { vec![] },
    );
    assert_eq!(index.import_roots(), &vec!["/ws/a".to_string(), "/up/b".to_string(), "/up/c".to_string()]);
    assert!(index.missing_dependencies().is_empty());
}

#[test]
fn discover_stops_when_a_dependency_cannot_be_found() {
    let local = vec![pack("a", "/ws/a", &["zzz"])];
    let index = ProjectIndex::discover("/ws", local, || vec![pack("b", "/up/b", &[])], |_: &str| -> Vec<(String, String)> { vec![] });
    assert_eq!(index.pack_count(), 1);
    assert_eq!(index.missing_dependencies(), vec!["zzz".to_string()]);
}

#[test]
fn resolve_import_tries_candidates_in_order() {
    let local = vec![pack("codeql/cpp-all", "/ws/cpp", &["codeql/util"])];
    let index = ProjectIndex::discover(
        "/ws",
        local,
        || vec![pack("codeql/util", "/lib/util", &[])],
        files_under,
    );
    let present = |p: &str| p == "/lib/util/codeql/util/Unit.qll" || p == "/ws/cpp/Local.qll";
    let unit: Vec<String> = vec!["codeql".to_string(), "util".to_string(), "Unit".to_string()];
    assert_eq!(
        index.resolve_import(&unit, "/ws/cpp/a.qll", present),
        Some("/lib/util/codeql/util/Unit.qll".to_string())
    );
    let local_import = vec!["Local".to_string()];
    assert_eq!(index.resolve_import(&local_import, "/ws/cpp/a.qll", present), Some("/ws/cpp/Local.qll".to_string()));
    let missing = vec!["Nowhere".to_string()];
    assert_eq!(index.resolve_import(&missing, "/ws/cpp/a.qll", present), None);
    assert_eq!(index.resolve_import(&vec![], "/ws/cpp/a.qll", present), None);
    let candidates = index.import_candidates(&local_import, "/ws/cpp/sub/b.ql");
    assert_eq!(candidates[0], "/ws/cpp/sub/Local.qll");
    assert!(candidates.contains(&"/ws/cpp/Local.qll".to_string()));
}

#[test]
fn dbscheme_paths_keep_existing_files() {
    let mut p = pack("codeql/cpp-all", "/ws/cpp", &[]);
    p.dbscheme = Some("semmlecode.cpp.dbscheme".to_string());
    let q = pack("other", "/ws/other", &[]);
    let index = ProjectIndex::discover("/ws", vec![p, q], || vec![], |_: &str| -> Vec<(String, String)> { vec![] });
    assert_eq!(
        index.dbscheme_paths(|path: &str| path == "/ws/cpp/semmlecode.cpp.dbscheme"),
        vec!["/ws/cpp/semmlecode.cpp.dbscheme".to_string()]
    );
    assert!(index.dbscheme_paths(|_: &str| false).is_empty());
}

#[test]
fn index_building_blocks() {
    let mut index = ProjectIndex::new();
    assert!(index.add_pack(pack("a", "/a", &["b"])));
    assert!(!index.add_pack(pack("a", "/other", &[])));
    assert!(index.has_pack("a"));
    assert_eq!(index.missing_dependencies(), vec!["b".to_string()]);
    index.ensure_import_root("/ws");
    assert_eq!(index.import_roots(), &vec!["/a".to_string()]);
    assert_eq!(index.pack_for_root("/a/"), Some("a".to_string()));
    assert_eq!(index.pack_for_root("/b"), None);
    index.record_file("/a/x.qll".to_string(), Some("a".to_string()));
    index.record_file("/a/x.qll".to_string(), None);
    assert_eq!(index.file_count(), 1);
}

#[test]
fn pack_search_stops_at_packs_and_skips_hidden_dirs() {
    let subdirs: Vec<String> = ["src", ".git", "node_modules", "lib", "target", "ql-packs"].iter().map(|s| s.to_string()).collect();
    assert_eq!(pack_search_step(true, &subdirs), None);
    assert_eq!(pack_search_step(false, &subdirs), Some(vec!["src".to_string(), "lib".to_string()]));
}

#[test]
fn parent_search_covers_at_most_five_ancestors_nearest_first() {
    assert_eq!(
        parent_search_dirs("/a/b/c/d/e/f/g"),
        vec!["/a/b/c/d/e/f", "/a/b/c/d/e", "/a/b/c/d", "/a/b/c", "/a/b"]
    );
    assert_eq!(parent_search_dirs("/ws/"), vec!["/"]);
    assert_eq!(parent_search_dirs("ws/sub"), vec!["ws", ""]);
    assert!(parent_search_dirs("/").is_empty());
}
