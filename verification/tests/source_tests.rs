use ocql::diagnostics::Span;
use ocql::source::SourceManager;

#[test]
fn line_column_mapping() {
    let mut sm = SourceManager::new();
    let source = "line one\nline two\nline three\n";
    let id = sm.add_file("test.ql".to_string(), source.to_string());

    // Start of file
    let loc = sm.location(id, Span::new(0, 1));
    assert_eq!(loc.line, 1);
    assert_eq!(loc.column, 1);

    // Start of line 2 ("line two" starts at offset 9)
    let loc = sm.location(id, Span::new(9, 10));
    assert_eq!(loc.line, 2);
    assert_eq!(loc.column, 1);

    // "two" starts at offset 14
    let loc = sm.location(id, Span::new(14, 17));
    assert_eq!(loc.line, 2);
    assert_eq!(loc.column, 6);
}

#[test]
fn span_text() {
    let mut sm = SourceManager::new();
    let source = "from int x\nwhere x > 0\nselect x";
    let id = sm.add_file("test.ql".to_string(), source.to_string());
    assert_eq!(sm.span_text(id, Span::new(0, 4)), "from");
    assert_eq!(sm.span_text(id, Span::new(9, 10)), "x");
}

#[test]
fn duplicate_file() {
    let mut sm = SourceManager::new();
    let path = "test.ql".to_string();
    let id1 = sm.add_file(path.clone(), "source".to_string());
    let id2 = sm.add_file(path, "source".to_string());
    assert_eq!(id1, id2);
}

#[test]
fn registered_paths_round_trip() {
    let mut sm = SourceManager::new();
    let a = sm.add_file("a.ql".to_string(), "A".to_string());
    let b = sm.add_file("b.ql".to_string(), "B".to_string());
    assert_eq!(sm.get_file_id(sm.path(a)), Some(a));
    assert_eq!(sm.get_file_id(sm.path(b)), Some(b));
    assert_eq!(sm.get_file_id("c.ql"), None);
}

#[test]
fn first_registration_text_is_kept() {
    let mut sm = SourceManager::new();
    let a = sm.add_file("a.ql".to_string(), "first".to_string());
    let again = sm.add_file("a.ql".to_string(), "second".to_string());
    assert_eq!(again, a);
    assert_eq!(sm.source(a), "first");
    assert_eq!(sm.file_count(), 1);
}

#[test]
fn file_count_is_number_of_distinct_paths() {
    let mut sm = SourceManager::new();
    for p in ["x.ql", "y.ql", "x.ql", "z.ql", "y.ql"] {
        sm.add_file(p.to_string(), String::new());
    }
    assert_eq!(sm.file_count(), 3);
}
