use laibrary::get_parser;
use laibrary::languages::rust::analyser::RustAnalyser;
use laibrary::types::get_namespace;
use laibrary::{ExtractionError, Namespace, ParsedFile};

fn setup_parser() -> tree_sitter::Parser {
    get_parser(&RustAnalyser::new().get_parser_language()).unwrap()
}

#[test]
fn parsed_file_renders_root_and_ranges() {
    let mut parser = setup_parser();
    let source = "pub fn answer() -> u32 { 42 }\n";
    let parsed = ParsedFile::parse(source, &mut parser).unwrap();

    let root = parsed.root_node();
    assert_eq!(root.kind, "source_file");
    assert_eq!(parsed.render_node(root).unwrap(), source);
    assert_eq!(parsed.render(0, 6), "pub fn");
    let function = &root.children[0];
    assert_eq!(function.kind, "function_item");
    assert_eq!(parsed.render_node(function).unwrap(), "pub fn answer() -> u32 { 42 }");
}

#[test]
fn parsed_file_refuses_syntax_errors() {
    let mut parser = setup_parser();
    match ParsedFile::parse("pub fn broken( {", &mut parser) {
        Err(ExtractionError::Malformed(m)) => assert_eq!(m, "Failed to parse source file"),
        _ => panic!("expected a malformed source"),
    }
}

#[test]
fn parsed_file_without_language_fails() {
    let mut parser = tree_sitter::Parser::new();
    assert!(matches!(ParsedFile::parse("pub fn f() {}", &mut parser), Err(ExtractionError::Malformed(_))));
}

#[test]
fn parsed_file_compiles_queries() {
    let mut parser = setup_parser();
    let parsed = ParsedFile::parse("pub fn f() {}", &mut parser).unwrap();
    assert!(parsed.make_query("(function_item name: (identifier) @name)").is_ok());
    match parsed.make_query("(((") {
        Err(ExtractionError::Malformed(m)) => assert_eq!(m, "Failed to create query"),
        _ => panic!("expected a refused query"),
    }
}

#[test]
fn get_namespace_finds_first_by_name() {
    let namespaces = vec![
        Namespace { name: "a".to_string(), symbols: vec![], doc_comment: Some("first".to_string()) },
        Namespace { name: "b".to_string(), symbols: vec![], doc_comment: None },
        Namespace { name: "a".to_string(), symbols: vec![], doc_comment: Some("second".to_string()) },
    ];
    assert_eq!(get_namespace("a", &namespaces).unwrap().doc_comment.as_deref(), Some("first"));
    assert_eq!(get_namespace("b", &namespaces).unwrap().name, "b");
    assert!(get_namespace("c", &namespaces).is_none());
}

#[test]
fn parsed_file_refuses_queries_starting_with_a_name() {
    let mut parser = setup_parser();
    let parsed = ParsedFile::parse("pub fn f() {}", &mut parser).unwrap();
    for query in ["nofield: (identifier)", "identifier", "@capture"] {
        match parsed.make_query(query) {
            Err(ExtractionError::Malformed(m)) => assert_eq!(m, "Failed to create query"),
            _ => panic!("expected a refused query"),
        }
    }
    assert!(parsed.make_query("  (function_item) @f").is_ok());
    assert!(parsed.make_query("; comment\n(identifier) @id").is_ok());
    assert!(parsed.make_query("(nofield: (identifier))").is_err());
}

#[test]
fn make_query_accepts_wildcards_and_known_fields_at_the_start() {
    let mut parser = setup_parser();
    let parsed = ParsedFile::parse("pub fn f() {}", &mut parser).unwrap();
    assert!(parsed.make_query("_ @any").is_ok());
    assert!(parsed.make_query("name: (identifier) @n").is_ok());
    assert!(parsed.make_query("(_) @node").is_ok());
    assert!(parsed.make_query("\u{e9}t\u{e9}: (identifier)").is_err());
}
