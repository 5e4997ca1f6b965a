use laibrary::formatting::format_library_context;
use laibrary::generator::generate_output;
use laibrary::languages::rust::formatting::format_module;
use laibrary::languages::rust::impl_generator::generate_documentation;
use laibrary::types::{LibraryInfo, PackageMetadata};
use laibrary::{Namespace, Symbol};

const STUB_LIBRARY_NAME: &str = "test-lib";
const STUB_LIBRARY_VERSION: &str = "1.0.0";

fn assert_api_is_empty(documentation: &str) {
    let api_content = documentation
        .split("<api>")
        .nth(1)
        .and_then(|s| s.split("</api>").next())
        .unwrap_or("")
        .trim();
    assert!(api_content.is_empty(), "Expected empty API content, got: {api_content}");
}

fn create_metadata() -> PackageMetadata {
    PackageMetadata {
        name: STUB_LIBRARY_NAME.to_string(),
        version: STUB_LIBRARY_VERSION.to_string(),
        documentation: "".to_string(),
        entry_point: String::new(),
    }
}

fn create_namespace(name: &str, symbols: Vec<Symbol>) -> Namespace {
    Namespace { name: name.to_string(), symbols, doc_comment: None }
}

fn create_symbol(name: &str, source_code: &str) -> Symbol {
    Symbol { name: name.to_string(), source_code: source_code.to_string() }
}

#[test]
fn no_namespaces() {
    let documentation = format_library_context(&create_metadata(), &[]).unwrap();
    assert_api_is_empty(&documentation);
}

#[test]
fn namespace_without_symbols() {
    let namespace = create_namespace("test", vec![]);
    let documentation = format_library_context(&create_metadata(), &[namespace]).unwrap();
    assert_api_is_empty(&documentation);
}

#[test]
fn context_has_exact_layout() {
    let namespace = create_namespace("test", vec![create_symbol("a", "FIRST"), create_symbol("b", "SECOND")]);
    let empty = create_namespace("empty", vec![]);
    let metadata = PackageMetadata {
        name: "lib".to_string(),
        version: "2.0.0".to_string(),
        documentation: "  Docs  ".to_string(),
        entry_point: String::new(),
    };
    let documentation = format_library_context(&metadata, &[empty, namespace]).unwrap();
    assert_eq!(
        documentation,
        "<library name=\"lib\" version=\"2.0.0\">\n    <documentation>\nDocs\n    </documentation>\n    <api>\ntest:\n\n```\nFIRST\n\nSECOND\n```    </api>\n</library>"
    );
}

#[test]
fn test_generate_output() {
    let info = LibraryInfo {
        name: "test-crate".to_string(),
        version: "0.1.0".to_string(),
        documentation: "Test documentation".to_string(),
        api: "pub fn test() {}".to_string(),
    };
    let output = generate_output(&info);
    assert!(
        output.contains("<![CDATA[\nTest documentation\n    ]]>"),
        "Output does not contain the expected documentation CDATA section"
    );
    assert!(
        output.contains("<![CDATA[\npub fn test() {}\n    ]]>"),
        "Output does not contain the expected API CDATA section"
    );
}

#[test]
fn test_format_module() {
    let module = Namespace {
        name: "test".to_string(),
        symbols: vec![
            Symbol { name: "test".to_string(), source_code: "pub fn test() -> () {}".to_string() },
            Symbol { name: "TestEnum".to_string(), source_code: "pub enum TestEnum { A, B }".to_string() },
        ],
        doc_comment: None,
    };
    let formatted = format_module(&module).unwrap();
    assert_eq!(
        formatted, "pub fn test() -> () {}\n\npub enum TestEnum { A, B }",
        "Module should format all symbols with double newlines between them"
    );
}

#[test]
fn test_generate_documentation() {
    let public_members = vec![
        "pub fn test() -> ();".to_string(),
        "pub struct Test { field: String }".to_string(),
        "pub enum TestEnum { A, B }".to_string(),
    ];
    let documentation = generate_documentation(&public_members).unwrap();
    assert!(documentation.contains("pub fn test() -> ();"));
    assert!(documentation.contains("pub struct Test { field: String }"));
    assert!(documentation.contains("pub enum TestEnum { A, B }"));
    let lines: Vec<_> = documentation.lines().collect();
    assert_eq!(lines.len(), 5);
    assert!(lines[1].is_empty());
    assert!(lines[3].is_empty());
}

#[test]
fn test_generate_documentation_empty() {
    let documentation = generate_documentation(&[]).unwrap();
    assert!(documentation.is_empty());
}

#[test]
fn test_generate_documentation_single_item() {
    let public_members = vec!["pub fn standalone() -> ();".to_string()];
    let documentation = generate_documentation(&public_members).unwrap();
    assert_eq!(documentation, "pub fn standalone() -> ();");
}

const STUB_SOURCE_CODE: &str = "SOURCE_CODE";
const STUB_MULTI_LINE_SOURCE_CODE: &str = "MULTI_LINE\nSOURCE_CODE";

#[test]
fn library_name() {
    let documentation = format_library_context(&create_metadata(), &[]).unwrap();

    assert!(documentation.starts_with("<library name=\"test-lib\""));
}

#[test]
fn library_version() {
    let documentation = format_library_context(&create_metadata(), &[]).unwrap();

    assert!(documentation.contains(&format!(r#"version="{STUB_LIBRARY_VERSION}""#)));
}

#[test]
fn single_namespace() {
    let symbol = create_symbol("symbol", STUB_SOURCE_CODE);
    let namespace = create_namespace("test", vec![symbol]);
    let namespace_name = namespace.name.clone();

    let documentation = format_library_context(&create_metadata(), &[namespace]).unwrap();

    assert!(documentation.contains(&format!("{}:\n\n```\n{}\n```", namespace_name, STUB_SOURCE_CODE)));
}

#[test]
fn multiple_namespaces() {
    let namespace1 = create_namespace("test1", vec![create_symbol("symbol1", STUB_SOURCE_CODE)]);
    let namespace2 = create_namespace("test2", vec![create_symbol("symbol2", STUB_SOURCE_CODE)]);

    let documentation = format_library_context(&create_metadata(), &[namespace1, namespace2]).unwrap();

    assert!(documentation.contains("test1:\n\n```\n"));
    assert!(documentation.contains("test2:\n\n```\n"));
}

#[test]
fn single_symbol() {
    let namespace = create_namespace("test", vec![create_symbol("symbol", STUB_SOURCE_CODE)]);

    let documentation = format_library_context(&create_metadata(), &[namespace]).unwrap();

    assert!(documentation.contains("```\n"));
    assert!(documentation.contains(STUB_SOURCE_CODE));
    assert!(documentation.contains("\n```"));
}

#[test]
fn multiple_symbols() {
    let namespace = create_namespace("test", vec![create_symbol("symbol1", "FIRST"), create_symbol("symbol2", "SECOND")]);

    let documentation = format_library_context(&create_metadata(), &[namespace]).unwrap();

    assert!(documentation.contains("```\n"));
    assert!(documentation.contains("FIRST\n\nSECOND\n"));
    assert!(documentation.contains("```\n"));
}

#[test]
fn single_line_symbol() {
    let namespace = create_namespace("test", vec![create_symbol("symbol", STUB_SOURCE_CODE)]);

    let documentation = format_library_context(&create_metadata(), &[namespace]).unwrap();

    assert!(documentation.contains("```\n"));
    assert!(documentation.contains(STUB_SOURCE_CODE));
    assert!(documentation.contains("\n```"));
}

#[test]
fn multi_line_symbol() {
    let namespace = create_namespace("test", vec![create_symbol("symbol", STUB_MULTI_LINE_SOURCE_CODE)]);

    let documentation = format_library_context(&create_metadata(), &[namespace]).unwrap();

    assert!(documentation.contains("```\n"));
    assert!(documentation.contains(STUB_MULTI_LINE_SOURCE_CODE));
    assert!(documentation.contains("\n```"));
}

#[test]
fn get_symbol_found() {
    let symbol = Symbol { name: "test_symbol".to_string(), source_code: "fn test() {}".to_string() };
    let namespace = Namespace { name: "test_namespace".to_string(), symbols: vec![symbol], doc_comment: None };

    let found = namespace.get_symbol("test_symbol");

    assert!(found.is_some());
    assert_eq!(found.unwrap().name, "test_symbol");
}

#[test]
fn get_symbol_not_found() {
    let namespace = Namespace { name: "test_namespace".to_string(), symbols: vec![], doc_comment: None };

    let symbol = namespace.get_symbol("nonexistent");

    assert!(symbol.is_none());
}

#[test]
fn get_symbol_returns_first_match() {
    let namespace = Namespace {
        name: "n".to_string(),
        symbols: vec![create_symbol("dup", "FIRST"), create_symbol("dup", "SECOND")],
        doc_comment: None,
    };
    assert_eq!(namespace.get_symbol("dup").unwrap().source_code, "FIRST");
}

#[test]
fn namespaces_without_symbols_leave_no_trace() {
    let with_empty = format_library_context(
        &create_metadata(),
        &[
            create_namespace("first", vec![]),
            create_namespace("kept", vec![create_symbol("a", "A")]),
            create_namespace("last", vec![]),
        ],
    )
    .unwrap();
    let kept_only =
        format_library_context(&create_metadata(), &[create_namespace("kept", vec![create_symbol("a", "A")])]).unwrap();
    assert_eq!(with_empty, kept_only);
}
