use laibrary::languages::rust::symbol_collection::RawNamespace;
use laibrary::languages::rust::symbol_resolution::resolve_symbols;
use laibrary::{LaibraryError, Symbol};

fn raw(name: &str, definitions: Vec<Symbol>, references: Vec<(&str, &str)>, is_public: bool) -> RawNamespace {
    RawNamespace {
        name: name.to_string(),
        definitions,
        references: references.into_iter().map(|(a, b)| (a.to_string(), b.to_string())).collect(),
        is_public,
    }
}

fn symbol(name: &str, source_code: &str) -> Symbol {
    Symbol { name: name.to_string(), source_code: source_code.to_string() }
}

#[test]
fn test_resolve_symbols_simple() {
    let raw_namespaces = vec![raw("", vec![symbol("test", "pub fn test() {}")], vec![], true)];
    let resolved = resolve_symbols(&raw_namespaces).unwrap();
    assert_eq!(resolved.len(), 1);
    assert_eq!(resolved[0].symbol.name, "test");
    assert_eq!(resolved[0].modules.len(), 0);
}

#[test]
fn test_resolve_symbols_with_reference() {
    let raw_namespaces = vec![
        raw("", vec![], vec![("test", "inner::test")], true),
        raw("inner", vec![symbol("test", "pub fn test() {}")], vec![], true),
    ];
    let resolved = resolve_symbols(&raw_namespaces).unwrap();
    assert_eq!(resolved.len(), 2);
    let root_symbol = resolved.iter().find(|s| s.modules.is_empty()).unwrap();
    assert_eq!(root_symbol.symbol.name, "test");
    let inner_symbol = resolved.iter().find(|s| s.modules == vec!["inner"]).unwrap();
    assert_eq!(inner_symbol.symbol.name, "test");
}

#[test]
fn test_resolve_symbols_missing_reference() {
    let raw_namespaces = vec![raw("", vec![], vec![("test", "missing::test")], true)];
    let result = resolve_symbols(&raw_namespaces);
    assert!(matches!(result, Err(LaibraryError::Parse(_))));
}

#[test]
fn test_resolve_symbols_reexport_chain() {
    let raw_namespaces = vec![
        raw("", vec![], vec![("Format", "formatting::Format")], true),
        raw("formatting", vec![], vec![("Format", "formatting::format::Format")], true),
        raw("formatting::format", vec![symbol("Format", "pub enum Format { Markdown, Html, Plain }")], vec![], true),
    ];
    let resolved = resolve_symbols(&raw_namespaces).unwrap();
    assert_eq!(resolved.len(), 3);
    let root_symbol = resolved.iter().find(|s| s.modules.is_empty()).unwrap();
    assert_eq!(root_symbol.symbol.name, "Format");
    assert!(root_symbol.symbol.source_code.contains("pub enum Format { Markdown, Html, Plain }"));
    let formatting_symbol = resolved.iter().find(|s| s.modules == vec!["formatting"]).unwrap();
    assert_eq!(formatting_symbol.symbol.name, "Format");
    assert!(formatting_symbol.symbol.source_code.contains("pub enum Format { Markdown, Html, Plain }"));
    let format_symbol = resolved.iter().find(|s| s.modules == vec!["formatting", "format"]).unwrap();
    assert_eq!(format_symbol.symbol.name, "Format");
    assert!(format_symbol.symbol.source_code.contains("pub enum Format { Markdown, Html, Plain }"));
}

#[test]
fn test_resolve_symbols_multiple_reexports() {
    let raw_namespaces = vec![
        raw("", vec![], vec![("Format", "text::Format"), ("TextFormatter", "text::TextFormatter")], true),
        raw(
            "text",
            vec![],
            vec![("Format", "text::formatter::Format"), ("TextFormatter", "text::formatter::TextFormatter")],
            true,
        ),
        raw(
            "text::formatter",
            vec![
                symbol("Format", "pub enum Format { Plain, Rich }"),
                symbol("TextFormatter", "pub struct TextFormatter { format: Format }"),
            ],
            vec![],
            true,
        ),
    ];
    let resolved = resolve_symbols(&raw_namespaces).unwrap();
    assert_eq!(resolved.len(), 6);
    let root_symbols: Vec<_> = resolved.iter().filter(|s| s.modules.is_empty()).collect();
    assert_eq!(root_symbols.len(), 2);
    assert!(root_symbols.iter().any(|s| s.symbol.name == "Format" && s.symbol.source_code.contains("pub enum Format")));
    assert!(root_symbols.iter().any(|s| s.symbol.name == "TextFormatter"
        && s.symbol.source_code.contains("pub struct TextFormatter")));
    let text_symbols: Vec<_> = resolved.iter().filter(|s| s.modules == vec!["text"]).collect();
    assert_eq!(text_symbols.len(), 2);
    assert!(text_symbols.iter().any(|s| s.symbol.name == "Format" && s.symbol.source_code.contains("pub enum Format")));
    assert!(text_symbols.iter().any(|s| s.symbol.name == "TextFormatter"
        && s.symbol.source_code.contains("pub struct TextFormatter")));
    let formatter_symbols: Vec<_> = resolved.iter().filter(|s| s.modules == vec!["text", "formatter"]).collect();
    assert_eq!(formatter_symbols.len(), 2);
    assert!(formatter_symbols.iter().any(|s| s.symbol.name == "Format" && s.symbol.source_code.contains("pub enum Format")));
    assert!(formatter_symbols.iter().any(|s| s.symbol.name == "TextFormatter"
        && s.symbol.source_code.contains("pub struct TextFormatter")));
}

#[test]
fn test_resolve_symbols_circular_reference() {
    let raw_namespaces = vec![
        raw("", vec![], vec![("test", "a::test")], true),
        raw("a", vec![], vec![("test", "b::test")], true),
        raw("b", vec![], vec![("test", "a::test")], true),
    ];
    let result = resolve_symbols(&raw_namespaces);
    assert!(matches!(result, Err(LaibraryError::Parse(_))));
}

#[test]
fn test_resolve_symbols_through_private_module() {
    let raw_namespaces = vec![
        raw("", vec![], vec![], true),
        raw(
            "text",
            vec![],
            vec![("Format", "text::formatter::Format"), ("TextFormatter", "text::formatter::TextFormatter")],
            true,
        ),
        raw(
            "text::formatter",
            vec![
                symbol("Format", "pub enum Format { Plain, Rich }"),
                symbol("TextFormatter", "pub struct TextFormatter { format: Format }"),
            ],
            vec![],
            false,
        ),
    ];
    let resolved = resolve_symbols(&raw_namespaces).unwrap();
    let text_symbols: Vec<_> = resolved.iter().filter(|s| s.modules == vec!["text"]).collect();
    assert_eq!(text_symbols.len(), 2);
    assert!(text_symbols.iter().any(|s| s.symbol.name == "Format"));
    assert!(text_symbols.iter().any(|s| s.symbol.name == "TextFormatter"));
    assert!(!resolved.iter().any(|s| s.modules == vec!["text", "formatter"]));
}

#[test]
fn missing_reference_message_names_the_path() {
    let raw_namespaces = vec![raw("", vec![], vec![("test", "missing::test")], true)];
    assert!(matches!(
        resolve_symbols(&raw_namespaces),
        Err(LaibraryError::Parse(msg)) if msg == "Could not resolve symbol reference 'missing::test'"
    ));
}

#[test]
fn private_namespace_sharing_a_public_name_has_its_reexports_resolved() {
    let raw_namespaces = vec![
        raw("", vec![], vec![], true),
        raw("inner", vec![symbol("a", "pub fn a() {}")], vec![], true),
        raw("inner", vec![], vec![("b", "missing::b")], false),
    ];
    assert!(matches!(resolve_symbols(&raw_namespaces), Err(LaibraryError::Parse(_))));

    let lone_private = vec![raw("", vec![], vec![], true), raw("hidden", vec![], vec![("b", "missing::b")], false)];
    assert!(resolve_symbols(&lone_private).unwrap().is_empty());
}
