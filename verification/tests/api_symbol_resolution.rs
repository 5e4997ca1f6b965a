use laibrary::languages::rust::api::symbol_collection::Module;
use laibrary::languages::rust::api::symbol_resolution::resolve_symbols;
use laibrary::{LaibraryError, Symbol};

fn stub_symbol() -> Symbol {
    Symbol { name: "test".to_string(), source_code: "pub fn test() {}".to_string() }
}

fn module(name: &str, definitions: Vec<Symbol>, references: Vec<&str>, is_public: bool) -> Module {
    Module {
        name: name.to_string(),
        definitions,
        references: references.into_iter().map(String::from).collect(),
        is_public,
        doc_comment: None,
    }
}

#[test]
fn at_root() {
    let symbol = stub_symbol();
    let modules = vec![module("", vec![symbol.clone()], vec![], true)];
    let resolution = resolve_symbols(&modules).unwrap();
    assert_eq!(resolution.symbols.len(), 1);
    assert_eq!(resolution.symbols[0].symbol, symbol);
    assert_eq!(resolution.symbols[0].modules, vec![String::new()]);
}

#[test]
fn at_submodule() {
    let symbol = stub_symbol();
    let modules = vec![module("outer::inner", vec![symbol.clone()], vec![], true)];
    let resolution = resolve_symbols(&modules).unwrap();
    assert_eq!(resolution.symbols.len(), 1);
    let resolved_symbol = &resolution.symbols[0];
    assert_eq!(resolved_symbol.modules, vec!["outer::inner"]);
}

#[test]
fn via_public_module() {
    let symbol = stub_symbol();
    let modules = vec![
        module("", vec![], vec!["inner::test"], true),
        module("inner", vec![symbol.clone()], vec![], true),
    ];
    let resolution = resolve_symbols(&modules).unwrap();
    assert_eq!(resolution.symbols.len(), 1);
    let resolved_symbol = &resolution.symbols[0];
    assert_eq!(resolved_symbol.symbol, symbol);
    assert!(resolved_symbol.modules.contains(&String::new()));
    assert!(resolved_symbol.modules.contains(&"inner".to_string()));
}

#[test]
fn via_private_module() {
    let symbol = stub_symbol();
    let modules = vec![
        module("", vec![], vec!["inner::test"], true),
        module("inner", vec![symbol.clone()], vec![], false),
    ];
    let resolution = resolve_symbols(&modules).unwrap();
    assert_eq!(resolution.symbols.len(), 1);
    let resolved_symbol = &resolution.symbols[0];
    assert_eq!(resolved_symbol.modules, vec![String::new()]);
    assert_eq!(resolved_symbol.symbol, symbol);
}

#[test]
fn via_nested_public_module() {
    let symbol = stub_symbol();
    let modules = vec![
        module("foo::bar", vec![], vec!["outer::inner::test"], true),
        module("outer::inner", vec![symbol.clone()], vec![], true),
    ];
    let resolution = resolve_symbols(&modules).unwrap();
    assert_eq!(resolution.symbols.len(), 1);
    let resolved_symbol = &resolution.symbols[0];
    assert_eq!(resolved_symbol.symbol, symbol);
    assert!(resolved_symbol.modules.contains(&"foo::bar".to_string()));
    assert!(resolved_symbol.modules.contains(&"outer::inner".to_string()));
}

#[test]
fn missing_reference() {
    let modules = vec![module("", vec![], vec!["missing::test"], true)];
    let result = resolve_symbols(&modules);
    assert!(matches!(
        result,
        Err(LaibraryError::Parse(msg)) if msg == "Could not resolve symbol reference 'missing::test'"
    ));
}

#[test]
fn self_referential_symbol() {
    let modules = vec![module("", vec![], vec!["test"], true)];
    let result = resolve_symbols(&modules);
    assert!(matches!(
        result,
        Err(LaibraryError::Parse(msg)) if msg == "Circular reference detected while resolving 'test'"
    ));
}

#[test]
fn namespace_without_doc_comment() {
    let modules = vec![module("text", vec![], vec![], true)];
    let resolution = resolve_symbols(&modules).unwrap();
    assert!(resolution.doc_comments.is_empty());
}

#[test]
fn namespace_with_doc_comment() {
    let mut text = module("text", vec![], vec![], true);
    text.doc_comment = Some("Module for text processing".to_string());
    let resolution = resolve_symbols(&[text]).unwrap();
    assert_eq!(resolution.doc_comments.len(), 1);
    assert_eq!(resolution.doc_comments.get("text"), Some(&"Module for text processing".to_string()));
}

#[test]
fn reexport_of_a_reexport_is_looked_up_by_path() {
    let symbol = Symbol { name: "Format".to_string(), source_code: "pub enum Format {}".to_string() };
    let modules = vec![
        module("", vec![], vec!["text::Format"], true),
        module("text", vec![], vec!["text::formatter::Format"], true),
        module("text::formatter", vec![symbol], vec![], true),
    ];
    assert!(matches!(
        resolve_symbols(&modules),
        Err(LaibraryError::Parse(msg)) if msg == "Could not resolve symbol reference 'text::Format'"
    ));
}

#[test]
fn references_without_definitions_fail() {
    let modules = vec![
        module("a", vec![], vec!["b::x"], true),
        module("b", vec![], vec!["a::x"], true),
    ];
    assert!(matches!(resolve_symbols(&modules), Err(LaibraryError::Parse(_))));
}
