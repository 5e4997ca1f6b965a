use laibrary::get_parser;
use laibrary::languages::rust::analyser::RustAnalyser;
use laibrary::languages::rust::parsing::parse_rust_file;
use laibrary::languages::rust::types::RustSymbol;
use laibrary::Symbol;

fn setup_parser() -> tree_sitter::Parser {
    get_parser(&RustAnalyser::new().get_parser_language()).unwrap()
}

fn get_rust_symbol<'a>(symbols: &'a [RustSymbol], name: &str) -> Option<&'a Symbol> {
    symbols.iter().find_map(|s| match s {
        RustSymbol::Symbol { symbol } if symbol.name == name => Some(symbol),
        _ => None,
    })
}

fn get_inner_module<'a>(path: &str, symbols: &'a [RustSymbol]) -> Option<&'a [RustSymbol]> {
    let mut current: &[RustSymbol] = symbols;
    for part in path.split("::") {
        current = current.iter().find_map(|symbol| match symbol {
            RustSymbol::Module { name, content } if name == part => Some(content.as_slice()),
            _ => None,
        })?;
    }
    Some(current)
}

fn parse(source_code: &str) -> Vec<RustSymbol> {
    let mut parser = setup_parser();
    parse_rust_file(source_code, &mut parser).unwrap()
}

#[test]
fn parsing_empty_source_file() {
    let symbols = parse("");
    assert!(symbols.is_empty());
}

#[test]
fn parsing_invalid_syntax() {
    let mut parser = setup_parser();
    let result = parse_rust_file("fn main() { let x = 1; let y = 2; let z = x + y; }", &mut parser);
    assert!(result.is_ok());
}

#[test]
fn parsing_function_declaration() {
    let symbols = parse("\npub fn test_function() -> i32 {\n    return 42;\n}\n");
    let symbol = get_rust_symbol(&symbols, "test_function").unwrap();
    assert_eq!(symbol.source_code, "pub fn test_function() -> i32;");
}

#[test]
fn parsing_trait_method_declaration() {
    let symbols = parse("\npub trait TestTrait {\n    pub fn test_method(&self) -> i32 {\n        42\n    }\n}\n");
    let symbol = get_rust_symbol(&symbols, "TestTrait").unwrap();
    assert!(symbol.source_code.contains("pub fn test_method(&self) -> i32;"));
}

#[test]
fn parsing_private_symbols() {
    let symbols = parse("\nfn private_function() {}\npub fn public_function() -> () {}\n");
    assert!(get_rust_symbol(&symbols, "private_function").is_none());
}

#[test]
fn parsing_crate_visible_symbols() {
    let symbols = parse("\npub(crate) fn crate_function() {}\n");
    assert!(get_rust_symbol(&symbols, "crate_function").is_some());
}

#[test]
fn parsing_super_visible_symbols() {
    let symbols = parse("\npub(super) fn super_function() {}\n");
    assert!(get_rust_symbol(&symbols, "super_function").is_some());
}

#[test]
fn parsing_no_doc_comments() {
    let symbols = parse("\npub struct Test {}\n");
    let symbol = get_rust_symbol(&symbols, "Test").unwrap();
    assert_eq!(symbol.source_code, "pub struct Test {}");
}

#[test]
fn parsing_single_line() {
    let symbols = parse("\n/// A documented item\npub struct Test {}\n");
    let symbol = get_rust_symbol(&symbols, "Test").unwrap();
    assert_eq!(symbol.source_code, "/// A documented item\npub struct Test {}");
}

#[test]
fn parsing_multiple_line() {
    let symbols = parse("\n/// First line\n/// Second line\npub struct Test {}\n");
    let symbol = get_rust_symbol(&symbols, "Test").unwrap();
    assert!(symbol.source_code.starts_with("/// First line\n/// Second line\n"));
}

#[test]
fn parsing_inner_doc_comments() {
    let symbols = parse("\n/// Outer doc\n//! Inner doc\npub struct Test {}\n");
    let symbol = get_rust_symbol(&symbols, "Test").unwrap();
    assert!(symbol.source_code.starts_with("pub struct Test"));
}

#[test]
fn parsing_regular_comments() {
    let symbols = parse("\n/// Doc comment\n// Regular comment\npub struct Test {}\n");
    let symbol = get_rust_symbol(&symbols, "Test").unwrap();
    assert!(symbol.source_code.starts_with("pub struct Test"));
}

#[test]
fn parsing_block_doc_comments() {
    let symbols = parse("\n/** A block doc comment\n * with multiple lines\n * and some indentation\n */\npub struct Test {}\n");
    let symbol = get_rust_symbol(&symbols, "Test").unwrap();
    assert!(symbol
        .source_code
        .starts_with("/** A block doc comment\n * with multiple lines\n * and some indentation\n */\npub struct Test"));
}

#[test]
fn parsing_file_level_doc_comments() {
    let symbols = parse("\n//! File-level documentation\n//! More file-level docs\n\n/// This is the struct's doc\npub struct Test {}\n");
    let symbol = get_rust_symbol(&symbols, "Test").unwrap();
    assert!(symbol.source_code.starts_with("/// This is the struct's doc\n"));
}

#[test]
fn parsing_preceding_symbol() {
    let symbols = parse("\n/// First struct's doc\npub struct FirstStruct {}\n\n/// Second struct's doc\npub struct SecondStruct {}\n");
    let symbol = get_rust_symbol(&symbols, "SecondStruct").unwrap();
    assert!(symbol.source_code.starts_with("/// Second struct's doc\n"));
}

#[test]
fn parsing_block_comment_preceded_by_line_comment() {
    let symbols = parse("\n/// This line should be ignored\n/** This block comment\n * should be returned\n */\npub struct Test {}\n");
    let symbol = get_rust_symbol(&symbols, "Test").unwrap();
    assert!(symbol.source_code.starts_with("/** This block comment\n * should be returned\n */\n"));
}

#[test]
fn parsing_function_with_doc_comment() {
    let symbols = parse("\n/// A documented function\npub fn test_function() -> i32 {\n    42\n}\n");
    let symbol = get_rust_symbol(&symbols, "test_function").unwrap();
    assert!(symbol.source_code.starts_with("/// A documented function\n"));
}

#[test]
fn parsing_struct_with_doc_comment() {
    let symbols = parse("\n/// A documented struct\npub struct TestStruct {\n    field: i32\n}\n");
    let symbol = get_rust_symbol(&symbols, "TestStruct").unwrap();
    assert!(symbol.source_code.starts_with("/// A documented struct\n"));
}

#[test]
fn parsing_enum_with_doc_comment() {
    let symbols = parse("\n/// A documented enum\npub enum TestEnum {\n    A,\n    B\n}\n");
    let symbol = get_rust_symbol(&symbols, "TestEnum").unwrap();
    assert!(symbol.source_code.starts_with("/// A documented enum\n"));
}

#[test]
fn parsing_trait_with_doc_comment() {
    let symbols = parse("\n/// A documented trait\npub trait TestTrait {\n    fn test_method(&self);\n}\n");
    let symbol = get_rust_symbol(&symbols, "TestTrait").unwrap();
    assert!(symbol.source_code.starts_with("/// A documented trait\n"));
}

#[test]
fn parsing_trait_method_doc_comments() {
    let symbols = parse("\npub trait TestTrait {\n    /// A documented method\n    pub fn test_method(&self) -> i32 {\n        42\n    }\n}\n");
    let symbol = get_rust_symbol(&symbols, "TestTrait").unwrap();
    assert!(symbol.source_code.contains("/// A documented method\n    pub fn test_method(&self) -> i32;"));
}

#[test]
fn parsing_public_modules() {
    let symbols = parse("\npub mod inner {\n    pub fn nested_function() -> String {}\n}\n");
    let inner_content = get_inner_module("inner", &symbols).unwrap();
    let symbol = get_rust_symbol(inner_content, "nested_function").unwrap();
    assert_eq!(symbol.name, "nested_function");
}

#[test]
fn parsing_private_modules() {
    let symbols = parse("\nmod private {\n    pub fn private_function() -> String {}\n}\n");
    assert!(symbols.is_empty(), "Private modules should be ignored");
}

#[test]
fn parsing_empty_modules() {
    let symbols = parse("\npub mod empty {}\n");
    let empty_content = get_inner_module("empty", &symbols).unwrap();
    assert_eq!(symbols.len(), 1);
    assert!(empty_content.is_empty());
}

#[test]
fn parsing_inner_module_symbols() {
    let symbols = parse("\npub mod inner {\n    pub struct InnerStruct {}\n\n    pub mod deeper {\n        pub enum DeeperEnum {\n            A, B\n        }\n    }\n}\n");

    assert_eq!(symbols.len(), 1);
    let inner_content = get_inner_module("inner", &symbols).expect("Should find inner module");
    assert_eq!(inner_content.len(), 2);
    let inner_struct = get_rust_symbol(inner_content, "InnerStruct").expect("Should find InnerStruct");
    assert_eq!(inner_struct.name, "InnerStruct");
    let deeper_content = get_inner_module("deeper", inner_content).expect("Should find deeper module");
    assert_eq!(deeper_content.len(), 1);
    let deeper_enum = get_rust_symbol(deeper_content, "DeeperEnum").expect("Should find DeeperEnum");
    assert_eq!(deeper_enum.name, "DeeperEnum");
}

#[test]
fn parsing_module_declarations() {
    let symbols = parse("\npub mod other;\n");
    let symbol = get_rust_symbol(&symbols, "other").unwrap();
    assert_eq!(symbol.name, "other");
    assert_eq!(symbol.source_code, "pub mod other;");
}
