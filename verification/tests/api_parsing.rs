use laibrary::get_parser;
use laibrary::languages::rust::analyser::RustAnalyser;
use laibrary::languages::rust::api::parsing::doc_comments::{extract_inner_doc_comments, extract_outer_doc_comments};
use laibrary::languages::rust::api::parsing::parse_rust_file;
use laibrary::languages::rust::api::types::RustSymbol;
use laibrary::syntax::{parse_source_tree, SourceTree, SyntaxNode};
use laibrary::Symbol;

fn setup_parser() -> tree_sitter::Parser {
    get_parser(&RustAnalyser::new().get_parser_language()).unwrap()
}

fn make_tree(source_code: &str) -> SourceTree {
    let mut parser = setup_parser();
    parse_source_tree(&mut parser, source_code).unwrap()
}

fn item_positions(node: &SyntaxNode, kind: &str) -> Vec<usize> {
    node.children.iter().enumerate().filter(|(_, c)| c.kind == kind).map(|(i, _)| i).collect()
}

fn item_position(node: &SyntaxNode, kind: &str) -> usize {
    let found = item_positions(node, kind);
    assert_eq!(found.len(), 1, "expected one node of kind {}", kind);
    found[0]
}

fn outer_doc(source_code: &str, kind: &str) -> Option<String> {
    let tree = make_tree(source_code);
    let i = item_position(&tree.root, kind);
    extract_outer_doc_comments(&tree.root.children, i, source_code)
}

fn get_inner_module<'a>(path: &str, symbols: &'a [RustSymbol]) -> Option<&'a [RustSymbol]> {
    let mut current: &[RustSymbol] = symbols;
    for part in path.split("::") {
        let next = current.iter().find_map(|symbol| match symbol {
            RustSymbol::Module { name, content, .. } if name == part => Some(content.as_slice()),
            _ => None,
        })?;
        current = next;
    }
    Some(current)
}

fn get_rust_symbol<'a>(symbols: &'a [RustSymbol], name: &str) -> Option<&'a Symbol> {
    symbols.iter().find_map(|s| match s {
        RustSymbol::Symbol { symbol } if symbol.name == name => Some(symbol),
        _ => None,
    })
}

#[test]
fn no_doc_comment() {
    let source_code = "\npub struct Test {}\n";
    let tree = make_tree(source_code);
    assert!(extract_inner_doc_comments(&tree.root, source_code).is_none());
}

#[test]
fn single_line_doc_comment() {
    let source_code = "\n//! This is a file-level doc comment\npub struct Test {}\n";
    let tree = make_tree(source_code);
    assert_eq!(
        extract_inner_doc_comments(&tree.root, source_code),
        Some("//! This is a file-level doc comment\n".to_string())
    );
}

#[test]
fn multiline_doc_comment() {
    let source_code = "\n//! This is a file-level doc comment\n//! It spans multiple lines\n\npub struct Test {}\n";
    let tree = make_tree(source_code);
    assert_eq!(
        extract_inner_doc_comments(&tree.root, source_code),
        Some("//! This is a file-level doc comment\n//! It spans multiple lines\n".to_string())
    );
}

#[test]
fn regular_comment_not_doc_comment() {
    let source_code = "\n// This is a regular comment\npub struct Test {}\n";
    let tree = make_tree(source_code);
    assert!(extract_inner_doc_comments(&tree.root, source_code).is_none());
}

#[test]
fn doc_comments_no_doc_comments() {
    assert!(outer_doc("\npub struct Test {}\n", "struct_item").is_none());
}

#[test]
fn doc_comments_single_line() {
    assert_eq!(outer_doc("\n/// A documented item\npub struct Test {}\n", "struct_item"), Some("/// A documented item\n".to_string()));
}

#[test]
fn doc_comments_multiple_line() {
    assert_eq!(
        outer_doc("\n/// First line\n/// Second line\npub struct Test {}\n", "struct_item"),
        Some("/// First line\n/// Second line\n".to_string())
    );
}

#[test]
fn doc_comments_inner_doc_comments() {
    assert_eq!(outer_doc("\n//! Inner doc\n/// Outer doc\npub struct Test {}\n", "struct_item"), Some("/// Outer doc\n".to_string()));
}

#[test]
fn doc_comments_regular_comments() {
    assert_eq!(outer_doc("\n// Regular comment\n/// Doc comment\npub struct Test {}\n", "struct_item"), Some("/// Doc comment\n".to_string()));
}

#[test]
fn doc_comments_block_doc_comments() {
    assert_eq!(
        outer_doc("\n/** A block doc comment\n * with multiple lines\n */\npub struct Test {}\n", "struct_item"),
        Some("/** A block doc comment\n * with multiple lines\n */\n".to_string())
    );
}

#[test]
fn doc_comments_file_level_doc_comments() {
    assert_eq!(
        outer_doc("\n//! File-level documentation\n//! More file-level docs\n\n/// This is the struct's doc\npub struct Test {}\n", "struct_item"),
        Some("/// This is the struct's doc\n".to_string())
    );
}

#[test]
fn doc_comments_preceding_symbol() {
    let source_code = "\n/// First struct's doc\npub struct FirstStruct {}\n\n/// Second struct's doc\npub struct SecondStruct {}\n";
    let tree = make_tree(source_code);
    let nodes = item_positions(&tree.root, "struct_item");
    let result = extract_outer_doc_comments(&tree.root.children, nodes[1], source_code);
    assert_eq!(result, Some("/// Second struct's doc\n".to_string()));
}

#[test]
fn doc_comments_block_comment_preceded_by_line_comment() {
    assert_eq!(
        outer_doc("\n/// This line should be ignored\n/** This block comment\n * should be returned\n */\npub struct Test {}\n", "struct_item"),
        Some("/** This block comment\n * should be returned\n */\n".to_string())
    );
}

#[test]
fn doc_comment_with_macro() {
    assert_eq!(
        outer_doc("\n/// The doc comment\n#[derive(Debug)]\npub enum Foo {\n    Bar,\n    Baz,\n}\n", "enum_item"),
        Some("/// The doc comment\n".to_string())
    );
}

#[test]
fn doc_comment_with_multiple_attributes() {
    assert_eq!(
        outer_doc("\n/// The doc comment\n#[derive(Debug)]\n#[serde(rename = \"foo\")]\npub enum Foo {\n    Bar,\n    Baz,\n}\n", "enum_item"),
        Some("/// The doc comment\n".to_string())
    );
}

#[test]
fn macro_without_doc_comment() {
    assert!(outer_doc("\n#[derive(Debug)]\npub enum Foo {\n    Bar,\n    Baz,\n}\n", "enum_item").is_none());
}

#[test]
fn doc_comments_function_with_doc_comment() {
    assert_eq!(
        outer_doc("\n/// A documented function\npub fn test_function() -> i32 {\n    42\n}\n", "function_item"),
        Some("/// A documented function\n".to_string())
    );
}

#[test]
fn doc_comments_struct_with_doc_comment() {
    assert_eq!(
        outer_doc("\n/// A documented struct\npub struct TestStruct {\n    field: i32\n}\n", "struct_item"),
        Some("/// A documented struct\n".to_string())
    );
}

#[test]
fn doc_comments_enum_with_doc_comment() {
    assert_eq!(
        outer_doc("\n/// A documented enum\npub enum TestEnum {\n    A,\n    B\n}\n", "enum_item"),
        Some("/// A documented enum\n".to_string())
    );
}

#[test]
fn doc_comments_trait_with_doc_comment() {
    assert_eq!(
        outer_doc("\n/// A documented trait\npub trait TestTrait {\n    fn test_method(&self);\n}\n", "trait_item"),
        Some("/// A documented trait\n".to_string())
    );
}

#[test]
fn doc_comments_trait_method_doc_comments() {
    let source_code = "\npub trait TestTrait {\n    /// A documented method\n    pub fn test_method(&self) -> i32 {\n        42\n    }\n}\n";
    let tree = make_tree(source_code);
    let trait_node = &tree.root.children[item_position(&tree.root, "trait_item")];
    let decl_list = &trait_node.children[item_position(trait_node, "declaration_list")];
    let method = item_position(decl_list, "function_item");
    let result = extract_outer_doc_comments(&decl_list.children, method, source_code);
    assert_eq!(result, Some("/// A documented method\n".to_string()));
}

#[test]
fn mod_empty_source_file() {
    let mut parser = setup_parser();
    let rust_file = parse_rust_file("", &mut parser).unwrap();
    assert!(rust_file.symbols.is_empty());
}

#[test]
fn mod_invalid_syntax() {
    let mut parser = setup_parser();
    let result = parse_rust_file("fn main() { let x = 1; let y = 2; let z = x + y; }", &mut parser);
    assert!(result.is_ok());
}

#[test]
fn mod_function_declaration() {
    let mut parser = setup_parser();
    let rust_file = parse_rust_file("\npub fn test_function() -> i32 {\n    return 42;\n}\n", &mut parser).unwrap();
    let symbol = get_rust_symbol(&rust_file.symbols, "test_function").unwrap();
    assert_eq!(symbol.source_code, "pub fn test_function() -> i32;");
}

#[test]
fn mod_trait_method_declaration() {
    let mut parser = setup_parser();
    let rust_file =
        parse_rust_file("\npub trait TestTrait {\n    pub fn test_method(&self) -> i32 {\n        42\n    }\n}\n", &mut parser).unwrap();
    let symbol = get_rust_symbol(&rust_file.symbols, "TestTrait").unwrap();
    assert!(symbol.source_code.contains("pub fn test_method(&self) -> i32;"));
}

#[test]
fn mod_private_symbols() {
    let mut parser = setup_parser();
    let rust_file = parse_rust_file("\nfn private_function() {}\npub fn public_function() -> () {}\n", &mut parser).unwrap();
    assert!(get_rust_symbol(&rust_file.symbols, "private_function").is_none());
}

#[test]
fn mod_crate_visible_symbols() {
    let mut parser = setup_parser();
    let rust_file = parse_rust_file("\npub(crate) fn crate_function() {}\n", &mut parser).unwrap();
    assert!(get_rust_symbol(&rust_file.symbols, "crate_function").is_some());
}

#[test]
fn mod_super_visible_symbols() {
    let mut parser = setup_parser();
    let rust_file = parse_rust_file("\npub(super) fn super_function() {}\n", &mut parser).unwrap();
    assert!(get_rust_symbol(&rust_file.symbols, "super_function").is_some());
}

#[test]
fn module_without_inner_doc_comment() {
    let mut parser = setup_parser();
    let rust_file = parse_rust_file("\npub mod inner {\n    pub fn nested_function() -> String {}\n}\n", &mut parser).unwrap();
    let inner_module = match &rust_file.symbols[0] {
        RustSymbol::Module { name, content, .. } => {
            assert_eq!(name, "inner");
            content
        }
        _ => panic!("Expected Module variant"),
    };
    let symbol = get_rust_symbol(inner_module, "nested_function").unwrap();
    assert_eq!(symbol.name, "nested_function");
}

#[test]
fn mod_module_with_inner_doc_comment() {
    let source_code = "\npub mod inner {\n    //! This is the inner doc comment\n    //! It spans multiple lines\n\n    pub fn nested_function() -> String {}\n}\n";
    let mut parser = setup_parser();
    let rust_file = parse_rust_file(source_code, &mut parser).unwrap();
    let inner_module = match &rust_file.symbols[0] {
        RustSymbol::Module { name, content, doc_comment } => {
            assert_eq!(name, "inner");
            assert_eq!(
                doc_comment,
                &Some("//! This is the inner doc comment\n//! It spans multiple lines\n".to_string())
            );
            content
        }
        _ => panic!("Expected Module variant"),
    };
    let symbol = get_rust_symbol(inner_module, "nested_function").unwrap();
    assert_eq!(symbol.name, "nested_function");
}

#[test]
fn mod_public_modules() {
    let mut parser = setup_parser();
    let rust_file = parse_rust_file("\npub mod inner {\n    pub fn nested_function() -> String {}\n}\n", &mut parser).unwrap();
    let inner_content = get_inner_module("inner", &rust_file.symbols).unwrap();
    let symbol = get_rust_symbol(inner_content, "nested_function").unwrap();
    assert_eq!(symbol.name, "nested_function");
}

#[test]
fn mod_private_modules() {
    let mut parser = setup_parser();
    let rust_file = parse_rust_file("\nmod private {\n    pub fn private_function() -> String {}\n}\n", &mut parser).unwrap();
    assert!(rust_file.symbols.is_empty(), "Private modules should be ignored");
}

#[test]
fn mod_empty_modules() {
    let mut parser = setup_parser();
    let rust_file = parse_rust_file("\npub mod empty {}\n", &mut parser).unwrap();
    let empty_content = get_inner_module("empty", &rust_file.symbols).unwrap();
    assert_eq!(rust_file.symbols.len(), 1);
    assert!(empty_content.is_empty());
}

#[test]
fn mod_inner_module_symbols() {
    let source_code = "\npub mod inner {\n    pub struct InnerStruct {}\n\n    pub mod deeper {\n        pub enum DeeperEnum {\n            A, B\n        }\n    }\n}\n";
    let mut parser = setup_parser();
    let rust_file = parse_rust_file(source_code, &mut parser).unwrap();
    assert_eq!(rust_file.symbols.len(), 1);
    let inner_content = get_inner_module("inner", &rust_file.symbols).expect("Should find inner module");
    assert_eq!(inner_content.len(), 2);
    let inner_struct = get_rust_symbol(inner_content, "InnerStruct").expect("Should find InnerStruct");
    assert_eq!(inner_struct.name, "InnerStruct");
    let deeper_content = get_inner_module("deeper", inner_content).expect("Should find deeper module");
    assert_eq!(deeper_content.len(), 1);
    let deeper_enum = get_rust_symbol(deeper_content, "DeeperEnum").expect("Should find DeeperEnum");
    assert_eq!(deeper_enum.name, "DeeperEnum");
}

#[test]
fn mod_module_declarations() {
    let mut parser = setup_parser();
    let rust_file = parse_rust_file("\npub mod other;\n", &mut parser).unwrap();
    let symbol = match &rust_file.symbols[0] {
        RustSymbol::ModuleDeclaration { name, .. } => name,
        _ => panic!("Expected ModuleDeclaration variant"),
    };
    assert_eq!(symbol, "other");
}

#[test]
fn mod_single_item() {
    let mut parser = setup_parser();
    let rust_file = parse_rust_file("\npub use inner::Format;\n", &mut parser).unwrap();
    assert_eq!(rust_file.symbols.len(), 1);
    match &rust_file.symbols[0] {
        RustSymbol::SymbolReexport { name, source_path } => {
            assert_eq!(name, "Format");
            assert_eq!(source_path, "inner::Format");
        }
        _ => panic!("Expected SymbolReexport variant"),
    }
}

#[test]
fn use_tree_list() {
    let mut parser = setup_parser();
    let rust_file = parse_rust_file("\npub use inner::{TextFormatter, OtherType};\n", &mut parser).unwrap();
    assert_eq!(rust_file.symbols.len(), 2);
    let mut found_text_formatter = false;
    let mut found_other_type = false;
    for symbol in &rust_file.symbols {
        match symbol {
            RustSymbol::SymbolReexport { name, source_path } => match name.as_str() {
                "TextFormatter" => {
                    assert_eq!(source_path, "inner::TextFormatter");
                    found_text_formatter = true;
                }
                "OtherType" => {
                    assert_eq!(source_path, "inner::OtherType");
                    found_other_type = true;
                }
                _ => panic!("Unexpected symbol name"),
            },
            _ => panic!("Expected SymbolReexport variant"),
        }
    }
    assert!(found_text_formatter, "TextFormatter not found");
    assert!(found_other_type, "OtherType not found");
}

#[test]
fn mod_public_module() {
    let mut parser = setup_parser();
    let rust_file = parse_rust_file("\npub mod test_module;\n", &mut parser).unwrap();
    assert_eq!(rust_file.symbols.len(), 1);
    match &rust_file.symbols[0] {
        RustSymbol::ModuleDeclaration { name, is_public } => {
            assert_eq!(name, "test_module");
            assert!(is_public);
        }
        _ => panic!("Expected ModuleDeclaration variant"),
    }
}

#[test]
fn mod_private_module() {
    let mut parser = setup_parser();
    let rust_file = parse_rust_file("\nmod test_module;\n", &mut parser).unwrap();
    assert_eq!(rust_file.symbols.len(), 1);
    match &rust_file.symbols[0] {
        RustSymbol::ModuleDeclaration { name, is_public } => {
            assert_eq!(name, "test_module");
            assert!(!is_public);
        }
        _ => panic!("Expected ModuleDeclaration variant"),
    }
}

#[test]
fn file_without_docs() {
    let mut parser = setup_parser();
    let rust_file = parse_rust_file("\npub struct Test {}\n", &mut parser).unwrap();
    assert!(rust_file.doc_comment.is_none());
    let symbol = get_rust_symbol(&rust_file.symbols, "Test").unwrap();
    assert_eq!(symbol.source_code, "pub struct Test {}");
}

#[test]
fn file_with_docs() {
    let mut parser = setup_parser();
    let rust_file = parse_rust_file("\n//! File-level documentation\npub struct Test {}\n", &mut parser).unwrap();
    assert_eq!(rust_file.doc_comment, Some("//! File-level documentation\n".to_string()));
    let symbol = get_rust_symbol(&rust_file.symbols, "Test").unwrap();
    assert_eq!(symbol.source_code, "pub struct Test {}");
}

#[test]
fn symbol_with_outer_doc_comment() {
    let mut parser = setup_parser();
    let rust_file = parse_rust_file("\n/// Symbol documentation\npub struct Test {}\n", &mut parser).unwrap();
    assert!(rust_file.doc_comment.is_none());
    let symbol = get_rust_symbol(&rust_file.symbols, "Test").unwrap();
    assert_eq!(symbol.source_code, "/// Symbol documentation\npub struct Test {}");
}

#[test]
fn symbol_with_both_doc_comments() {
    let mut parser = setup_parser();
    let rust_file =
        parse_rust_file("\n//! File-level documentation\n/// Symbol documentation\npub struct Test {}\n", &mut parser).unwrap();
    assert_eq!(rust_file.doc_comment, Some("//! File-level documentation\n".to_string()));
    let symbol = get_rust_symbol(&rust_file.symbols, "Test").unwrap();
    assert_eq!(symbol.source_code, "/// Symbol documentation\npub struct Test {}");
}

#[test]
fn attributes_are_kept_one_per_line() {
    let mut parser = setup_parser();
    let rust_file =
        parse_rust_file("\n/// Doc\n#[derive(Debug)]\n#[non_exhaustive]\npub struct Test {}\n", &mut parser).unwrap();
    let symbol = get_rust_symbol(&rust_file.symbols, "Test").unwrap();
    assert_eq!(symbol.source_code, "/// Doc\n#[derive(Debug)]\n#[non_exhaustive]\npub struct Test {}");
}

#[test]
fn trait_is_reduced_to_method_signatures() {
    let mut parser = setup_parser();
    let source_code = "\npub trait Shape {\n    fn area(&self) -> f64 {\n        0.0\n    }\n}\n";
    let rust_file = parse_rust_file(source_code, &mut parser).unwrap();
    let symbol = get_rust_symbol(&rust_file.symbols, "Shape").unwrap();
    assert_eq!(symbol.source_code, "pub trait Shape  {\n    fn area(&self) -> f64;\n}");
}
