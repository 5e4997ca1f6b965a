use laibrary::get_parser;
use laibrary::languages::rust::analyser::RustAnalyser;
use laibrary::languages::rust::extraction::{extract_modules, Namespace, SourceFile, Symbol};
use laibrary::syntax::parse_source_tree;

fn create_source_file(path: &str, content: &str) -> SourceFile {
    let mut parser = get_parser(&RustAnalyser::new().get_parser_language()).unwrap();
    let tree = parse_source_tree(&mut parser, content).expect("Failed to parse test source file");
    SourceFile {
        path: path.to_string(),
        content: content.to_string(),
        tree: tree.root,
    }
}

fn get_namespace<'a>(modules: &'a [Namespace], name: &str) -> Option<&'a Namespace> {
    modules.iter().find(|m| m.name == name)
}

fn extract_symbol(source_code: &str, symbol_name: &str) -> Symbol {
    let source = create_source_file("src/lib.rs", source_code);
    let sources = vec![source];
    let modules = extract_modules(&sources).unwrap();
    let root_module = get_namespace(&modules, "").unwrap();
    root_module.get_symbol(symbol_name).unwrap().clone()
}

fn extract_modules_from_source(path: &str, content: &str) -> Vec<Namespace> {
    let source = create_source_file(path, content);
    let sources = vec![source];
    extract_modules(&sources).unwrap()
}

#[test]
fn extraction_empty_source_file() {
    let modules = extract_modules_from_source("src/empty.rs", "");
    assert_eq!(modules.len(), 1);
    assert_eq!(modules[0].name, "empty");
    assert!(modules[0].symbols.is_empty());
}

#[test]
fn extraction_no_doc_comments() {
    let symbol = extract_symbol("\npub struct Test {}\n", "Test");
    assert_eq!(symbol.doc_comment, None);
}

#[test]
fn extraction_single_line() {
    let symbol = extract_symbol("\n/// A documented item\npub struct Test {}\n", "Test");
    assert_eq!(symbol.doc_comment.as_deref(), Some("A documented item"));
}

#[test]
fn extraction_multiple_line() {
    let symbol = extract_symbol("\n/// First line\n/// Second line\npub struct Test {}\n", "Test");
    assert_eq!(symbol.doc_comment.as_deref(), Some("First line\nSecond line"));
}

#[test]
fn extraction_inner_doc_comments() {
    let symbol = extract_symbol("\n/// Outer doc\n//! Inner doc\npub struct Test {}\n", "Test");
    assert_eq!(symbol.doc_comment, None);
}

#[test]
fn extraction_regular_comments() {
    let symbol = extract_symbol("\n/// Doc comment\n// Regular comment\npub struct Test {}\n", "Test");
    assert_eq!(symbol.doc_comment, None);
}

#[test]
fn extraction_block_doc_comments() {
    let source_code = r#"
/** A block doc comment
 * with multiple lines
 * and some indentation
 */
pub struct Test {}
"#;
    let symbol = extract_symbol(source_code, "Test");
    assert_eq!(
        symbol.doc_comment.as_deref(),
        Some("A block doc comment\nwith multiple lines\nand some indentation")
    );
}

#[test]
fn extraction_file_level_doc_comments() {
    let source_code = r#"
//! File-level documentation
//! More file-level docs

/// This is the struct's doc
pub struct Test {}
"#;
    let symbol = extract_symbol(source_code, "Test");
    assert_eq!(symbol.doc_comment.as_deref(), Some("This is the struct's doc"));
}

#[test]
fn extraction_preceding_symbol() {
    let source_code = r#"
/// First struct's doc
pub struct FirstStruct {}

/// Second struct's doc
pub struct SecondStruct {}
"#;
    let symbol = extract_symbol(source_code, "SecondStruct");
    assert_eq!(symbol.doc_comment.as_deref(), Some("Second struct's doc"));
}

#[test]
fn extraction_block_comment_preceded_by_line_comment() {
    let source_code = r#"
/// This line should be ignored
/** This block comment
 * should be returned
 */
pub struct Test {}
"#;
    let symbol = extract_symbol(source_code, "Test");
    assert_eq!(
        symbol.doc_comment.as_deref(),
        Some("This block comment\nshould be returned")
    );
}

#[test]
fn extraction_lib_rs_has_no_module_path() {
    let modules = extract_modules_from_source("src/lib.rs", "");
    assert_eq!(modules.len(), 1);
    assert_eq!(modules[0].name, "");
}

#[test]
fn extraction_direct_module_file_has_single_segment_path() {
    let modules = extract_modules_from_source("src/text.rs", "");
    assert_eq!(modules.len(), 1);
    assert_eq!(modules[0].name, "text");
}

#[test]
fn extraction_mod_rs_has_directory_name_path() {
    let modules = extract_modules_from_source("src/text/mod.rs", "");
    assert_eq!(modules.len(), 1);
    assert_eq!(modules[0].name, "text");
}

#[test]
fn extraction_nested_module_has_multi_segment_path() {
    let modules = extract_modules_from_source("src/text/formatter.rs", "");
    assert_eq!(modules.len(), 1);
    assert_eq!(modules[0].name, "text::formatter");
}

#[test]
fn function_without_doc_comment() {
    let source_code = "\npub fn test_function() -> i32 {\n    42\n}\n";
    let symbol = extract_symbol(source_code, "test_function");
    assert_eq!(symbol.name, "test_function");
    assert_eq!(symbol.source_code.trim(), "pub fn test_function() -> i32 {\n    42\n}");
    assert_eq!(symbol.doc_comment, None);
}

#[test]
fn extraction_function_with_doc_comment() {
    let source_code = r#"
/// This is a documented function
/// that returns the meaning of life
pub fn test_function() -> i32 {
    42
}
"#;
    let symbol = extract_symbol(source_code, "test_function");
    assert_eq!(symbol.name, "test_function");
    assert_eq!(
        symbol.doc_comment.as_deref(),
        Some("This is a documented function\nthat returns the meaning of life")
    );
}

#[test]
fn struct_without_doc_comment() {
    let source_code = "\npub struct TestStruct {\n    field: i32\n}\n";
    let symbol = extract_symbol(source_code, "TestStruct");
    assert_eq!(symbol.name, "TestStruct");
    assert_eq!(symbol.source_code.trim(), "pub struct TestStruct {\n    field: i32\n}");
    assert_eq!(symbol.doc_comment, None);
}

#[test]
fn extraction_struct_with_doc_comment() {
    let source_code = "\n/// A test struct\n/// with documentation\npub struct TestStruct {\n    field: i32\n}\n";
    let symbol = extract_symbol(source_code, "TestStruct");
    assert_eq!(symbol.name, "TestStruct");
    assert_eq!(symbol.doc_comment.as_deref(), Some("A test struct\nwith documentation"));
}

#[test]
fn enum_without_doc_comment() {
    let source_code = "\npub enum TestEnum {\n    A,\n    B\n}\n";
    let symbol = extract_symbol(source_code, "TestEnum");
    assert_eq!(symbol.name, "TestEnum");
    assert_eq!(symbol.source_code.trim(), "pub enum TestEnum {\n    A,\n    B\n}");
    assert_eq!(symbol.doc_comment, None);
}

#[test]
fn extraction_enum_with_doc_comment() {
    let source_code = "\n/// A test enum\n/// with variants\npub enum TestEnum {\n    A,\n    B\n}\n";
    let symbol = extract_symbol(source_code, "TestEnum");
    assert_eq!(symbol.name, "TestEnum");
    assert_eq!(symbol.doc_comment.as_deref(), Some("A test enum\nwith variants"));
}

#[test]
fn trait_without_doc_comment() {
    let source_code = "\npub trait TestTrait {\n    fn test_method(&self);\n}\n";
    let symbol = extract_symbol(source_code, "TestTrait");
    assert_eq!(symbol.name, "TestTrait");
    assert_eq!(symbol.source_code.trim(), "pub trait TestTrait {\n    fn test_method(&self);\n}");
    assert_eq!(symbol.doc_comment, None);
}

#[test]
fn extraction_trait_with_doc_comment() {
    let source_code = "\n/// A test trait\n/// with a method\npub trait TestTrait {\n    fn test_method(&self);\n}\n";
    let symbol = extract_symbol(source_code, "TestTrait");
    assert_eq!(symbol.name, "TestTrait");
    assert_eq!(symbol.doc_comment.as_deref(), Some("A test trait\nwith a method"));
}

#[test]
fn nested_modules_are_extracted() {
    let source_code = r#"
pub mod inner {
    pub fn nested_function() -> String {}
}
pub fn outer_function() -> i32 {}
"#;
    let modules = extract_modules_from_source("src/text/mod.rs", source_code);
    let text_module = modules.iter().find(|m| m.name == "text").unwrap();
    let inner_module = modules.iter().find(|m| m.name == "text::inner").unwrap();
    assert_eq!(text_module.symbols.len(), 1);
    assert_eq!(text_module.symbols[0].name, "outer_function");
    assert_eq!(inner_module.symbols.len(), 1);
    assert_eq!(inner_module.symbols[0].name, "nested_function");
}

#[test]
fn private_modules_are_ignored() {
    let source_code = r#"
mod private {
    pub fn private_function() -> String {}
}
pub fn public_function() -> i32 {}
"#;
    let modules = extract_modules_from_source("src/text/mod.rs", source_code);
    assert_eq!(modules.len(), 1);
    let text_module = modules.iter().find(|m| m.name == "text").unwrap();
    assert_eq!(text_module.symbols.len(), 1);
    assert_eq!(text_module.symbols[0].name, "public_function");
}

#[test]
fn empty_modules_are_included() {
    let modules = extract_modules_from_source("src/text/mod.rs", "\npub mod empty {}\n");
    assert_eq!(modules.len(), 2);
    let text_module = modules.iter().find(|m| m.name == "text").unwrap();
    let empty_module = modules.iter().find(|m| m.name == "text::empty").unwrap();
    assert!(text_module.symbols.is_empty());
    assert!(empty_module.symbols.is_empty());
}

#[test]
fn nested_module_symbols_are_extracted() {
    let source_code = r#"
pub mod inner {
    pub struct InnerStruct {}
    pub fn inner_function() {}

    pub mod deeper {
        pub enum DeeperEnum {
            A, B
        }
    }
}
"#;
    let modules = extract_modules_from_source("src/text/mod.rs", source_code);
    let inner_module = modules
        .iter()
        .find(|m| m.name == "text::inner")
        .expect("inner module should exist");
    let deeper_module = modules
        .iter()
        .find(|m| m.name == "text::inner::deeper")
        .expect("deeper module should exist");
    assert_eq!(inner_module.symbols.len(), 2);
    assert!(inner_module.symbols.iter().any(|s| s.name == "InnerStruct"));
    assert!(inner_module.symbols.iter().any(|s| s.name == "inner_function"));
    assert_eq!(deeper_module.symbols.len(), 1);
    assert!(deeper_module.symbols.iter().any(|s| s.name == "DeeperEnum"));
}

#[test]
fn module_declarations_are_added_as_symbols() {
    let source_code = r#"
pub mod other;  // This should be added as a symbol
pub mod inner {  // This should be processed as a module
    pub fn inner_function() {}
}
"#;
    let modules = extract_modules_from_source("src/text/mod.rs", source_code);
    assert_eq!(modules.len(), 2);
    let text_module = modules.iter().find(|m| m.name == "text").unwrap();
    let inner_module = modules.iter().find(|m| m.name == "text::inner").unwrap();
    assert_eq!(text_module.symbols.len(), 1);
    assert_eq!(text_module.symbols[0].name, "other");
    assert_eq!(inner_module.symbols.len(), 1);
    assert_eq!(inner_module.symbols[0].name, "inner_function");
}

#[test]
fn private_items_are_ignored() {
    let source_code = r#"
struct PrivateStruct {}
fn private_function() {}
pub fn public_function() -> () {}
"#;
    let modules = extract_modules_from_source("src/text/mod.rs", source_code);
    let module = modules.iter().find(|m| m.name == "text").unwrap();
    assert_eq!(module.symbols.len(), 1);
    assert_eq!(module.symbols[0].name, "public_function");
}

#[test]
fn lib_items_are_processed() {
    let source_code = r#"
pub fn root_function() -> () {}
pub struct RootStruct {}

pub mod text {
    pub fn text_function() -> () {}
}
"#;
    let modules = extract_modules_from_source("src/lib.rs", source_code);
    let root_module = modules.iter().find(|m| m.name.is_empty()).unwrap();
    let text_module = modules.iter().find(|m| m.name == "text").unwrap();
    assert_eq!(root_module.symbols.len(), 2);
    assert!(root_module.symbols.iter().any(|s| s.name == "root_function"));
    assert!(root_module.symbols.iter().any(|s| s.name == "RootStruct"));
    assert_eq!(text_module.symbols.len(), 1);
    assert_eq!(text_module.symbols[0].name, "text_function");
}
