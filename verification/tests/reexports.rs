use laibrary::get_parser;
use laibrary::languages::rust::analyser::RustAnalyser;
use laibrary::languages::rust::api::parsing::reexports::extract_reexports;
use laibrary::languages::rust::api::parsing::symbol_reexports::extract_symbol_reexports;
use laibrary::languages::rust::api::types::RustSymbol;
use laibrary::syntax::{parse_source_tree, SourceTree};
use laibrary::LaibraryError;

fn make_tree(source_code: &str) -> SourceTree {
    let mut parser = get_parser(&RustAnalyser::new().get_parser_language()).unwrap();
    parse_source_tree(&mut parser, source_code).unwrap()
}

fn find_child_position(tree: &SourceTree, kind: &str) -> usize {
    tree.root.children.iter().position(|c| c.kind == kind).unwrap()
}

fn source_path_of<'a>(name: &str, symbols: &'a [RustSymbol]) -> &'a str {
    symbols
        .iter()
        .find_map(|s| match s {
            RustSymbol::SymbolReexport { name: n, source_path } if n == name => Some(source_path.as_str()),
            _ => None,
        })
        .expect("Symbol not found")
}

#[test]
fn reexports_private_module() {
    let source_code = "\nuse inner::Format;\n";
    let tree = make_tree(source_code);
    let node = &tree.root.children[find_child_position(&tree, "use_declaration")];
    let symbols = extract_reexports(node, source_code).unwrap();
    assert!(symbols.is_empty());
}

#[test]
fn reexports_single_item() {
    let source_code = "\npub use inner::Format;\n";
    let tree = make_tree(source_code);
    let symbols = extract_reexports(&tree.root.children[0], source_code).unwrap();
    assert_eq!(source_path_of("Format", &symbols), "inner::Format");
}

#[test]
fn multiple_items() {
    let source_code = "\npub use inner::{TextFormatter, OtherType};\n";
    let tree = make_tree(source_code);
    let symbols = extract_reexports(&tree.root.children[0], source_code).unwrap();
    assert_eq!(source_path_of("TextFormatter", &symbols), "inner::TextFormatter");
    assert_eq!(source_path_of("OtherType", &symbols), "inner::OtherType");
}

#[test]
fn non_import() {
    let source_code = "\npub enum Format {}\n";
    let tree = make_tree(source_code);
    let node = &tree.root.children[find_child_position(&tree, "enum_item")];
    let result = extract_symbol_reexports(node, source_code);
    assert!(matches!(result.unwrap_err(), LaibraryError::Parse(msg) if msg == "Failed to find symbol reexport"));
}

#[test]
fn import_without_reexport() {
    let source_code = "\nuse inner::Format;\n";
    let tree = make_tree(source_code);
    let node = &tree.root.children[find_child_position(&tree, "use_declaration")];
    let symbols = extract_symbol_reexports(node, source_code).unwrap();
    assert!(symbols.is_empty());
}

#[test]
fn single_reexport() {
    let source_code = "\npub use inner::Format;\n";
    let tree = make_tree(source_code);
    let node = &tree.root.children[find_child_position(&tree, "use_declaration")];
    let symbols = extract_symbol_reexports(node, source_code).unwrap();
    assert_eq!(source_path_of("Format", &symbols), "inner::Format");
}

#[test]
fn multiple_reexports() {
    let source_code = "\npub use inner::{TextFormatter, OtherType};\n";
    let tree = make_tree(source_code);
    let node = &tree.root.children[find_child_position(&tree, "use_declaration")];
    let symbols = extract_symbol_reexports(node, source_code).unwrap();
    assert_eq!(source_path_of("TextFormatter", &symbols), "inner::TextFormatter");
    assert_eq!(source_path_of("OtherType", &symbols), "inner::OtherType");
}

#[test]
fn deep_path_reexport_keeps_the_whole_path() {
    let source_code = "\npub use crate::text::formatter::Format;\n";
    let tree = make_tree(source_code);
    let symbols = extract_reexports(&tree.root.children[0], source_code).unwrap();
    assert_eq!(symbols.len(), 1);
    assert_eq!(source_path_of("Format", &symbols), "crate::text::formatter::Format");
}
