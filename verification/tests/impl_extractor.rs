use laibrary::languages::rust::impl_extractor::determine_module_path;

#[test]
fn test_determine_module_path() {
    assert_eq!(determine_module_path("src/lib.rs").unwrap(), None);
    assert_eq!(determine_module_path("src/text.rs").unwrap(), Some("rust_crate::text".to_string()));
    assert_eq!(determine_module_path("src/text/mod.rs").unwrap(), Some("rust_crate::text".to_string()));
    assert_eq!(
        determine_module_path("src/text/formatter.rs").unwrap(),
        Some("rust_crate::text::formatter".to_string())
    );
}

use laibrary::languages::rust::impl_extractor::extract_public_api;
use laibrary::languages::rust::RustApi;
use laibrary::types::SourceCode;

fn source_file(path: &str, content: &str) -> SourceCode {
    SourceCode { path: path.to_string(), content: content.to_string() }
}

fn module_items(api: &RustApi, path: &str) -> Option<Vec<String>> {
    api.modules
        .iter()
        .find(|(name, _)| name == path)
        .map(|(_, members)| members.iter().map(|m| m.to_string()).collect())
}

fn contains_module(api: &RustApi, path: &str) -> bool {
    api.modules.iter().any(|(name, _)| name == path)
}

#[test]
fn test_extract_nested_modules() {
    let source = source_file(
        "src/text/mod.rs",
        "\npub mod inner {\n    pub fn nested_function() -> String {}\n}\npub fn outer_function() -> i32 {}\n",
    );

    let result = extract_public_api(&[source]).unwrap();

    assert!(contains_module(&result, "rust_crate::text"));
    assert!(contains_module(&result, "rust_crate::text::inner"));
    assert_eq!(module_items(&result, "rust_crate::text").unwrap(), vec!["pub fn outer_function() -> i32;"]);
    assert_eq!(
        module_items(&result, "rust_crate::text::inner").unwrap(),
        vec!["pub fn nested_function() -> String;"]
    );
}

#[test]
fn test_extract_mixed_items() {
    let source = source_file(
        "src/text/mod.rs",
        "\npub struct TestStruct {\n    pub field: String,\n}\npub enum TestEnum {\n    A,\n    B(i32),\n}\npub fn test_function() -> i32 {}\npub trait TestTrait {\n    fn method(&self);\n}\n",
    );

    let result = extract_public_api(&[source]).unwrap();

    let test_module_items = module_items(&result, "rust_crate::text").unwrap();
    assert_eq!(test_module_items.len(), 4);
    assert!(test_module_items.iter().any(|item| item.contains("pub struct TestStruct")));
    assert!(test_module_items.iter().any(|item| item.contains("pub enum TestEnum")));
    assert!(test_module_items.iter().any(|item| item.contains("pub fn test_function() -> i32;")));
    assert!(test_module_items.iter().any(|item| item.contains("pub trait TestTrait")));
}

#[test]
fn test_private_items_ignored() {
    let source = source_file(
        "src/text/mod.rs",
        "\nstruct PrivateStruct {}\nfn private_function() {}\npub fn public_function() -> () {}\n",
    );

    let result = extract_public_api(&[source]).unwrap();

    let test_module_items = module_items(&result, "rust_crate::text").unwrap();
    assert_eq!(test_module_items.len(), 1);
    assert_eq!(test_module_items[0], "pub fn public_function() -> ();");
}

#[test]
fn test_empty_source() {
    let source = source_file("src/empty.rs", "");

    let result = extract_public_api(&[source]).unwrap();
    assert!(result.modules.is_empty());
}

#[test]
fn test_lib_items_ignored() {
    let source = source_file(
        "src/lib.rs",
        "\npub fn root_function() -> () {}\npub struct RootStruct {}\n\npub mod text {\n    pub fn text_function() -> () {}\n}\n",
    );

    let result = extract_public_api(&[source]).unwrap();

    assert!(!contains_module(&result, "rust_crate"));
    let text_module = module_items(&result, "rust_crate::text").unwrap();
    assert_eq!(text_module.len(), 1);
    assert_eq!(text_module[0], "pub fn text_function() -> ();");
}

#[test]
fn later_file_replaces_items_of_same_module() {
    let first = source_file("src/text.rs", "pub fn first() {}\n");
    let second = source_file("src/text/mod.rs", "pub fn second() {}\n");

    let result = extract_public_api(&[first, second]).unwrap();

    assert_eq!(result.modules.len(), 1);
    assert_eq!(module_items(&result, "rust_crate::text").unwrap(), vec!["pub fn second() -> ();"]);
}

#[test]
fn invalid_file_name_is_refused() {
    let source = source_file("..", "pub fn f() {}\n");
    assert!(extract_public_api(&[source]).is_err());
}

#[test]
fn extract_public_api_parses_each_file() {
    let first = source_file("src/a.rs", "pub fn a() {}\n");
    let second = source_file("src/b/mod.rs", "pub struct B;\n");
    let result = extract_public_api(&[first, second]).unwrap();
    assert_eq!(module_items(&result, "rust_crate::a").unwrap(), vec!["pub fn a() -> ();"]);
    let b = module_items(&result, "rust_crate::b").unwrap();
    assert_eq!(b.len(), 1);
    assert!(b[0].contains("pub struct B"));
}
