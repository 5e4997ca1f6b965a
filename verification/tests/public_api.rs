use laibrary::get_parser;
use laibrary::languages::rust::analyser::RustAnalyser;
use laibrary::languages::rust::extraction::determine_module_path;
use laibrary::languages::rust::public_api::build_public_api;
use laibrary::LaibraryError;

const STUB_CRATE_NAME: &str = "test_crate";

fn setup_parser() -> tree_sitter::Parser {
    get_parser(&RustAnalyser::new().get_parser_language()).unwrap()
}

#[test]
fn nonexistent_file() {
    let mut parser = setup_parser();
    let content: Result<String, String> = Err("No such file or directory (os error 2)".to_string());

    let err = build_public_api("nonexistent.rs", STUB_CRATE_NAME, &content, &mut parser).unwrap_err();

    match err {
        LaibraryError::Parse(m) => assert!(m.contains("Failed to read file 'nonexistent.rs'")),
        _ => panic!("expected a parse error"),
    }
}

#[test]
fn api_lib_rs_has_no_module_path() {
    let mod_path = determine_module_path("/tmp/crate/src/lib.rs").unwrap();

    assert!(mod_path.is_none());
}

#[test]
fn api_direct_module_file_has_single_segment_path() {
    let mod_path = determine_module_path("/tmp/crate/src/text.rs").unwrap();

    assert_eq!(mod_path.unwrap(), "text".to_string());
}

#[test]
fn api_mod_rs_has_directory_name_path() {
    let mod_path = determine_module_path("/tmp/crate/src/text/mod.rs").unwrap();

    assert_eq!(mod_path.unwrap(), "text".to_string());
}

#[test]
fn api_nested_module_has_multi_segment_path() {
    let mod_path = determine_module_path("/tmp/crate/src/text/formatter.rs").unwrap();

    assert_eq!(mod_path.unwrap(), "text::formatter".to_string());
}

#[test]
fn extract_modules_handles_nested_structure() {
    let source_code = "\npub fn root_fn() {}\n\npub mod submod {\n    pub fn nested_fn() {}\n}\n";
    let mut parser = setup_parser();
    let content: Result<String, String> = Ok(source_code.to_string());

    let namespaces = build_public_api("/tmp/crate/src/lib.rs", STUB_CRATE_NAME, &content, &mut parser).unwrap();

    assert_eq!(namespaces.len(), 2);

    let root = namespaces.iter().find(|n| n.name == STUB_CRATE_NAME).unwrap();
    assert_eq!(root.symbols.len(), 1);
    assert_eq!(root.symbols[0].name, "root_fn");

    let submod = namespaces.iter().find(|n| n.name == format!("{}::submod", STUB_CRATE_NAME)).unwrap();
    assert_eq!(submod.symbols.len(), 1);
    assert_eq!(submod.symbols[0].name, "nested_fn");
}

#[test]
fn build_public_api_prefixes_module_files() {
    let mut parser = setup_parser();
    let content: Result<String, String> = Ok("pub struct Formatter;\n".to_string());

    let namespaces = build_public_api("/tmp/crate/src/text/formatter.rs", "demo", &content, &mut parser).unwrap();

    assert_eq!(namespaces.len(), 1);
    assert_eq!(namespaces[0].name, "demo::text::formatter");
    assert_eq!(namespaces[0].symbols[0].source_code, "pub struct Formatter;");
}

#[test]
fn build_public_api_rejects_path_without_file_name() {
    let mut parser = setup_parser();
    let content: Result<String, String> = Ok(String::new());

    match build_public_api("/", "demo", &content, &mut parser) {
        Err(LaibraryError::Parse(m)) => assert_eq!(m, "Invalid file name"),
        _ => panic!("expected an invalid file name"),
    }
}

#[test]
fn determine_module_path_of_file_outside_src() {
    assert_eq!(determine_module_path("main.rs").unwrap(), Some("main".to_string()));
    assert!(matches!(determine_module_path(".."), Err(LaibraryError::Parse(_))));
}
