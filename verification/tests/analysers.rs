use laibrary::analysers::get_analyser as get_library_analyser;
use laibrary::languages::get_analyser;
use laibrary::parser::get_parser as get_library_parser;
use laibrary::LaibraryError;

#[test]
fn test_get_analyser_unsupported() {
    let result = get_analyser("unsupported");
    assert!(matches!(result, Err(LaibraryError::UnsupportedLanguage(_))));
}

#[test]
fn rust_analysers_and_parser_are_found() {
    assert!(get_analyser("rust").is_ok());
    assert!(get_library_analyser("rust").is_ok());
    assert!(get_library_parser("rust").is_ok());
}

#[test]
fn unsupported_language_is_named_in_the_error() {
    assert!(matches!(get_library_analyser("go"), Err(LaibraryError::UnsupportedLanguage(l)) if l == "go"));
    assert!(matches!(get_library_parser("python"), Err(LaibraryError::UnsupportedLanguage(l)) if l == "python"));
}

use laibrary::analysers::Analyser;
use laibrary::get_parser;
use laibrary::languages::rust::analyser::RustAnalyser;
use laibrary::types::PackageMetadata;

#[test]
fn test_get_analyser_rust() {
    let analyser = get_analyser("rust").unwrap();
    assert_eq!(
        format!("{:?}", analyser.get_parser_language()),
        format!("{:?}", RustAnalyser.get_parser_language())
    );
}

#[test]
fn get_parser_valid() {
    let language = RustAnalyser::new().get_parser_language();

    let result = get_parser(&language);

    assert!(result.is_ok());
}

#[test]
fn get_package_metadata() {
    let manifest: Result<String, String> = Ok("[package]\nname = \"test_crate\"\nversion = \"0.1.0\"\n".to_string());

    let analyser = RustAnalyser::new();
    let metadata = Analyser::get_package_metadata(&analyser, "/tmp/test_crate", &manifest, String::new()).unwrap();

    assert_eq!(metadata.name, "test_crate");
    assert_eq!(metadata.entry_point, "/tmp/test_crate/src/lib.rs");
}

#[test]
fn extract_public_api() {
    let lib_rs = "/tmp/test_crate/src/lib.rs".to_string();
    let content: Result<String, String> = Ok("\npub fn test_function() -> i32 {\n    42\n}\n".to_string());

    let analyser = RustAnalyser::new();
    let metadata = PackageMetadata {
        name: "test_crate".to_string(),
        version: "0.1.0".to_string(),
        documentation: String::new(),
        entry_point: lib_rs,
    };
    let mut parser = get_parser(&analyser.get_parser_language()).unwrap();

    let namespaces = Analyser::extract_public_api(&analyser, &metadata, &content, &mut parser).unwrap();

    assert_eq!(namespaces.len(), 1);
    let root = namespaces.iter().find(|n| n.name == "test_crate").unwrap();
    assert_eq!(root.symbols.len(), 1);
    assert_eq!(root.symbols[0].name, "test_function");
}
