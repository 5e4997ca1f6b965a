use laibrary::parser::rust_parser::RustParser;
use laibrary::parser::{LibraryFiles, LibraryParser, ListingError};
use laibrary::LaibraryError;

const MANIFEST: &str = "\n[package]\nname = \"test-crate\"\nversion = \"0.1.0\"\n";
const PLAIN_MANIFEST: &str = "[package]\nname = \"test-crate\"\nversion = \"0.1.0\"\n";
const LIB_RS: &str = "pub struct TestStruct {\n    field: String,\n}\n\npub fn test_function() {}";

fn source(path: &str, content: &str) -> (String, Result<String, String>) {
    (path.to_string(), Ok(content.to_string()))
}

fn test_crate() -> LibraryFiles {
    LibraryFiles {
        cargo_toml: Ok(MANIFEST.to_string()),
        readme: Some("Test crate".to_string()),
        sources: Ok(vec![source("/tmp/test-crate/src/lib.rs", LIB_RS)]),
    }
}

fn crate_with_lib(lib_rs: &str) -> LibraryFiles {
    LibraryFiles {
        cargo_toml: Ok(PLAIN_MANIFEST.to_string()),
        readme: None,
        sources: Ok(vec![source("/tmp/test-crate/src/lib.rs", lib_rs)]),
    }
}

#[test]
fn test_parse_valid_crate() {
    let parser = RustParser;
    let result = parser.parse(&test_crate());
    assert!(result.is_ok());

    let info = result.unwrap();
    assert_eq!(info.name, "test-crate");
    assert_eq!(info.version, "0.1.0");
    assert!(info.api.contains("pub struct TestStruct"));
    assert!(info.api.contains("pub fn test_function"));
}

#[test]
fn rust_parser_test_missing_cargo_toml() {
    let files = LibraryFiles {
        cargo_toml: Err("No such file or directory (os error 2)".to_string()),
        readme: None,
        sources: Err(ListingError::MissingDirectory("/tmp/empty/src".to_string())),
    };
    let result = RustParser.parse(&files);
    assert!(matches!(result, Err(LaibraryError::Parse(_))));
}

#[test]
fn rust_parser_test_invalid_cargo_toml() {
    let files = LibraryFiles {
        cargo_toml: Ok("invalid toml content".to_string()),
        readme: None,
        sources: Err(ListingError::MissingDirectory("/tmp/empty/src".to_string())),
    };
    let result = RustParser.parse(&files);
    assert!(matches!(result, Err(LaibraryError::Parse(_))));
}

#[test]
fn rust_parser_test_missing_package_section() {
    let files = LibraryFiles {
        cargo_toml: Ok("[dependencies]\nfoo = \"1.0\"".to_string()),
        readme: None,
        sources: Err(ListingError::MissingDirectory("/tmp/empty/src".to_string())),
    };
    let result = RustParser.parse(&files);
    assert!(matches!(result, Err(LaibraryError::Parse(_))));
}

#[test]
fn rust_parser_test_missing_readme() {
    let mut files = test_crate();
    files.readme = None;
    let result = RustParser.parse(&files);
    assert!(result.is_ok());
    assert_eq!(result.unwrap().documentation, "");
}

#[test]
fn rust_parser_test_invalid_utf8_in_source() {
    let mut files = test_crate();
    if let Ok(sources) = &mut files.sources {
        sources.push(source(
            "/tmp/test-crate/src/invalid.rs",
            "pub fn test() -> String {\n    let bytes = b\"\\xFF\\xFF\";\n    String::from_utf8_lossy(bytes).to_string()\n}\n",
        ));
    }
    let result = RustParser.parse(&files);
    assert!(result.is_ok());
}

#[test]
fn rust_parser_test_missing_src_directory() {
    let files = LibraryFiles {
        cargo_toml: Ok(PLAIN_MANIFEST.to_string()),
        readme: None,
        sources: Err(ListingError::MissingDirectory("/tmp/test-crate/src".to_string())),
    };
    let result = RustParser.parse(&files);
    assert!(matches!(result, Err(LaibraryError::Parse(_))));
}

#[test]
fn rust_parser_test_empty_source_file() {
    let mut files = test_crate();
    if let Ok(sources) = &mut files.sources {
        sources.push(source("/tmp/test-crate/src/empty.rs", ""));
    }
    let result = RustParser.parse(&files);
    assert!(result.is_ok());
}

#[test]
fn test_function_signature_only() {
    let result = RustParser.parse(&crate_with_lib("\npub fn test_function(input: &str) -> String {\n    input.to_uppercase()\n}\n"));
    assert!(result.is_ok());

    let info = result.unwrap();
    assert!(info.api.contains("pub fn test_function(input: &str) -> String;"));
    assert!(!info.api.contains("input.to_uppercase()"));
}

#[test]
fn test_complex_function_signature() {
    let result = RustParser.parse(&crate_with_lib(
        "\npub fn complex_function(x: i32, y: &str, z: Option<Vec<String>>) -> Result<String, Box<dyn std::error::Error>> {\n    Ok(format!(\"{}{:?}\", y, z))\n}\n",
    ));
    assert!(result.is_ok());

    let info = result.unwrap();
    assert!(info.api.contains(
        "pub fn complex_function(x: i32, y: &str, z: Option<Vec<String>>) -> Result<String, Box<dyn std::error::Error>>;"
    ));
    assert!(!info.api.contains("Ok(format!"));
}

#[test]
fn test_where_clause_formatting() {
    let result = RustParser
        .parse(&crate_with_lib(
            "\npub fn generic_function<T>(data: T) -> Vec<String> where\n    T: AsRef<str> {\n    vec![data.as_ref().to_string()]\n}\n",
        ))
        .unwrap();
    assert!(result.api.contains("pub fn generic_function<T>(data: T) -> Vec<String> where\n    T: AsRef<str>;"));
}

#[test]
fn test_no_trailing_comma() {
    let result = RustParser
        .parse(&crate_with_lib(
            "\npub fn stream_function<'a, I>(iter: I) -> Vec<String> where\n    I: Iterator<Item = &'a str>, {\n    vec![]\n}\n",
        ))
        .unwrap();
    assert!(result.api.contains("pub fn stream_function<'a, I>(iter: I) -> Vec<String> where\n    I: Iterator<Item = &'a str>;"));
}

fn parse_message(files: &LibraryFiles) -> String {
    match RustParser.parse(files) {
        Err(LaibraryError::Parse(m)) => m,
        _ => panic!("expected a parse error"),
    }
}

#[test]
fn rust_parser_reports_each_failure() {
    let mut files = test_crate();
    files.sources = Err(ListingError::MissingDirectory("/tmp/test-crate/src".to_string()));
    assert_eq!(parse_message(&files), "Directory does not exist: /tmp/test-crate/src");

    files.sources = Err(ListingError::UnreadableDirectory("denied".to_string()));
    assert_eq!(parse_message(&files), "Failed to read directory: denied");

    files.sources = Err(ListingError::UnreadableEntry("gone".to_string()));
    assert_eq!(parse_message(&files), "Failed to read directory entry: gone");

    files.sources = Ok(vec![("/tmp/test-crate/src/lib.rs".to_string(), Err("bad bytes".to_string()))]);
    assert_eq!(parse_message(&files), "Failed to read source file: bad bytes");

    files.cargo_toml = Err("missing".to_string());
    assert_eq!(parse_message(&files), "Failed to read Cargo.toml: missing");
}

#[test]
fn rust_parser_skips_blank_files_and_keeps_listing_order() {
    let files = LibraryFiles {
        cargo_toml: Ok(PLAIN_MANIFEST.to_string()),
        readme: Some("docs".to_string()),
        sources: Ok(vec![
            source("/c/src/b.rs", "pub fn second() {}\n"),
            source("/c/src/blank.rs", "  \n\t\n"),
            source("/c/src/a.rs", "pub fn first() {}\n"),
        ]),
    };
    let info = RustParser.parse(&files).unwrap();
    assert_eq!(info.documentation, "docs");
    let second = info.api.find("second").unwrap();
    let first = info.api.find("first").unwrap();
    assert!(second < first);
}
