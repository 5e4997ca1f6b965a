use laibrary::analysers::rust::impl_parser::parse_source;
use laibrary::parser::ListingError;
use laibrary::LaibraryError;

fn source(path: &str, content: &str) -> (String, Result<String, String>) {
    (path.to_string(), Ok(content.to_string()))
}

fn test_source() -> Vec<(String, Result<String, String>)> {
    vec![
        source("/tmp/crate/src/lib.rs", "\npub struct TestStruct {\n    field: String,\n}\n\npub fn test_function() {}\n"),
        source("/tmp/crate/src/nested/mod.rs", "\npub fn nested_function() {}\n"),
    ]
}

#[test]
fn test_parse_source_valid_crate() {
    let result = parse_source(&Ok(test_source()));
    assert!(result.is_ok());

    let sources = result.unwrap();
    assert_eq!(sources.len(), 2);
    assert!(sources.iter().any(|s| s.path.ends_with("lib.rs")));
    assert!(sources.iter().any(|s| s.path.ends_with("mod.rs")));
}

#[test]
fn impl_parser_test_missing_src_directory() {
    let result = parse_source(&Err(ListingError::MissingDirectory("/tmp/crate/src".to_string())));
    assert!(matches!(result, Err(LaibraryError::Parse(_))));
}

#[test]
fn impl_parser_test_empty_source_file() {
    let result = parse_source(&Ok(vec![source("/tmp/crate/src/empty.rs", "")]));
    assert!(result.is_ok());
    assert_eq!(result.unwrap().len(), 0);
}

#[test]
fn impl_parser_test_invalid_utf8_in_source() {
    let listing = Ok(vec![(
        "/tmp/crate/src/invalid.rs".to_string(),
        Err("stream did not contain valid UTF-8".to_string()),
    )]);
    let result = parse_source(&listing);
    assert!(matches!(result, Err(LaibraryError::Parse(_))));
}

#[test]
fn parse_source_messages() {
    let missing = parse_source(&Err(ListingError::MissingDirectory("/x/src".to_string())));
    assert!(matches!(missing, Err(LaibraryError::Parse(m)) if m == "Source directory does not exist: /x/src"));

    let unreadable = parse_source(
        &Ok(vec![("/x/src/a.rs".to_string(), Err("denied".to_string()))])
    );
    assert!(matches!(unreadable, Err(LaibraryError::Parse(m)) if m == "Failed to read source file /x/src/a.rs: denied"));

    let entry = parse_source(&Err(ListingError::UnreadableEntry("gone".to_string())));
    assert!(matches!(entry, Err(LaibraryError::Parse(m)) if m == "Failed to read directory entry: gone"));
}

#[test]
fn parse_source_keeps_text_and_order() {
    let files = parse_source(
        &Ok(vec![source("/x/src/b.rs", "pub fn b() {}"), source("/x/src/blank.rs", " \n"), source("/x/src/a.rs", "pub fn a() {}")])
    )
    .unwrap();
    assert_eq!(files.len(), 2);
    assert_eq!(files[0].path, "/x/src/b.rs");
    assert_eq!(files[0].content, "pub fn b() {}");
    assert_eq!(files[1].path, "/x/src/a.rs");
}
