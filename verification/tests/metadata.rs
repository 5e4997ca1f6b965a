use laibrary::languages::rust::metadata::{extract_metadata, package_identity, read_manifest};
use laibrary::LaibraryError;

const CRATE_DIR: &str = "/tmp/test-crate";

fn test_manifest(custom_lib: Option<&str>) -> String {
    let mut cargo_toml = String::from("\n[package]\nname = \"test-crate\"\nversion = \"0.1.0\"\n");
    if let Some(lib_path) = custom_lib {
        cargo_toml.push_str(&format!("\n[lib]\npath = \"{}\"\n", lib_path));
    }
    cargo_toml
}

#[test]
fn test_extract_metadata_valid_crate() {
    let result = extract_metadata(CRATE_DIR, &Ok(test_manifest(None)), "Test crate".to_string());
    assert!(result.is_ok());

    let metadata = result.unwrap();
    assert_eq!(metadata.name, "test-crate");
    assert_eq!(metadata.version, "0.1.0");
    assert_eq!(metadata.documentation, "Test crate");
}

#[test]
fn metadata_test_missing_cargo_toml() {
    let result = extract_metadata(
        CRATE_DIR,
        &Err("No such file or directory (os error 2)".to_string()),
        String::new(),
    );
    assert!(matches!(result, Err(LaibraryError::Parse(_))));
}

#[test]
fn metadata_test_invalid_cargo_toml() {
    let result = extract_metadata(CRATE_DIR, &Ok("invalid toml content".to_string()), String::new());
    assert!(matches!(result, Err(LaibraryError::Parse(_))));
}

#[test]
fn metadata_test_missing_package_section() {
    let result = extract_metadata(CRATE_DIR, &Ok("[dependencies]\nfoo = \"1.0\"".to_string()), String::new());
    assert!(matches!(result, Err(LaibraryError::Parse(_))));
}

#[test]
fn metadata_test_missing_readme() {
    let result = extract_metadata(CRATE_DIR, &Ok(test_manifest(None)), String::new());
    assert!(result.is_ok());
    assert_eq!(result.unwrap().documentation, "");
}

#[test]
fn test_default_entry_point() {
    let metadata = extract_metadata(CRATE_DIR, &Ok(test_manifest(None)), "Test crate".to_string()).unwrap();
    assert_eq!(metadata.entry_point, "/tmp/test-crate/src/lib.rs");
}

#[test]
fn test_custom_entry_point() {
    let metadata =
        extract_metadata(CRATE_DIR, &Ok(test_manifest(Some("src/custom_lib.rs"))), "Test crate".to_string()).unwrap();
    assert_eq!(metadata.entry_point, "/tmp/test-crate/src/custom_lib.rs");
}

fn parse_message(r: Result<laibrary::types::PackageMetadata, LaibraryError>) -> String {
    match r {
        Err(LaibraryError::Parse(m)) => m,
        _ => panic!("expected a parse error"),
    }
}

#[test]
fn metadata_error_messages() {
    let missing = extract_metadata(CRATE_DIR, &Err("denied".to_string()), String::new());
    assert_eq!(parse_message(missing), "Failed to read Cargo.toml: denied");

    let no_package = extract_metadata(CRATE_DIR, &Ok("[dependencies]\nfoo = \"1.0\"".to_string()), String::new());
    assert_eq!(parse_message(no_package), "Missing [package] section in Cargo.toml");

    let no_name = extract_metadata(CRATE_DIR, &Ok("[package]\nversion = \"1.0.0\"".to_string()), String::new());
    assert_eq!(parse_message(no_name), "Missing 'name' in [package] section");

    let no_version = extract_metadata(CRATE_DIR, &Ok("[package]\nname = \"x\"".to_string()), String::new());
    assert_eq!(parse_message(no_version), "Missing 'version' in [package] section");

    let numeric_name = extract_metadata(CRATE_DIR, &Ok("[package]\nname = 3\nversion = \"1\"".to_string()), String::new());
    assert_eq!(parse_message(numeric_name), "Missing 'name' in [package] section");

    let invalid = extract_metadata(CRATE_DIR, &Ok("invalid toml content".to_string()), String::new());
    assert!(parse_message(invalid).starts_with("Failed to parse Cargo.toml: "));
}

#[test]
fn read_manifest_reads_package_and_lib_path() {
    let doc = read_manifest(&test_manifest(Some("src/other.rs"))).unwrap();
    let package = doc.package.as_ref().unwrap();
    assert_eq!(package.name.as_deref(), Some("test-crate"));
    assert_eq!(package.version.as_deref(), Some("0.1.0"));
    assert_eq!(doc.lib_path.as_deref(), Some("src/other.rs"));
    assert!(read_manifest("= nope").is_err());

    let identity = package_identity(&Ok(doc)).unwrap();
    assert_eq!(identity, ("test-crate".to_string(), "0.1.0".to_string()));
}

#[test]
fn absolute_lib_path_replaces_crate_dir() {
    let metadata = extract_metadata(CRATE_DIR, &Ok(test_manifest(Some("/elsewhere/lib.rs"))), String::new()).unwrap();
    assert_eq!(metadata.entry_point, "/elsewhere/lib.rs");
}
