use laibrary::generate_library_api;
use laibrary::LaibraryError;

fn source(path: &str, content: &str) -> (String, Result<String, String>) {
    (path.to_string(), Ok(content.to_string()))
}

const MANIFEST: &str = "[package]\nname = \"demo\"\nversion = \"0.2.0\"\n";

#[test]
fn library_document_gathers_reexports_under_the_crate() {
    let sources = vec![
        source("/demo/src/lib.rs", "//! Demo crate.\npub mod text;\npub use text::Format;\n\n/// Adds.\npub fn add(a: i32, b: i32) -> i32 { a + b }\n"),
        source("/demo/src/text.rs", "pub enum Format {\n    Plain,\n}\n"),
    ];

    let document =
        generate_library_api("/demo", &Ok(MANIFEST.to_string()), "  # Demo\n".to_string(), &sources).unwrap();

    assert!(document.starts_with("<library name=\"demo\" version=\"0.2.0\">\n    <documentation>\n# Demo\n    </documentation>\n    <api>\n"));
    assert!(document.ends_with("    </api>\n</library>"));
    assert!(document.contains("/// Adds.\npub fn add(a: i32, b: i32) -> i32;"));
    assert!(document.contains("pub enum Format {\n    Plain,\n}"));
}

#[test]
fn library_document_reports_unreadable_manifest() {
    let result = generate_library_api("/demo", &Err("denied".to_string()), String::new(), &vec![]);
    assert!(matches!(result, Err(LaibraryError::Parse(m)) if m == "Failed to read Cargo.toml: denied"));
}

#[test]
fn library_document_reports_missing_entry_point() {
    let result = generate_library_api("/demo", &Ok(MANIFEST.to_string()), String::new(), &vec![]);
    assert!(matches!(
        result,
        Err(LaibraryError::Parse(m)) if m == "Failed to read file '/demo/src/lib.rs': No such file or directory (os error 2)"
    ));
}

#[test]
fn library_document_reads_custom_entry_point() {
    let manifest = format!("{}\n[lib]\npath = \"lib/main.rs\"\n", MANIFEST);
    let sources = vec![source("/demo/lib/main.rs", "pub struct Root;\n")];

    let document = generate_library_api("/demo", &Ok(manifest), String::new(), &sources).unwrap();

    assert!(document.contains("demo:\n\n```\npub struct Root;\n```"));
}
