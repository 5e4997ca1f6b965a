use laibrary::get_parser;
use laibrary::languages::rust::analyser::RustAnalyser;
use laibrary::languages::rust::symbol_collection::{collect_symbols, RawNamespace};
use laibrary::LaibraryError;

fn setup_parser() -> tree_sitter::Parser {
    get_parser(&RustAnalyser::new().get_parser_language()).unwrap()
}

fn file(path: &str, content: &str) -> (String, Result<String, String>) {
    (path.to_string(), Ok(content.to_string()))
}

fn collect(entry: &str, files: Vec<(String, Result<String, String>)>) -> Result<Vec<RawNamespace>, LaibraryError> {
    let mut parser = setup_parser();
    collect_symbols(entry, &files, &mut parser)
}

const LIB: &str = "/crate/src/lib.rs";

#[test]
fn test_collect_symbols_single_file() {
    let namespaces = collect(LIB, vec![file(LIB, "\npub fn public_function() {}\nfn private_function() {}\n")]).unwrap();

    assert_eq!(namespaces.len(), 1);
    assert_eq!(namespaces[0].name, "");
    assert_eq!(namespaces[0].definitions.len(), 1, "Should only collect public functions");
    assert_eq!(namespaces[0].references.len(), 0);
    assert!(namespaces[0].definitions.iter().any(|s| s.name == "public_function"), "Should collect public function");
}

#[test]
fn test_collect_symbols_with_module() {
    let namespaces = collect(
        LIB,
        vec![
            file(LIB, "\npub mod module;\npub fn root_function() {}\n"),
            file("/crate/src/module.rs", "\npub fn module_function() {}\n"),
        ],
    )
    .unwrap();

    assert_eq!(namespaces.len(), 2);
    let root = namespaces.iter().find(|n| n.name.is_empty()).unwrap();
    assert_eq!(root.definitions.len(), 1);
    assert_eq!(root.references.len(), 0);

    let module = namespaces.iter().find(|n| n.name == "module").unwrap();
    assert_eq!(module.definitions.len(), 1);
    assert_eq!(module.references.len(), 0);
}

#[test]
fn test_collect_symbols_nested_module() {
    let namespaces = collect(
        LIB,
        vec![
            file(LIB, "\npub mod module;\npub fn root_function() {}\n"),
            file("/crate/src/module/mod.rs", "\npub fn module_function() {}\n"),
        ],
    )
    .unwrap();

    assert_eq!(namespaces.len(), 2);
    let root = namespaces.iter().find(|n| n.name.is_empty()).unwrap();
    assert_eq!(root.definitions.len(), 1);
    assert_eq!(root.references.len(), 0);

    let module = namespaces.iter().find(|n| n.name == "module").unwrap();
    assert_eq!(module.definitions.len(), 1);
    assert_eq!(module.references.len(), 0);
}

#[test]
fn test_collect_symbols_missing_module() {
    let namespaces = collect(LIB, vec![file(LIB, "\npub mod missing;\npub fn root_function() {}\n")]).unwrap();

    assert_eq!(namespaces.len(), 1);
    assert_eq!(namespaces[0].name, "");
    assert_eq!(namespaces[0].definitions.len(), 1);
    assert_eq!(namespaces[0].references.len(), 0);
}

#[test]
fn test_collect_symbols_module_reexport() {
    let namespaces = collect(
        LIB,
        vec![
            file(LIB, "\npub mod module;\npub use module::InnerStruct;\n"),
            file("/crate/src/module.rs", "\npub struct InnerStruct;\n"),
        ],
    )
    .unwrap();

    assert_eq!(namespaces.len(), 2);
    let root = namespaces.iter().find(|n| n.name.is_empty()).unwrap();
    assert_eq!(root.definitions.len(), 0);
    assert_eq!(root.references.len(), 1);
    assert_eq!(root.references[0].0, "InnerStruct");
    assert_eq!(root.references[0].1, "module::InnerStruct");

    let module = namespaces.iter().find(|n| n.name == "module").unwrap();
    assert_eq!(module.definitions.len(), 1);
    assert_eq!(module.references.len(), 0);
    assert_eq!(module.definitions[0].name, "InnerStruct");
}

fn text_crate() -> Vec<(String, Result<String, String>)> {
    vec![
        file(LIB, "\npub mod text;\n"),
        file("/crate/src/text/mod.rs", "\nmod formatter;\npub use formatter::{Format, TextFormatter};\n"),
        file(
            "/crate/src/text/formatter.rs",
            "\npub struct TextFormatter {\n    format: Format,\n}\n\npub enum Format {\n    Plain,\n    Rich,\n}\n",
        ),
    ]
}

#[test]
fn test_collect_symbols_module_internal_reexport() {
    let namespaces = collect(LIB, text_crate()).unwrap();

    assert_eq!(namespaces.len(), 3);
    let root = namespaces.iter().find(|n| n.name.is_empty()).unwrap();
    assert_eq!(root.definitions.len(), 0);
    assert_eq!(root.references.len(), 0);

    let text = namespaces.iter().find(|n| n.name == "text").unwrap();
    assert_eq!(text.definitions.len(), 0);
    assert_eq!(text.references.len(), 2);
    assert!(text
        .references
        .iter()
        .any(|(name, source_path)| { name == "Format" && source_path == "text::formatter::Format" }));
    assert!(text
        .references
        .iter()
        .any(|(name, source_path)| { name == "TextFormatter" && source_path == "text::formatter::TextFormatter" }));

    let formatter = namespaces.iter().find(|n| n.name == "text::formatter").unwrap();
    assert_eq!(formatter.definitions.len(), 2);
    assert_eq!(formatter.references.len(), 0);
    assert!(formatter.definitions.iter().any(|s| s.name == "Format"));
    assert!(formatter.definitions.iter().any(|s| s.name == "TextFormatter"));
}

#[test]
fn test_collect_symbols_private_module() {
    let namespaces = collect(LIB, text_crate()).unwrap();
    let formatter = namespaces.iter().find(|n| n.name == "text::formatter").unwrap();
    assert_eq!(formatter.definitions.len(), 2);
    assert!(formatter.definitions.iter().any(|s| s.name == "Format"));
    assert!(formatter.definitions.iter().any(|s| s.name == "TextFormatter"));
    assert!(!formatter.is_public);

    let text = namespaces.iter().find(|n| n.name == "text").unwrap();
    assert_eq!(text.references.len(), 2);
    assert!(text.references.iter().any(|(name, _)| name == "Format"));
    assert!(text.references.iter().any(|(name, _)| name == "TextFormatter"));
}

#[test]
fn test_collect_symbols_reexport_chain() {
    let namespaces = collect(
        LIB,
        vec![
            file(LIB, "\nmod formatting;\npub use formatting::Format;\n"),
            file("/crate/src/formatting/mod.rs", "\nmod format;\npub use format::Format;\n"),
            file("/crate/src/formatting/format.rs", "\npub enum Format {\n    Markdown,\n    Html,\n    Plain,\n}\n"),
        ],
    )
    .unwrap();

    assert_eq!(namespaces.len(), 3);
    let root = namespaces.iter().find(|n| n.name.is_empty()).unwrap();
    assert_eq!(root.definitions.len(), 0);
    assert_eq!(root.references.len(), 1);
    assert_eq!(root.references[0].0, "Format");
    assert_eq!(root.references[0].1, "formatting::Format");

    let formatting = namespaces.iter().find(|n| n.name == "formatting").unwrap();
    assert_eq!(formatting.definitions.len(), 0);
    assert_eq!(formatting.references.len(), 1);
    assert_eq!(formatting.references[0].0, "Format");
    assert_eq!(formatting.references[0].1, "formatting::format::Format");

    let format = namespaces.iter().find(|n| n.name == "formatting::format").unwrap();
    assert_eq!(format.definitions.len(), 1);
    assert_eq!(format.references.len(), 0);
    assert_eq!(format.definitions[0].name, "Format");
}

#[test]
fn test_collect_symbols_nonexistent_file() {
    let result = collect("nonexistent.rs", vec![]);
    assert!(matches!(result, Err(LaibraryError::Parse(_))));
}

#[test]
fn collect_symbols_reports_missing_entry_point() {
    let result = collect("nonexistent.rs", vec![]);
    match result {
        Err(LaibraryError::Parse(m)) => {
            assert_eq!(m, "Failed to read file 'nonexistent.rs': No such file or directory (os error 2)")
        }
        _ => panic!("expected a read failure"),
    }
}

#[test]
fn collect_symbols_reports_unreadable_module() {
    let files = vec![
        file(LIB, "pub mod broken;\n"),
        ("/crate/src/broken.rs".to_string(), Err("stream did not contain valid UTF-8".to_string())),
    ];
    match collect(LIB, files) {
        Err(LaibraryError::Parse(m)) => assert_eq!(
            m,
            "Failed to read file '/crate/src/broken.rs': stream did not contain valid UTF-8"
        ),
        _ => panic!("expected a read failure"),
    }
}

#[test]
fn collect_symbols_strips_self_prefix() {
    let namespaces = collect(
        LIB,
        vec![
            file(LIB, "pub mod outer;\n"),
            file("/crate/src/outer.rs", "mod inner;\npub use self::inner::Thing;\n"),
            file("/crate/src/inner.rs", "pub struct Thing;\n"),
        ],
    )
    .unwrap();
    let outer = namespaces.iter().find(|n| n.name == "outer").unwrap();
    assert_eq!(outer.references, vec![("Thing".to_string(), "inner::Thing".to_string())]);
    assert_eq!(namespaces.last().unwrap().name, "");
    assert!(namespaces.last().unwrap().is_public);
}

#[test]
fn collect_symbols_visits_each_file_once() {
    let namespaces = collect(
        LIB,
        vec![
            file(LIB, "pub mod a;\npub mod a;\n"),
            file("/crate/src/a.rs", "pub fn f() {}\n"),
        ],
    )
    .unwrap();
    assert_eq!(namespaces.len(), 2);
    assert_eq!(namespaces[0].name, "a");
    assert_eq!(namespaces[1].name, "");
}

#[test]
fn collect_symbols_inline_module_takes_parent_visibility() {
    let namespaces = collect(LIB, vec![file(LIB, "pub mod inner {\n    pub fn g() {}\n}\n")]).unwrap();
    assert_eq!(namespaces.len(), 2);
    assert_eq!(namespaces[0].name, "inner");
    assert_eq!(namespaces[0].definitions.len(), 1);
    assert!(namespaces[0].is_public);
}
