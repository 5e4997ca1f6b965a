use laibrary::get_parser;
use laibrary::languages::rust::analyser::RustAnalyser;
use laibrary::languages::rust::api::symbol_collection::{collect_symbols, resolve_module_path, parse_sources, Module};
use laibrary::LaibraryError;

fn setup_parser() -> tree_sitter::Parser {
    get_parser(&RustAnalyser::new().get_parser_language()).unwrap()
}

fn file(path: &str, content: &str) -> (String, Result<String, String>) {
    (path.to_string(), Ok(content.to_string()))
}

fn collect(entry: &str, files: Vec<(String, Result<String, String>)>) -> Result<Vec<Module>, LaibraryError> {
    let mut parser = setup_parser();
    collect_symbols(entry, &files, &mut parser)
}

const LIB: &str = "/crate/src/lib.rs";

#[test]
fn non_existing_file() {
    let result = collect("non-existing.rs", vec![]);
    assert!(matches!(result, Err(LaibraryError::Parse(_))));
}

#[test]
fn cyclic_modules() {
    let module_a_rs = "/crate/src/module_a.rs";
    let namespaces = collect(
        module_a_rs,
        vec![
            file(module_a_rs, "\npub mod module_b;\npub fn module_a_function() {}\n"),
            file("/crate/src/module_b.rs", "\npub mod module_a;  // This creates a cycle\npub fn module_b_function() {}\n"),
        ],
    )
    .unwrap();

    assert!(!namespaces.is_empty());
}

#[test]
fn public_symbol() {
    let namespaces = collect(LIB, vec![file(LIB, "\npub fn public_function() {}\n")]).unwrap();

    assert_eq!(namespaces.len(), 1);
    assert_eq!(namespaces[0].name, "");
    assert_eq!(namespaces[0].definitions.len(), 1);
    assert!(namespaces[0].definitions.iter().any(|s| s.name == "public_function"));
}

#[test]
fn private_symbol() {
    let namespaces = collect(LIB, vec![file(LIB, "\nfn private_function() {}\n")]).unwrap();

    assert_eq!(namespaces.len(), 1);
    assert_eq!(namespaces[0].name, "");
    assert_eq!(namespaces[0].definitions.len(), 0);
}

#[test]
fn symbol_collection_public_module() {
    let namespaces = collect(LIB, vec![file(LIB, "\npub mod public_module {}\n")]).unwrap();

    assert_eq!(namespaces.len(), 2);
    assert!(namespaces.iter().any(|n| n.name == "public_module"));
}

#[test]
fn symbol_collection_private_module() {
    let namespaces = collect(LIB, vec![file(LIB, "\nmod private_module {}\n")]).unwrap();

    assert_eq!(namespaces.len(), 1);
    assert!(namespaces.iter().any(|n| n.name == ""));
}

#[test]
fn missing_module() {
    let namespaces = collect(LIB, vec![file(LIB, "\n    pub mod missing;\n    ")]).unwrap();

    assert_eq!(namespaces.len(), 1);
    assert_eq!(namespaces[0].name, "");
    assert_eq!(namespaces[0].references.len(), 0);
}

#[test]
fn module_reexport() {
    let namespaces = collect(
        LIB,
        vec![
            file(LIB, "\n    pub mod module;\n    pub use module::InnerStruct;\n    "),
            file("/crate/src/module.rs", "\n    pub struct InnerStruct;\n    "),
        ],
    )
    .unwrap();

    assert_eq!(namespaces.len(), 2);
    let root = namespaces.iter().find(|n| n.name.is_empty()).unwrap();
    assert_eq!(root.definitions.len(), 0);
    assert_eq!(root.references.len(), 1);
    assert_eq!(root.references[0], "module::InnerStruct");

    let module = namespaces.iter().find(|n| n.name == "module").unwrap();
    assert_eq!(module.definitions.len(), 1);
    assert_eq!(module.references.len(), 0);
    assert_eq!(module.definitions[0].name, "InnerStruct");
}

#[test]
fn direct_symbol_reexport() {
    let namespaces = collect(
        LIB,
        vec![
            file(LIB, "\n    mod formatter;\n    pub use formatter::Format;\n    "),
            file("/crate/src/formatter.rs", "\n    pub enum Format {\n        Plain,\n        Rich,\n    }\n    "),
        ],
    )
    .unwrap();

    let formatter = namespaces.iter().find(|n| n.name == "formatter").unwrap();
    assert_eq!(formatter.definitions.len(), 1);
    assert!(formatter.definitions.iter().any(|s| s.name == "Format"));
    assert!(!formatter.is_public);
    let text = namespaces.iter().find(|n| n.name == "").unwrap();
    assert_eq!(text.references.len(), 1);
    assert!(text.references.iter().any(|path| path == "formatter::Format"));
}

#[test]
fn indirect_symbol_reexport() {
    let namespaces = collect(
        LIB,
        vec![
            file(LIB, "\n    mod formatting;\n    pub use formatting::Format;\n    "),
            file("/crate/src/formatting/mod.rs", "\n    mod format;\n    pub use format::Format;\n    "),
            file(
                "/crate/src/formatting/format.rs",
                "\n    pub enum Format {\n        Markdown,\n        Html,\n        Plain,\n    }\n    ",
            ),
        ],
    )
    .unwrap();

    assert_eq!(namespaces.len(), 3);
    let root = namespaces.iter().find(|n| n.name.is_empty()).unwrap();
    assert_eq!(root.definitions.len(), 0);
    assert_eq!(root.references.len(), 1);
    assert_eq!(root.references[0], "formatting::Format");

    let formatting = namespaces.iter().find(|n| n.name == "formatting").unwrap();
    assert_eq!(formatting.definitions.len(), 0);
    assert_eq!(formatting.references.len(), 1);
    assert_eq!(formatting.references[0], "formatting::format::Format");

    let format = namespaces.iter().find(|n| n.name == "formatting::format").unwrap();
    assert_eq!(format.definitions.len(), 1);
    assert_eq!(format.references.len(), 0);
    assert_eq!(format.definitions[0].name, "Format");
}

#[test]
fn file_with_doc_comment() {
    let namespaces = collect(
        LIB,
        vec![file(
            LIB,
            "//! This is a file-level doc comment.\n//! It can span multiple lines.\n\npub struct Test {}\n",
        )],
    )
    .unwrap();

    assert_eq!(namespaces.len(), 1);
    assert_eq!(namespaces[0].name, "");
    assert_eq!(
        namespaces[0].doc_comment,
        Some("//! This is a file-level doc comment.\n//! It can span multiple lines.\n".to_string())
    );
}

#[test]
fn symbol_collection_module_with_inner_doc_comment() {
    let namespaces = collect(
        LIB,
        vec![file(
            LIB,
            "\npub mod inner {\n    //! This is the inner doc comment\n    //! It spans multiple lines\n\n    pub fn nested_function() -> String {}\n}\n",
        )],
    )
    .unwrap();

    assert_eq!(namespaces.len(), 2);
    let inner_namespace = namespaces.iter().find(|n| n.name == "inner").unwrap();
    assert_eq!(
        inner_namespace.doc_comment,
        Some("//! This is the inner doc comment\n//! It spans multiple lines\n".to_string())
    );
}

#[test]
fn resolve_module_path_prefers_mod_rs() {
    let mut parser = setup_parser();
    let texts = vec![
        file("/crate/src/lib.rs", ""),
        file("/crate/src/a.rs", ""),
        file("/crate/src/a/mod.rs", ""),
    ];
    let parsed = parse_sources(&texts, &mut parser);
    assert_eq!(resolve_module_path(&parsed, "/crate/src/lib.rs", "a").unwrap(), "/crate/src/a/mod.rs");
    let only_rs = parse_sources(&texts[..2].to_vec(), &mut parser);
    assert_eq!(resolve_module_path(&only_rs, "/crate/src/lib.rs", "a").unwrap(), "/crate/src/a.rs");
    match resolve_module_path(&only_rs, "/crate/src/lib.rs", "b") {
        Err(LaibraryError::Parse(m)) => assert_eq!(m, "Could not find module b from /crate/src/lib.rs"),
        _ => panic!("expected a missing module"),
    }
}

#[test]
fn collection_puts_entry_module_last_and_public() {
    let namespaces = collect(
        LIB,
        vec![file(LIB, "mod hidden;\npub fn f() {}\n"), file("/crate/src/hidden.rs", "pub fn g() {}\n")],
    )
    .unwrap();
    assert_eq!(namespaces.len(), 2);
    assert_eq!(namespaces[0].name, "hidden");
    assert!(!namespaces[0].is_public);
    assert_eq!(namespaces[1].name, "");
    assert!(namespaces[1].is_public);
}
