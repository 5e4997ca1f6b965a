//! The documentation of a Rust library: its metadata and the public API it
//! exposes, namespace by namespace.

use vstd::prelude::*;
use vstd::string::StringSliceAdditionalSpecFns;
use crate::error::LaibraryError;
use crate::formatting::{context_text, format_library_context};
use crate::languages::rust::api::namespace_construction::{construct_namespaces, construction, entry_namespace};
use crate::languages::rust::api::symbol_collection::{
    collect_modules, crate_modules, module_views, parse_sources, rust_parsed_from, sources_model, Module, ParsedSource,
    SourceText,
};
use crate::languages::rust::api::symbol_resolution::{doc_comment_map, resolve_modules, resolve_symbols, ResolvedView};
use crate::languages::rust::metadata::{extract_metadata, metadata_outcome};
use crate::parser::rust_parser::rust_syntax_parser;
use crate::types::PackageMetadata;

verus! {

/// The document for a library with `metadata` and the collected `modules`:
/// the failure to resolve their re-exports, or the library's context with the
/// namespaces built from the resolved symbols.
pub open spec fn document_outcome(r: Result<String, LaibraryError>, metadata: PackageMetadata, modules: Seq<Module>) -> bool {
    match resolve_modules(modules, modules.len() as int) {
        Err(e) => r matches Err(LaibraryError::Parse(m)) && m@ == e,
        Ok(m) => r matches Ok(s) && s@ == context_text(
            metadata.name@,
            metadata.version@,
            metadata.documentation@,
            construction(
                m.map_values(|e: (Seq<char>, ResolvedView)| e.1),
                metadata.name@,
                doc_comment_map(modules, modules.len() as int),
                m.len() as int,
            ).map_values(|e: crate::languages::rust::api::namespace_construction::Entry| entry_namespace(e)),
        ),
    }
}

/// Renders a library's document from its metadata and collected modules:
/// resolves the re-exports, groups the symbols into namespaces and formats them.
pub fn document_library(metadata: &PackageMetadata, modules: &[Module]) -> (r: Result<String, LaibraryError>)
    ensures
        document_outcome(r, *metadata, modules@),
{
    let resolution = resolve_symbols(modules)?;
    let namespaces = construct_namespaces(resolution, metadata.name.as_str());
    format_library_context(metadata, namespaces.as_slice())
}

/// Renders the document of the Rust library in `crate_dir` from what was read
/// of it: the outcome of reading its `Cargo.toml`, its README text (empty when
/// missing) and its source files (the entry point among them).
///
/// The metadata comes from the manifest; the modules are collected from the
/// entry point the manifest names, over the sources, each parsed with a parser
/// set to the Rust grammar, so the items are those of each file's Rust parse.
/// The first failure
/// met is returned: reading the metadata, collecting the modules, resolving
/// their re-exports.
pub fn generate_library_api(
    crate_dir: &str,
    cargo_toml: &Result<String, String>,
    documentation: String,
    sources: &Vec<SourceText>,
) -> (r: Result<String, LaibraryError>)
    ensures
        exists|md: Result<PackageMetadata, LaibraryError>|
            #[trigger] metadata_outcome(md, crate_dir@, *cargo_toml, documentation@)
            && match md {
                Err(e) => r == Err::<String, LaibraryError>(e),
                Ok(m) => exists|parsed: Seq<ParsedSource>| #[trigger] rust_parsed_from(parsed, sources@)
                    && match crate_modules(sources_model(parsed), m.entry_point@) {
                        Err(e) => r matches Err(LaibraryError::Parse(x)) && x@ == e,
                        Ok(v) => exists|mods: Seq<Module>| module_views(mods) == v && #[trigger] document_outcome(r, m, mods),
                    },
            },
{
    let metadata = match extract_metadata(crate_dir, cargo_toml, documentation) {
        Ok(md) => md,
        Err(e) => {
            assert(metadata_outcome(Err::<PackageMetadata, LaibraryError>(e), crate_dir@, *cargo_toml, documentation@));
            return Err(e);
        },
    };
    let ghost md = Ok::<PackageMetadata, LaibraryError>(metadata);
    assert(metadata_outcome(md, crate_dir@, *cargo_toml, documentation@));
    let mut parser = rust_syntax_parser()?;
    let parsed = parse_sources(sources, &mut parser);
    assert(rust_parsed_from(parsed@, sources@));
    let modules = match collect_modules(&parsed, metadata.entry_point.as_str()) {
        Ok(mods) => mods,
        Err(e) => {
            return Err(e);
        },
    };
    let r = document_library(&metadata, modules.as_slice());
    assert(document_outcome(r, metadata, modules@));
    r
}

} // verus!
