//! The analysers of libraries, one per language.

pub mod rust;

use vstd::prelude::*;
use crate::error::LaibraryError;
use crate::languages::rust::api::symbol_collection::SourceText;
use crate::languages::rust::RustApi;
use crate::parser::ListingError;
use crate::types::{Namespace, PackageMetadata, SourceCode};

verus! {

/// Reads a library's metadata and public API from what was read of it.
pub trait Analyser {
    /// The tree-sitter grammar of the language.
    fn get_parser_language(&self) -> tree_sitter::Language;

    /// The package metadata, from the crate's directory, the outcome of reading
    /// its manifest and its README text.
    fn get_package_metadata(
        &self,
        crate_dir: &str,
        manifest: &Result<String, String>,
        documentation: String,
    ) -> Result<PackageMetadata, LaibraryError>;

    /// The public API as namespaces, from the outcome of reading the entry point.
    fn extract_public_api(
        &self,
        metadata: &PackageMetadata,
        entry_point: &Result<String, String>,
        parser: &mut tree_sitter::Parser,
    ) -> Result<Vec<Namespace>, LaibraryError>;
}

/// Reads a library's metadata, sources and public API, and renders its documentation.
pub trait LibraryAnalyser {
    /// The package metadata, from the crate's directory, the outcome of reading
    /// its manifest and its README text.
    fn extract_metadata(
        &self,
        crate_dir: &str,
        manifest: &Result<String, String>,
        documentation: String,
    ) -> Result<PackageMetadata, LaibraryError>;

    /// The non-blank source files, from the listing of the source directory.
    fn parse_source(&self, listing: &Result<Vec<SourceText>, ListingError>) -> Result<Vec<SourceCode>, LaibraryError>;

    /// The public API of the source files.
    fn extract_public_api(&self, sources: &[SourceCode]) -> Result<RustApi, LaibraryError>;

    /// The documentation of a library from its metadata and API.
    fn generate_documentation(&self, metadata: &PackageMetadata, api: &RustApi) -> Result<String, LaibraryError>;
}

/// The analyser for `language`: the Rust analyser for "rust".
pub fn get_analyser(language: &str) -> (r: Result<rust::RustAnalyser, LaibraryError>)
    ensures
        language@ == "rust"@ ==> r is Ok,
        language@ != "rust"@ ==> (r matches Err(LaibraryError::UnsupportedLanguage(m)) && m@ == language@),
{
    if crate::strings::str_eq(language, "rust") {
        Ok(rust::RustAnalyser::new())
    } else {
        Err(LaibraryError::UnsupportedLanguage(String::from_str(language)))
    }
}

} // verus!
