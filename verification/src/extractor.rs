//! The interface of the extractors of a library's metadata and public API.

use vstd::prelude::*;
use crate::error::{DependencyResolutionError, ExtractionError};
use crate::library_metadata::{LibraryMetadata, LibraryMetadataError};
use crate::types::Namespace;

verus! {

/// Extracts metadata and public API information from a library.
pub trait Extractor<EntryPoint> {
    /// The tree-sitter grammar of the library's language.
    fn get_parser_language(&self) -> tree_sitter::Language;

    /// The library's metadata, read from the directory at `path`.
    fn get_library_metadata(&self, path: &str) -> Result<LibraryMetadata<EntryPoint>, LibraryMetadataError>;

    /// The library's public API, namespace by namespace.
    fn extract_public_api(
        &self,
        metadata: &LibraryMetadata<EntryPoint>,
        parser: &mut tree_sitter::Parser,
    ) -> Result<Vec<Namespace>, ExtractionError>;

    /// The path of the dependency named `dependency_name` of the library at
    /// `dependant_path`.
    fn resolve_dependency_path(&self, dependency_name: &str, dependant_path: &str) -> Result<String, DependencyResolutionError>;
}

} // verus!
