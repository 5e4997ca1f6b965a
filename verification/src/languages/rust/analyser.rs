//! The analyser of Rust crates.

use vstd::prelude::*;
use vstd::string::StringSliceAdditionalSpecFns;
use crate::analysers::Analyser;
use crate::error::LaibraryError;
use crate::languages::rust::metadata::{extract_metadata, metadata_outcome};
use crate::languages::rust::public_api::{build_public_api, public_api_outcome};
use crate::ts;
use crate::types::{Namespace, PackageMetadata};

verus! {

/// Analyses Rust crates with the tree-sitter Rust grammar.
#[derive(Debug, Clone, Copy)]
pub struct RustAnalyser;

impl RustAnalyser {
    pub fn new() -> (r: Self)
        ensures
            r == RustAnalyser,
    {
        RustAnalyser
    }

    /// The tree-sitter grammar of Rust.
    pub fn get_parser_language(&self) -> (l: tree_sitter::Language)
        ensures
            ts::is_rust_grammar(l),
    {
        ts::rust_language()
    }
}

impl Analyser for RustAnalyser {
    fn get_parser_language(&self) -> (l: tree_sitter::Language)
        ensures
            ts::is_rust_grammar(l),
    {
        ts::rust_language()
    }

    fn get_package_metadata(
        &self,
        crate_dir: &str,
        manifest: &Result<String, String>,
        documentation: String,
    ) -> (r: Result<PackageMetadata, LaibraryError>)
        ensures
            metadata_outcome(r, crate_dir@, *manifest, documentation@),
    {
        extract_metadata(crate_dir, manifest, documentation)
    }

    fn extract_public_api(
        &self,
        metadata: &PackageMetadata,
        entry_point: &Result<String, String>,
        parser: &mut tree_sitter::Parser,
    ) -> (r: Result<Vec<Namespace>, LaibraryError>)
        ensures
            public_api_outcome(r, metadata.entry_point@, metadata.name@, *entry_point, crate::ts::parser_ready(*old(parser))),
    {
        build_public_api(metadata.entry_point.as_str(), metadata.name.as_str(), entry_point, parser)
    }
}

} // verus!
