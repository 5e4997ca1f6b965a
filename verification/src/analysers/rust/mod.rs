//! Reading the source files of Rust crates, and the analyser built on them.

pub mod impl_parser;

use vstd::prelude::*;
use vstd::string::StringSliceAdditionalSpecFns;
use crate::analysers::LibraryAnalyser;
use crate::error::LaibraryError;
use crate::generator::{document_text, generate_output};
use crate::languages::rust::api::symbol_collection::SourceText;
use crate::languages::rust::impl_extractor::{source_trees, sources_items};
use crate::languages::rust::impl_generator::generate_documentation;
use crate::languages::rust::metadata::{extract_metadata, metadata_outcome};
use crate::languages::rust::RustApi;
use crate::parser::ListingError;
use crate::strings::{join, views};
use crate::syntax::SyntaxNode;
use crate::types::{code_views, LibraryInfo, PackageMetadata, SourceCode};
use impl_parser::{parse_source, parse_source_outcome};

verus! {

/// The library analyser of Rust crates.
#[derive(Debug, Clone, Copy)]
pub struct RustAnalyser;

impl RustAnalyser {
    pub fn new() -> (r: Self)
        ensures
            r == RustAnalyser,
    {
        RustAnalyser
    }
}

/// The texts of all members, module by module.
pub open spec fn all_members(m: Seq<(Seq<char>, Seq<Seq<char>>)>) -> Seq<Seq<char>>
    decreases m.len(),
{
    if m.len() == 0 {
        Seq::empty()
    } else {
        all_members(m.drop_last()) + m.last().1
    }
}

impl LibraryAnalyser for RustAnalyser {
    fn extract_metadata(
        &self,
        crate_dir: &str,
        manifest: &Result<String, String>,
        documentation: String,
    ) -> (r: Result<PackageMetadata, LaibraryError>)
        ensures
            metadata_outcome(r, crate_dir@, *manifest, documentation@),
    {
        extract_metadata(crate_dir, manifest, documentation)
    }

    fn parse_source(&self, listing: &Result<Vec<SourceText>, ListingError>) -> (r: Result<Vec<SourceCode>, LaibraryError>)
        ensures
            parse_source_outcome(r, *listing),
    {
        parse_source(listing)
    }

    fn extract_public_api(&self, sources: &[SourceCode]) -> (r: Result<RustApi, LaibraryError>)
        ensures
            exists|trees: Seq<Option<SyntaxNode>>| source_trees(code_views(sources@), trees)
                && match #[trigger] sources_items(code_views(sources@), trees, sources@.len() as int) {
                    Ok(v) => r matches Ok(api) && api.view() == v,
                    Err(e) => r matches Err(LaibraryError::Parse(m)) && m@ == e,
                },
    {
        crate::languages::rust::impl_extractor::extract_public_api(sources)
    }

    /// The library document: the metadata, and the texts of all public
    /// members, module by module, separated by blank lines as its API.
    fn generate_documentation(&self, metadata: &PackageMetadata, api: &RustApi) -> (r: Result<String, LaibraryError>)
        ensures
            r matches Ok(s) && s@ == document_text(metadata.name@, metadata.version@, metadata.documentation@,
                join(all_members(api.view()), "\n\n"@)),
    {
        let ghost all = api.view();
        let mut members: Vec<String> = Vec::new();
        let mut i: usize = 0;
        while i < api.modules.len()
            invariant
                i <= api.modules@.len(),
                all == api.view(),
                views(members@) == all_members(all.subrange(0, i as int)),
            decreases api.modules@.len() - i,
        {
            let ghost before = views(members@);
            let mut texts = crate::languages::rust::render_members(&api.modules[i].1);
            let ghost t = views(texts@);
            members.append(&mut texts);
            assert(views(members@) =~= before + t);
            assert(all.subrange(0, i + 1).drop_last() =~= all.subrange(0, i as int));
            i = i + 1;
        }
        assert(all.subrange(0, all.len() as int) =~= all);
        let text = generate_documentation(members.as_slice())?;
        let info = LibraryInfo {
            name: metadata.name.clone(),
            version: metadata.version.clone(),
            documentation: metadata.documentation.clone(),
            api: text,
        };
        Ok(generate_output(&info))
    }
}

} // verus!
