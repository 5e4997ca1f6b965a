//! Parsers that read a library's documentation and public API.

pub mod rust_parser;

use vstd::prelude::*;
use crate::error::LaibraryError;
use crate::languages::rust::api::symbol_collection::SourceText;
use crate::types::LibraryInfo;

verus! {

/// Why the source files of a library could not be listed.
#[derive(Debug)]
pub enum ListingError {
    /// The source directory, named here, does not exist.
    MissingDirectory(String),
    /// A directory could not be read; the I/O error's message.
    UnreadableDirectory(String),
    /// A directory entry could not be read; the I/O error's message.
    UnreadableEntry(String),
}

impl ListingError {
    /// The message of the parse error that reports the failure.
    pub open spec fn text(self) -> Seq<char> {
        match self {
            ListingError::MissingDirectory(d) => "Directory does not exist: "@ + d@,
            ListingError::UnreadableDirectory(e) => "Failed to read directory: "@ + e@,
            ListingError::UnreadableEntry(e) => "Failed to read directory entry: "@ + e@,
        }
    }

    /// The error that reports the failure.
    pub fn to_error(&self) -> (e: LaibraryError)
        ensures
            e matches LaibraryError::Parse(m) && m@ == self.text(),
    {
        let (prefix, detail) = match self {
            ListingError::MissingDirectory(d) => ("Directory does not exist: ", d),
            ListingError::UnreadableDirectory(e) => ("Failed to read directory: ", e),
            ListingError::UnreadableEntry(e) => ("Failed to read directory entry: ", e),
        };
        let mut m = String::from_str(prefix);
        m.append(detail.as_str());
        LaibraryError::Parse(m)
    }
}

/// What a parser reads of a library's directory: its manifest, its README
/// and its source files, each as the outcome of reading it.
#[derive(Debug)]
pub struct LibraryFiles {
    /// The text of `Cargo.toml`, or the message of the error met reading it.
    pub cargo_toml: Result<String, String>,
    /// The text of `README.md`, if it could be read.
    pub readme: Option<String>,
    /// The `.rs` files under `src`, in the order they were listed, or why they
    /// could not be listed.
    pub sources: Result<Vec<SourceText>, ListingError>,
}

/// Interface of the language parsers.
pub trait LibraryParser {
    /// Reads the library's documentation and public API from its files.
    fn parse(&self, files: &LibraryFiles) -> Result<LibraryInfo, LaibraryError>;
}

/// The parser for `language`: the Rust parser for "rust".
pub fn get_parser(language: &str) -> (r: Result<rust_parser::RustParser, LaibraryError>)
    ensures
        language@ == "rust"@ ==> r is Ok,
        language@ != "rust"@ ==> (r matches Err(LaibraryError::UnsupportedLanguage(m)) && m@ == language@),
{
    if crate::strings::str_eq(language, "rust") {
        Ok(rust_parser::RustParser)
    } else {
        Err(LaibraryError::UnsupportedLanguage(String::from_str(language)))
    }
}

} // verus!
