//! Metadata about a library, as read from its manifest.

use vstd::prelude::*;

verus! {

/// Metadata about a library, typically read from its manifest (such as
/// `package.json` or `Cargo.toml`).
#[derive(Debug)]
pub struct LibraryMetadata<EntryPoint> {
    /// The name of the library as its manifest gives it
    pub name: String,
    /// The version of the library, if its manifest gives one
    pub version: Option<String>,
    /// Documentation of the library, typically from its manifest or documentation files
    pub documentation: String,
    /// The entry point(s) of the library: typically a single path (such as
    /// Rust's `src/lib.rs`), though some languages have several.
    pub entry_point: EntryPoint,
}

/// Why a library's metadata could not be read.
#[derive(Debug)]
pub enum LibraryMetadataError {
    /// The manifest could not be read; the I/O error's message.
    MissingManifest(String),
    /// The manifest does not hold what is needed; what is wrong.
    MalformedManifest(String),
}

impl LibraryMetadataError {
    /// The text that describes the error: the message it carries.
    pub fn message(&self) -> (m: String)
        ensures
            match self {
                LibraryMetadataError::MissingManifest(s) => m@ == s@,
                LibraryMetadataError::MalformedManifest(s) => m@ == s@,
            },
    {
        match self {
            LibraryMetadataError::MissingManifest(s) => s.clone(),
            LibraryMetadataError::MalformedManifest(s) => s.clone(),
        }
    }
}

} // verus!
