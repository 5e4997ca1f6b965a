//! Extraction of the public API of a library from its source code.

pub mod analysers;
pub mod error;
pub mod extractor;
pub mod formatting;
pub mod generator;
pub mod languages;
pub mod library;
pub mod library_metadata;
pub mod lookup;
pub mod parser;
pub mod parsing;
pub mod paths;
pub mod strings;
pub mod syntax;
pub mod text;
pub mod tree_sitter_helpers;
pub mod ts;
pub mod types;

pub use error::{DependencyResolutionError, ExtractionError, LaibraryError};
pub use extractor::Extractor;
pub use library::generate_library_api;
pub use library_metadata::{LibraryMetadata, LibraryMetadataError};
pub use parsing::get_parser;
pub use tree_sitter_helpers::ParsedFile;
pub use types::{Namespace, Symbol};
