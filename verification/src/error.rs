//! Errors reported by the library.

use vstd::prelude::*;

verus! {

/// Error whilst extracting public API
#[derive(Debug)]
pub enum ExtractionError {
    /// An I/O failure, described by its message.
    Io(String),
    Malformed(String),
}

/// Error whilst resolving a dependency path
#[derive(Debug)]
pub enum DependencyResolutionError {
    RetrievalFailure(String),
    MissingDependency(String),
}

/// Error of the analysers, parsers and formatters.
#[derive(Debug, PartialEq, Eq)]
pub enum LaibraryError {
    Parse(String),
    UnsupportedLanguage(String),
    InvalidPath(String),
}

impl ExtractionError {
    /// The text that describes the error.
    pub fn message(&self) -> (m: String)
        ensures
            match self {
                ExtractionError::Io(s) => m@ == s@,
                ExtractionError::Malformed(s) => m@ == s@,
            },
    {
        match self {
            ExtractionError::Io(s) => s.clone(),
            ExtractionError::Malformed(s) => s.clone(),
        }
    }
}

impl DependencyResolutionError {
    /// The text that describes the error.
    pub fn message(&self) -> (m: String)
        ensures
            match self {
                DependencyResolutionError::RetrievalFailure(s) => m@ == "Failed to retrieve dependency: "@ + s@,
                DependencyResolutionError::MissingDependency(s) => m@ == "'"@ + s@ + "' is not a dependency"@,
            },
    {
        match self {
            DependencyResolutionError::RetrievalFailure(s) => {
                let mut m = String::from_str("Failed to retrieve dependency: ");
                m.append(s.as_str());
                m
            },
            DependencyResolutionError::MissingDependency(s) => {
                let mut m = String::from_str("'");
                m.append(s.as_str());
                m.append("' is not a dependency");
                m
            },
        }
    }
}

impl LaibraryError {
    /// The text that describes the error.
    pub fn message(&self) -> (m: String)
        ensures
            match self {
                LaibraryError::Parse(s) => m@ == s@,
                LaibraryError::UnsupportedLanguage(s) => m@ == "Unsupported language: "@ + s@,
                LaibraryError::InvalidPath(s) => m@ == "Invalid path: "@ + s@,
            },
    {
        match self {
            LaibraryError::Parse(s) => s.clone(),
            LaibraryError::UnsupportedLanguage(s) => {
                let mut m = String::from_str("Unsupported language: ");
                m.append(s.as_str());
                m
            },
            LaibraryError::InvalidPath(s) => {
                let mut m = String::from_str("Invalid path: ");
                m.append(s.as_str());
                m
            },
        }
    }
}

} // verus!
