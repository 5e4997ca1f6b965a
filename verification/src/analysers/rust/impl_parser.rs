//! The source files of a Rust crate, read from the listing of its `src`
//! directory.

use vstd::prelude::*;
use crate::error::LaibraryError;
use crate::languages::rust::api::symbol_collection::SourceText;
use crate::parser::ListingError;
use crate::types::{code_views, SourceCode};

verus! {

/// The message that reports a failed listing of a crate's source directory.
pub open spec fn listing_text(l: ListingError) -> Seq<char> {
    match l {
        ListingError::MissingDirectory(d) => "Source directory does not exist: "@ + d@,
        ListingError::UnreadableDirectory(e) => "Failed to read directory: "@ + e@,
        ListingError::UnreadableEntry(e) => "Failed to read directory entry: "@ + e@,
    }
}

/// The first `k` listed files as source files (path and text), blank files
/// left out, or the first file that could not be read.
pub open spec fn read_sources(texts: Seq<SourceText>, k: int) -> Result<Seq<(Seq<char>, Seq<char>)>, Seq<char>>
    decreases k,
{
    if k <= 0 || k > texts.len() {
        Ok(Seq::empty())
    } else {
        match read_sources(texts, k - 1) {
            Err(e) => Err(e),
            Ok(acc) => match texts[k - 1].1 {
                Err(e) => Err("Failed to read source file "@ + texts[k - 1].0@ + ": "@ + e@),
                Ok(c) => if crate::strings::trim(c@).len() == 0 {
                    Ok(acc)
                } else {
                    Ok(acc.push((texts[k - 1].0@, c@)))
                },
            },
        }
    }
}

/// Whether `r` is what reading the listed sources gives: the listing failure,
/// the first file that could not be read, or the non-blank files in order.
pub open spec fn parse_source_outcome(
    r: Result<Vec<SourceCode>, LaibraryError>,
    listing: Result<Vec<SourceText>, ListingError>,
) -> bool {
    match listing {
        Err(l) => r matches Err(LaibraryError::Parse(m)) && m@ == listing_text(l),
        Ok(texts) => match read_sources(texts@, texts@.len() as int) {
            Ok(v) => r matches Ok(x) && code_views(x@) == v,
            Err(e) => r matches Err(LaibraryError::Parse(m)) && m@ == e,
        },
    }
}

proof fn lemma_read_sources_err(texts: Seq<SourceText>, k: int, n: int)
    requires
        0 <= k <= n <= texts.len(),
        read_sources(texts, k) is Err,
    ensures
        read_sources(texts, n) == read_sources(texts, k),
    decreases n - k,
{
    if k < n {
        lemma_read_sources_err(texts, k, n - 1);
    }
}

/// The crate's non-blank source files, from the listing of its `src`
/// directory.
pub fn parse_source(listing: &Result<Vec<SourceText>, ListingError>) -> (r: Result<Vec<SourceCode>, LaibraryError>)
    ensures
        parse_source_outcome(r, *listing),
{
    let texts = match listing {
        Err(l) => {
            let (prefix, detail) = match l {
                ListingError::MissingDirectory(d) => ("Source directory does not exist: ", d),
                ListingError::UnreadableDirectory(e) => ("Failed to read directory: ", e),
                ListingError::UnreadableEntry(e) => ("Failed to read directory entry: ", e),
            };
            let mut m = String::from_str(prefix);
            m.append(detail.as_str());
            return Err(LaibraryError::Parse(m));
        },
        Ok(texts) => texts,
    };
    let mut files: Vec<SourceCode> = Vec::new();
    let n = texts.len();
    let mut i: usize = 0;
    assert(code_views(files@) =~= Seq::<(Seq<char>, Seq<char>)>::empty());
    while i < n
        invariant
            n == texts@.len(),
            *listing == Ok::<Vec<SourceText>, ListingError>(*texts),
            i <= n,
            read_sources(texts@, i as int) == Ok::<_, Seq<char>>(code_views(files@)),
        decreases n - i,
    {
        let (path, text) = &texts[i];
        match text {
            Err(e) => {
                let mut m = String::from_str("Failed to read source file ");
                m.append(path.as_str());
                m.append(": ");
                m.append(e.as_str());
                proof { lemma_read_sources_err(texts@, i + 1, n as int); }
                return Err(LaibraryError::Parse(m));
            },
            Ok(content) => {
                let trimmed = crate::strings::trim_str(content.as_str());
                if !trimmed.as_str().is_empty() {
                    let ghost fv = code_views(files@);
                    let f = SourceCode { path: path.clone(), content: content.clone() };
                    files.push(f);
                    assert(code_views(files@) =~= fv.push((f.path@, f.content@)));
                }
            },
        }
        i = i + 1;
    }
    Ok(files)
}

} // verus!
