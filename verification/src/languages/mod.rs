//! The languages whose libraries can be analysed.

pub mod rust;

use vstd::prelude::*;
use crate::error::LaibraryError;
use rust::RustAnalyser;

verus! {

/// The analyser of the libraries written in `language`: the Rust analyser for
/// "rust".
pub fn get_analyser(language: &str) -> (r: Result<RustAnalyser, LaibraryError>)
    ensures
        language@ == "rust"@ ==> r is Ok,
        language@ != "rust"@ ==> (r matches Err(LaibraryError::UnsupportedLanguage(m)) && m@ == language@),
{
    if crate::strings::str_eq(language, "rust") {
        Ok(RustAnalyser::new())
    } else {
        Err(LaibraryError::UnsupportedLanguage(String::from_str(language)))
    }
}

} // verus!
