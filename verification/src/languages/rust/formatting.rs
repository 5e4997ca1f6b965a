//! Rendering of one namespace's symbols.

use vstd::prelude::*;
use crate::error::LaibraryError;
use crate::strings::join;
use crate::types::{join_sources, sources, Namespace};

verus! {

/// The source codes of the namespace's symbols, separated by blank lines.
pub fn format_module(module: &Namespace) -> (r: Result<String, LaibraryError>)
    ensures
        r matches Ok(s) && s@ == join(sources(module.symbols@), "\n\n"@),
{
    Ok(join_sources(&module.symbols, "\n\n"))
}

} // verus!
