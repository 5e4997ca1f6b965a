//! Rendering of a list of public member signatures.

use vstd::prelude::*;
use crate::error::LaibraryError;
use crate::strings::{join, join_strings, views};

verus! {

/// The members, separated by blank lines.
pub fn generate_documentation(public_members: &[String]) -> (r: Result<String, LaibraryError>)
    ensures
        r matches Ok(s) && s@ == join(views(public_members@), "\n\n"@),
{
    Ok(join_strings(public_members, "\n\n"))
}

} // verus!
