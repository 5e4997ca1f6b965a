//! Creation of tree-sitter parsers.

use vstd::prelude::*;
use crate::error::ExtractionError;
use crate::ts;

verus! {

/// A parser set to `parser_language`.
///
/// Fails with `ExtractionError::Malformed` when tree-sitter refuses the
/// language (for an incompatible ABI version); the message starts with
/// "Error setting language for parser: ". It succeeds for the Rust grammar,
/// with a parser ready for it.
pub fn get_parser(parser_language: &tree_sitter::Language) -> (r: Result<tree_sitter::Parser, ExtractionError>)
    ensures
        crate::ts::is_rust_grammar(*parser_language) ==> r is Ok,
        r matches Ok(p) ==> ts::parser_plain(p)
            && (crate::ts::is_rust_grammar(*parser_language) ==> ts::parser_ready(p)),
        r matches Err(e) ==> e matches ExtractionError::Malformed(m)
            && m@.subrange(0, 35) == "Error setting language for parser: "@,
{
    let mut parser = ts::new_parser();
    match ts::set_parser_language(&mut parser, parser_language) {
        Ok(()) => Ok(parser),
        Err(e) => {
            let prefix = "Error setting language for parser: ";
            let mut m = String::from_str(prefix);
            let detail = ts::language_error_message(&e);
            m.append(detail.as_str());
            proof {
                reveal_strlit("Error setting language for parser: ");
                assert(m@.subrange(0, 35) =~= prefix@);
            }
            Err(ExtractionError::Malformed(m))
        },
    }
}

} // verus!
