//! The XML-like document that presents a library's documentation and API.

use vstd::prelude::*;
use crate::strings::{trim, trim_str};
use crate::types::LibraryInfo;

verus! {

/// The document for a library, with its documentation and API trimmed and
/// wrapped in CDATA sections.
pub open spec fn document_text(name: Seq<char>, version: Seq<char>, documentation: Seq<char>, api: Seq<char>) -> Seq<char> {
    "<library name=\""@ + name + "\" version=\""@ + version
        + "\">\n    <documentation>\n    <![CDATA[\n"@ + trim(documentation)
        + "\n    ]]>\n    </documentation>\n    <api>\n    <![CDATA[\n"@ + trim(api)
        + "\n    ]]>\n    </api>\n</library>\n"@
}

/// The document for `info`.
pub open spec fn library_document(info: LibraryInfo) -> Seq<char> {
    document_text(info.name@, info.version@, info.documentation@, info.api@)
}

/// Renders a library's name, version, documentation and API.
pub fn generate_output(info: &LibraryInfo) -> (r: String)
    ensures
        r@ == library_document(*info),
{
    let mut out = String::from_str("<library name=\"");
    out.append(info.name.as_str());
    out.append("\" version=\"");
    out.append(info.version.as_str());
    out.append("\">\n    <documentation>\n    <![CDATA[\n");
    let documentation = trim_str(info.documentation.as_str());
    out.append(documentation.as_str());
    out.append("\n    ]]>\n    </documentation>\n    <api>\n    <![CDATA[\n");
    let api = trim_str(info.api.as_str());
    out.append(api.as_str());
    out.append("\n    ]]>\n    </api>\n</library>\n");
    out
}

} // verus!
