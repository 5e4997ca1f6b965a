//! The re-exports of a single use declaration.

use vstd::prelude::*;
use vstd::string::StringSliceAdditionalSpecFns;
use crate::error::LaibraryError;
use crate::languages::rust::api::parsing::{
    child_texts, has_visibility, has_visibility_modifier, list_identifier_reexports, list_identifiers,
    scoped_reexport,
};
use crate::languages::rust::api::types::{symbol_trees, RustSymbol, SymbolTree};
use crate::strings::join;
use crate::syntax::{find_child, find_kind, node_text, text_of, SyntaxNode};

verus! {

/// The re-exports a use declaration makes: none unless it is public; for a
/// scoped identifier, its last part under the whole path; for a scoped use
/// list, each identifier of the list under `prefix::name`.
pub open spec fn declared_reexports(u: SyntaxNode, src: Seq<u8>) -> Seq<SymbolTree> {
    let cs = u.children@;
    let a = find_kind(cs, "scoped_identifier"@);
    let b = find_kind(cs, "scoped_use_list"@);
    if !has_visibility(u) {
        Seq::empty()
    } else if 0 <= a < cs.len() {
        let parts = child_texts(cs[a], src);
        if parts.len() > 0 {
            seq![SymbolTree::Reexport(parts.last(), join(parts.drop_last(), Seq::empty()) + parts.last())]
        } else {
            Seq::empty()
        }
    } else if 0 <= b < cs.len() {
        let sl = cs[b];
        let prefix = if sl.children@.len() > 0 { node_text(src, sl.children@[0]) } else { Seq::empty() };
        let ul = find_kind(sl.children@, "use_list"@);
        if 0 <= ul < sl.children@.len() {
            let list = sl.children@[ul];
            list_identifiers(list, prefix, list.children@.len() as int, src)
        } else {
            Seq::empty()
        }
    } else {
        Seq::empty()
    }
}

/// The symbols re-exported by a use declaration; always `Ok`.
pub fn extract_reexports(use_declaration_node: &SyntaxNode, source_code: &str) -> (r: Result<Vec<RustSymbol>, LaibraryError>)
    requires
        use_declaration_node.wf(source_code.spec_bytes()),
    ensures
        r matches Ok(v) && symbol_trees(v@) == declared_reexports(*use_declaration_node, source_code.spec_bytes()),
{
    let ghost src = source_code.spec_bytes();
    let u = use_declaration_node;
    if !has_visibility_modifier(u) {
        let none: Vec<RustSymbol> = Vec::new();
        assert(symbol_trees(none@) =~= Seq::<SymbolTree>::empty());
        return Ok(none);
    }
    if let Some(a) = find_child(u, "scoped_identifier") {
        assert(u.children@[a as int].wf(src));
        return Ok(scoped_reexport(&u.children[a], source_code));
    }
    if let Some(b) = find_child(u, "scoped_use_list") {
        let sl = &u.children[b];
        assert(sl.wf(src));
        let prefix = if sl.children.len() > 0 {
            assert(sl.children@[0].wf(src));
            text_of(source_code, &sl.children[0])
        } else {
            String::new()
        };
        if let Some(ul) = find_child(sl, "use_list") {
            assert(sl.children@[ul as int].wf(src));
            return Ok(list_identifier_reexports(&sl.children[ul], &prefix, source_code));
        }
    }
    let none: Vec<RustSymbol> = Vec::new();
    assert(symbol_trees(none@) =~= Seq::<SymbolTree>::empty());
    Ok(none)
}

} // verus!
