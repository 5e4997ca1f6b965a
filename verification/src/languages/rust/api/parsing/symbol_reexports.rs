//! The re-exports of a use declaration, with an error for what is not one.

use vstd::prelude::*;
use vstd::string::StringSliceAdditionalSpecFns;
use crate::error::LaibraryError;
use crate::languages::rust::api::parsing::{
    child_texts, has_visibility, has_visibility_modifier, list_identifier_reexports, list_identifiers,
    scoped_reexport,
};
use crate::languages::rust::api::types::{symbol_trees, RustSymbol, SymbolTree};
use crate::strings::join;
use crate::syntax::{find_child, find_kind, node_text, text_of, SyntaxNode};

verus! {

/// The re-exports of a use declaration, or why none could be read: nothing for
/// a declaration that is not public; one for a scoped identifier (an error when
/// it has no parts); one per identifier of the use list of a scoped use list
/// (an error when the list has no parts or no use list); an error otherwise.
pub open spec fn symbol_reexports(u: SyntaxNode, src: Seq<u8>) -> Result<Seq<SymbolTree>, Seq<char>> {
    let cs = u.children@;
    let a = find_kind(cs, "scoped_identifier"@);
    let b = find_kind(cs, "scoped_use_list"@);
    if !has_visibility(u) {
        Ok(Seq::empty())
    } else if 0 <= a < cs.len() {
        let parts = child_texts(cs[a], src);
        if parts.len() > 0 {
            Ok(seq![SymbolTree::Reexport(parts.last(), join(parts.drop_last(), Seq::empty()) + parts.last())])
        } else {
            Err("Empty path parts"@)
        }
    } else if 0 <= b < cs.len() {
        let sl = cs[b];
        let ul = find_kind(sl.children@, "use_list"@);
        if sl.children@.len() == 0 {
            Err("Empty scoped list"@)
        } else if 0 <= ul < sl.children@.len() {
            let list = sl.children@[ul];
            Ok(list_identifiers(list, node_text(src, sl.children@[0]), list.children@.len() as int, src))
        } else {
            Err("No use list found"@)
        }
    } else {
        Err("Failed to find symbol reexport"@)
    }
}

/// The re-exports of a use declaration; an error when the node is not one
/// that can be read.
pub fn extract_symbol_reexports(use_declaration_node: &SyntaxNode, source_code: &str) -> (r: Result<Vec<RustSymbol>, LaibraryError>)
    requires
        use_declaration_node.wf(source_code.spec_bytes()),
    ensures
        match symbol_reexports(*use_declaration_node, source_code.spec_bytes()) {
            Ok(v) => r matches Ok(x) && symbol_trees(x@) == v,
            Err(e) => r matches Err(LaibraryError::Parse(m)) && m@ == e,
        },
{
    let ghost src = source_code.spec_bytes();
    let u = use_declaration_node;
    if !has_visibility_modifier(u) {
        let none: Vec<RustSymbol> = Vec::new();
        assert(symbol_trees(none@) =~= Seq::<SymbolTree>::empty());
        return Ok(none);
    }
    if let Some(a) = find_child(u, "scoped_identifier") {
        assert(u.children@[a as int].wf(src));
        return extract_single_reexport(&u.children[a], source_code);
    }
    if let Some(b) = find_child(u, "scoped_use_list") {
        assert(u.children@[b as int].wf(src));
        return extract_multi_reexports(&u.children[b], source_code);
    }
    Err(LaibraryError::Parse(String::from_str("Failed to find symbol reexport")))
}

/// The re-export written as a scoped identifier; an error when it has no parts.
fn extract_single_reexport(scoped: &SyntaxNode, source_code: &str) -> (r: Result<Vec<RustSymbol>, LaibraryError>)
    requires
        scoped.wf(source_code.spec_bytes()),
    ensures
        ({
            let parts = child_texts(*scoped, source_code.spec_bytes());
            if parts.len() > 0 {
                r matches Ok(x) && symbol_trees(x@)
                    == seq![SymbolTree::Reexport(parts.last(), join(parts.drop_last(), Seq::empty()) + parts.last())]
            } else {
                r matches Err(LaibraryError::Parse(m)) && m@ == "Empty path parts"@
            }
        }),
{
    if scoped.children.len() == 0 {
        return Err(LaibraryError::Parse(String::from_str("Empty path parts")));
    }
    Ok(scoped_reexport(scoped, source_code))
}

/// The re-exports of a scoped use list, each identifier of its use list under
/// `prefix::name`, where the prefix is the list's first part.
fn extract_multi_reexports(scoped_list: &SyntaxNode, source_code: &str) -> (r: Result<Vec<RustSymbol>, LaibraryError>)
    requires
        scoped_list.wf(source_code.spec_bytes()),
    ensures
        ({
            let sl = *scoped_list;
            let src = source_code.spec_bytes();
            let ul = find_kind(sl.children@, "use_list"@);
            if sl.children@.len() == 0 {
                r matches Err(LaibraryError::Parse(m)) && m@ == "Empty scoped list"@
            } else if 0 <= ul < sl.children@.len() {
                let list = sl.children@[ul];
                r matches Ok(x) && symbol_trees(x@)
                    == list_identifiers(list, node_text(src, sl.children@[0]), list.children@.len() as int, src)
            } else {
                r matches Err(LaibraryError::Parse(m)) && m@ == "No use list found"@
            }
        }),
{
    let ghost src = source_code.spec_bytes();
    if scoped_list.children.len() == 0 {
        return Err(LaibraryError::Parse(String::from_str("Empty scoped list")));
    }
    assert(scoped_list.children@[0].wf(src));
    let prefix = text_of(source_code, &scoped_list.children[0]);
    match find_child(scoped_list, "use_list") {
        Some(ul) => {
            assert(scoped_list.children@[ul as int].wf(src));
            Ok(list_identifier_reexports(&scoped_list.children[ul], &prefix, source_code))
        },
        None => Err(LaibraryError::Parse(String::from_str("No use list found"))),
    }
}

} // verus!
