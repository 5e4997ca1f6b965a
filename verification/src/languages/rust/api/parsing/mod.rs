//! Reading the items of one Rust source file from its syntax tree.

pub mod doc_comments;
pub mod reexports;
pub mod symbol_reexports;

use vstd::prelude::*;
use vstd::string::StringSliceAdditionalSpecFns;
use vstd::utf8::{decode_utf8, encode_utf8};
use crate::error::LaibraryError;
use crate::languages::rust::api::types::{
    lemma_tree_views_append, lemma_tree_views_push, symbol_trees, RustFile, RustSymbol, SymbolTree,
};
use crate::languages::rust::extraction::{extract_name, is_item_kind, node_name};
use crate::strings::{join, join_strings, lines, views};
use crate::syntax::{parse_source_tree, rust_copy, rust_parse_fits, find_child, find_field, find_kind, has_kind, kind_is, node_text, text_of, SyntaxNode};
use doc_comments::{extract_inner_doc_comments, extract_outer_doc_comments, inner_doc_comment, outer_doc_comment};

verus! {

/// The source text between two byte offsets.
pub open spec fn text_range(src: Seq<u8>, a: int, b: int) -> Seq<char> {
    decode_utf8(src.subrange(a, b))
}

/// The texts of the attributes right before `cs[j+1]`, in source order.
pub open spec fn attributes_before(cs: Seq<SyntaxNode>, j: int, src: Seq<u8>) -> Seq<Seq<char>>
    decreases j + 1,
{
    if j < 0 || j >= cs.len() || cs[j].kind@ != "attribute_item"@ {
        Seq::empty()
    } else {
        attributes_before(cs, j - 1, src).push(node_text(src, cs[j]))
    }
}

/// Each line of `t`, indented by four spaces and ended by a newline.
pub open spec fn indent_lines(t: Seq<char>) -> Seq<char> {
    join(lines(t).map_values(|l: Seq<char>| "    "@ + l + "\n"@), Seq::empty())
}

/// The presentation of the item `parent.children[i]`: its outer doc comments,
/// its attributes (one per line), then its text; a function is cut before its
/// body and ends with `;`, a trait shows each of its methods so presented and
/// indented.
pub open spec fn symbol_source(parent: SyntaxNode, i: int, src: Seq<u8>) -> Result<Seq<char>, Seq<char>>
    decreases parent, i,
{
    if i < 0 || i >= parent.children@.len() {
        Ok(Seq::empty())
    } else {
        let cs = parent.children@;
        let node = cs[i];
        let doc = match outer_doc_comment(cs, i, src) {
            Some(d) => d,
            None => Seq::empty(),
        };
        let attrs = attributes_before(cs, i - 1, src);
        let attr_text = if attrs.len() == 0 { Seq::empty() } else { join(attrs, "\n"@) + "\n"@ };
        let body = if node.kind@ == "function_item"@ || node.kind@ == "function_signature_item"@ {
            let b = find_kind(node.children@, "block"@);
            if 0 <= b < node.children@.len() {
                Ok(crate::strings::trim_end(text_range(src, node.start_byte as int, node.children@[b].start_byte as int)) + ";"@)
            } else {
                Err("Failed to find function block"@)
            }
        } else if node.kind@ == "trait_item"@ {
            let d = find_kind(node.children@, "declaration_list"@);
            if 0 <= d < node.children@.len() {
                let dl = node.children@[d];
                match trait_body(dl, dl.children@.len() as int, src) {
                    Ok(b) => Ok(text_range(src, node.start_byte as int, dl.start_byte as int) + " {\n"@ + b + "}"@),
                    Err(e) => Err(e),
                }
            } else {
                Err("Failed to find trait declaration list"@)
            }
        } else {
            Ok(node_text(src, node))
        };
        match body {
            Ok(b) => Ok(doc + attr_text + b),
            Err(e) => Err(e),
        }
    }
}

/// The presentations of the methods among the first `k` children of a trait's
/// declaration list, indented.
pub open spec fn trait_body(dl: SyntaxNode, k: int, src: Seq<u8>) -> Result<Seq<char>, Seq<char>>
    decreases dl, k,
{
    if k <= 0 || k > dl.children@.len() {
        Ok(Seq::empty())
    } else {
        match trait_body(dl, k - 1, src) {
            Err(e) => Err(e),
            Ok(acc) => if dl.children@[k - 1].kind@ == "function_item"@ {
                match symbol_source(dl, k - 1, src) {
                    Ok(ms) => Ok(acc + indent_lines(ms)),
                    Err(e) => Err(e),
                }
            } else {
                Ok(acc)
            },
        }
    }
}

/// A node counts as public here when it has any visibility modifier.
pub open spec fn has_visibility(n: SyntaxNode) -> bool {
    has_kind(n.children@, "visibility_modifier"@)
}

/// Re-exports of the identifiers among the first `k` children of a use list.
pub open spec fn list_identifiers(list: SyntaxNode, prefix: Seq<char>, k: int, src: Seq<u8>) -> Seq<SymbolTree>
    decreases k,
{
    if k <= 0 || k > list.children@.len() {
        Seq::empty()
    } else {
        let item = list.children@[k - 1];
        let before = list_identifiers(list, prefix, k - 1, src);
        if item.kind@ == "identifier"@ {
            let name = node_text(src, item);
            before.push(SymbolTree::Reexport(name, prefix + "::"@ + name))
        } else {
            before
        }
    }
}

/// Re-exports of the `use_tree` items among the first `k` children of a use tree list.
pub open spec fn list_use_trees(list: SyntaxNode, prefix: Seq<char>, k: int, src: Seq<u8>) -> Result<Seq<SymbolTree>, Seq<char>>
    decreases k,
{
    if k <= 0 || k > list.children@.len() {
        Ok(Seq::empty())
    } else {
        match list_use_trees(list, prefix, k - 1, src) {
            Err(e) => Err(e),
            Ok(before) => {
                let item = list.children@[k - 1];
                if item.kind@ == "use_tree"@ {
                    let nf = find_field(item, "name"@);
                    if 0 <= nf < item.children@.len() {
                        match node_name(item.children@[nf], src) {
                            Some(name) => Ok(before.push(SymbolTree::Reexport(name, prefix + name))),
                            None => Err("Failed to extract name"@),
                        }
                    } else {
                        Ok(before)
                    }
                } else {
                    Ok(before)
                }
            },
        }
    }
}

/// The texts of the children of a node.
pub open spec fn child_texts(n: SyntaxNode, src: Seq<u8>) -> Seq<Seq<char>> {
    n.children@.map_values(|c: SyntaxNode| node_text(src, c))
}

/// The re-exports of a public use declaration.
pub open spec fn use_reexports(u: SyntaxNode, src: Seq<u8>) -> Result<Seq<SymbolTree>, Seq<char>> {
    let cs = u.children@;
    let a = find_kind(cs, "scoped_identifier"@);
    let b = find_kind(cs, "scoped_use_list"@);
    let t = find_kind(cs, "use_tree"@);
    if 0 <= a < cs.len() {
        let parts = child_texts(cs[a], src);
        if parts.len() > 0 {
            let name = parts.last();
            Ok(seq![SymbolTree::Reexport(name, join(parts.drop_last(), Seq::empty()) + name)])
        } else {
            Ok(Seq::empty())
        }
    } else if 0 <= b < cs.len() {
        let sl = cs[b];
        let prefix = if sl.children@.len() > 0 { node_text(src, sl.children@[0]) } else { Seq::empty() };
        let ul = find_kind(sl.children@, "use_list"@);
        if 0 <= ul < sl.children@.len() {
            let list = sl.children@[ul];
            Ok(list_identifiers(list, prefix, list.children@.len() as int, src))
        } else {
            Ok(Seq::empty())
        }
    } else if 0 <= t < cs.len() {
        let tree = cs[t];
        let pf = find_field(tree, "path"@);
        let prefix = if 0 <= pf < tree.children@.len() { node_text(src, tree.children@[pf]) + "::"@ } else { Seq::empty() };
        let l = find_kind(tree.children@, "use_tree_list"@);
        if 0 <= l < tree.children@.len() {
            let list = tree.children@[l];
            list_use_trees(list, prefix, list.children@.len() as int, src)
        } else {
            let nf = find_field(tree, "name"@);
            if 0 <= nf < tree.children@.len() {
                match node_name(tree.children@[nf], src) {
                    Some(name) => Ok(seq![SymbolTree::Reexport(name, prefix + name)]),
                    None => Err("Failed to extract name"@),
                }
            } else {
                Ok(Seq::empty())
            }
        }
    } else {
        Ok(Seq::empty())
    }
}

/// The items found among the first `i` children of a module node.
pub open spec fn module_items(node: SyntaxNode, src: Seq<u8>, i: int) -> Result<Seq<SymbolTree>, Seq<char>>
    decreases node, i,
{
    if i <= 0 || i > node.children@.len() {
        Ok(Seq::empty())
    } else {
        match module_items(node, src, i - 1) {
            Err(e) => Err(e),
            Ok(acc) => {
                let child = node.children@[i - 1];
                if is_item_kind(child.kind@) {
                    if !has_visibility(child) {
                        Ok(acc)
                    } else {
                        match node_name(child, src) {
                            None => Err("Failed to extract name"@),
                            Some(name) => match symbol_source(node, i - 1, src) {
                                Ok(sc) => Ok(acc.push(SymbolTree::Symbol(name, sc))),
                                Err(e) => Err(e),
                            },
                        }
                    }
                } else if child.kind@ == "use_declaration"@ {
                    if !has_visibility(child) {
                        Ok(acc)
                    } else {
                        match use_reexports(child, src) {
                            Ok(rs) => Ok(acc + rs),
                            Err(e) => Err(e),
                        }
                    }
                } else if child.kind@ == "mod_item"@ {
                    match node_name(child, src) {
                        None => Err("Failed to extract name"@),
                        Some(name) => {
                            let d = find_kind(child.children@, "declaration_list"@);
                            if 0 <= d < child.children@.len() {
                                let dl = child.children@[d];
                                match module_items(dl, src, dl.children@.len() as int) {
                                    Err(e) => Err(e),
                                    Ok(inner) => if has_visibility(child) {
                                        Ok(acc.push(SymbolTree::Module(name, inner, inner_doc_comment(dl, src))))
                                    } else {
                                        Ok(acc)
                                    },
                                }
                            } else {
                                Ok(acc.push(SymbolTree::Declaration(name, has_visibility(child))))
                            }
                        },
                    }
                } else {
                    Ok(acc)
                }
            },
        }
    }
}


proof fn lemma_trait_body_err(dl: SyntaxNode, k: int, n: int, src: Seq<u8>)
    requires
        0 <= k <= n <= dl.children@.len(),
        trait_body(dl, k, src) is Err,
    ensures
        trait_body(dl, n, src) == trait_body(dl, k, src),
    decreases n - k,
{
    if k < n {
        lemma_trait_body_err(dl, k, n - 1, src);
    }
}

/// The texts of the attributes right before `cs[k]`, in source order.
fn extract_attributes(cs: &Vec<SyntaxNode>, k: usize, source_code: &str) -> (r: Vec<String>)
    requires
        k <= cs@.len(),
        forall|t: int| 0 <= t < cs@.len() ==> (#[trigger] cs@[t]).wf(source_code.spec_bytes()),
    ensures
        views(r@) == attributes_before(cs@, k - 1, source_code.spec_bytes()),
    decreases k,
{
    if k == 0 || !kind_is(&cs[k - 1], "attribute_item") {
        let r: Vec<String> = Vec::new();
        assert(views(r@) =~= Seq::<Seq<char>>::empty());
        return r;
    }
    let mut items = extract_attributes(cs, k - 1, source_code);
    let ghost before = views(items@);
    assert(cs@[k - 1].wf(source_code.spec_bytes()));
    items.push(text_of(source_code, &cs[k - 1]));
    assert(views(items@) =~= before.push(items@.last()@));
    items
}

/// Appends each line of `text`, indented by four spaces and ended by a newline.
pub(crate) fn push_indented_lines(out: &mut String, text: &String)
    ensures
        final(out)@ == old(out)@ + indent_lines(text@),
{
    let chars = crate::strings::to_chars(text.as_str());
    let ls = crate::strings::split_lines(&chars);
    let ghost all = ls@.map_values(|x: Vec<char>| x@);
    let ghost parts = all.map_values(|l: Seq<char>| "    "@ + l + "\n"@);
    let ghost start = out@;
    let mut i: usize = 0;
    while i < ls.len()
        invariant
            i <= ls@.len(),
            all == ls@.map_values(|x: Vec<char>| x@),
            all == lines(text@),
            parts == all.map_values(|l: Seq<char>| "    "@ + l + "\n"@),
            out@ == start + join(parts.subrange(0, i as int), Seq::empty()),
        decreases ls@.len() - i,
    {
        let ghost before = out@;
        out.append("    ");
        let line = &ls[i];
        let mut j: usize = 0;
        while j < line.len()
            invariant
                j <= line@.len(),
                out@ == before + "    "@ + line@.subrange(0, j as int),
            decreases line@.len() - j,
        {
            crate::strings::push_char(out, line[j]);
            assert(line@.subrange(0, j + 1) =~= line@.subrange(0, j as int).push(line@[j as int]));
            j = j + 1;
        }
        out.append("\n");
        proof {
            assert(line@.subrange(0, line@.len() as int) =~= line@);
            let pre = parts.subrange(0, i as int);
            let post = parts.subrange(0, i + 1);
            assert(post.drop_last() =~= pre);
            assert(post.last() == "    "@ + all[i as int] + "\n"@);
            if i == 0 {
                assert(post =~= seq![post.last()]);
                assert(join(post, Seq::empty()) == post.last());
            } else {
                assert(join(post, Seq::empty()) == join(pre, Seq::empty()) + Seq::<char>::empty() + post.last());
            }
            assert(out@ =~= start + join(post, Seq::empty()));
        }
        i = i + 1;
    }
    assert(parts.subrange(0, parts.len() as int) =~= parts);
}

/// The presentation of the item `parent.children[i]`: its outer doc comments,
/// its attributes one per line, and its text, with a function cut before its
/// body and a trait reduced to the signatures of its methods.
fn get_symbol_source_code(parent: &SyntaxNode, i: usize, source_code: &str) -> (r: Result<String, LaibraryError>)
    requires
        i < parent.children@.len(),
        parent.wf(source_code.spec_bytes()),
    ensures
        match symbol_source(*parent, i as int, source_code.spec_bytes()) {
            Ok(s) => r matches Ok(x) && x@ == s,
            Err(e) => r matches Err(LaibraryError::Parse(m)) && m@ == e,
        },
    decreases parent, i,
{
    let ghost src = source_code.spec_bytes();
    let node = &parent.children[i];
    assert(node.wf(src));
    let mut out = match extract_outer_doc_comments(&parent.children, i, source_code) {
        Some(d) => d,
        None => String::new(),
    };
    let ghost doc = out@;
    let attributes = extract_attributes(&parent.children, i, source_code);
    if attributes.len() > 0 {
        let joined = join_strings(attributes.as_slice(), "\n");
        out.append(joined.as_str());
        out.append("\n");
    }
    assert(attributes@.len() == attributes_before(parent.children@, i - 1, src).len());
    let ghost with_attrs = out@;
    if kind_is(node, "function_item") || kind_is(node, "function_signature_item") {
        match find_child(node, "block") {
            Some(b) => {
                let block = &node.children[b];
                assert(block.wf(src));
                let head = crate::strings::byte_slice(source_code, node.start_byte, block.start_byte);
                let trimmed = crate::strings::trim_end_str(head);
                out.append(trimmed.as_str());
                out.append(";");
                assert(out@ =~= with_attrs + (crate::strings::trim_end(
                    text_range(src, node.start_byte as int, block.start_byte as int)) + ";"@));
                Ok(out)
            },
            None => Err(LaibraryError::Parse(String::from_str("Failed to find function block"))),
        }
    } else if kind_is(node, "trait_item") {
        match find_child(node, "declaration_list") {
            Some(d) => {
                let dl = &node.children[d];
                assert(dl.wf(src));
                let head = crate::strings::byte_slice(source_code, node.start_byte, dl.start_byte);
                let mut body = String::new();
                let n = dl.children.len();
                let mut k: usize = 0;
                while k < n
                    invariant
                        n == dl.children@.len(),
                        k <= n,
                        dl.wf(src),
                        src == source_code.spec_bytes(),
                        decreases_to!(*parent => *dl),
                        trait_body(*dl, n as int, src) is Err ==> symbol_source(*parent, i as int, src)
                            == trait_body(*dl, n as int, src),
                        trait_body(*dl, k as int, src) == Ok::<Seq<char>, Seq<char>>(body@),
                    decreases n - k,
                {
                    if kind_is(&dl.children[k], "function_item") {
                        match get_symbol_source_code(dl, k, source_code) {
                            Ok(method) => {
                                push_indented_lines(&mut body, &method);
                            },
                            Err(e) => {
                                proof { lemma_trait_body_err(*dl, k + 1, n as int, src); }
                                return Err(e);
                            },
                        }
                    }
                    k = k + 1;
                }
                out.append(head);
                out.append(" {\n");
                out.append(body.as_str());
                out.append("}");
                assert(out@ =~= with_attrs + (text_range(src, node.start_byte as int, dl.start_byte as int)
                    + " {\n"@ + body@ + "}"@));
                Ok(out)
            },
            None => Err(LaibraryError::Parse(String::from_str("Failed to find trait declaration list"))),
        }
    } else {
        let text = text_of(source_code, node);
        out.append(text.as_str());
        Ok(out)
    }
}


/// Whether the node has a visibility modifier.
pub(crate) fn has_visibility_modifier(node: &SyntaxNode) -> (b: bool)
    ensures
        b == has_visibility(*node),
{
    find_child(node, "visibility_modifier").is_some()
}

/// A re-export of `source_path` under `name`.
fn reexport(name: String, source_path: String) -> (r: RustSymbol)
    ensures
        r.view() == SymbolTree::Reexport(name@, source_path@),
{
    RustSymbol::SymbolReexport { name, source_path }
}

/// The re-export written as one scoped identifier: its last part is the name,
/// and the source path is the text of all its parts.
pub(crate) fn scoped_reexport(scoped: &SyntaxNode, source_code: &str) -> (r: Vec<RustSymbol>)
    requires
        scoped.wf(source_code.spec_bytes()),
    ensures
        ({
            let parts = child_texts(*scoped, source_code.spec_bytes());
            symbol_trees(r@) == if parts.len() > 0 {
                seq![SymbolTree::Reexport(parts.last(), join(parts.drop_last(), Seq::empty()) + parts.last())]
            } else {
                Seq::<SymbolTree>::empty()
            }
        }),
{
    let ghost src = source_code.spec_bytes();
    let ghost all = child_texts(*scoped, src);
    let mut parts: Vec<String> = Vec::new();
    let mut j: usize = 0;
    while j < scoped.children.len()
        invariant
            scoped.wf(src),
            src == source_code.spec_bytes(),
            all == child_texts(*scoped, src),
            j <= scoped.children@.len(),
            views(parts@) == all.subrange(0, j as int),
        decreases scoped.children@.len() - j,
    {
        assert(scoped.children@[j as int].wf(src));
        let ghost before = parts@;
        let t = text_of(source_code, &scoped.children[j]);
        parts.push(t);
        assert(parts@ == before.push(t));
        assert(views(parts@) =~= views(before).push(t@));
        assert(all.subrange(0, j + 1) =~= all.subrange(0, j as int).push(all[j as int]));
        j = j + 1;
    }
    assert(all.subrange(0, all.len() as int) =~= all);
    let mut out: Vec<RustSymbol> = Vec::new();
    let ghost whole = parts@;
    assert(views(whole) == all);
    match parts.pop() {
        Some(name) => {
            assert(all.last() == views(whole)[whole.len() - 1]);
            assert(name@ == all.last());
            assert(views(parts@) =~= all.drop_last());
            proof { reveal_strlit(""); }
            let mut path = join_strings(parts.as_slice(), "");
            path.append(name.as_str());
            let x = reexport(name, path);
            proof {
                lemma_tree_views_push(Seq::empty(), x);
                assert(symbol_trees(Seq::<RustSymbol>::empty()) =~= Seq::<SymbolTree>::empty());
            }
            out.push(x);
            assert(out@ =~= Seq::<RustSymbol>::empty().push(x));
            assert(""@ =~= Seq::<char>::empty());
            assert(path@ == join(all.drop_last(), Seq::empty()) + all.last());
            assert(x.view() == SymbolTree::Reexport(all.last(), join(all.drop_last(), Seq::empty()) + all.last()));
            assert(symbol_trees(out@) =~= seq![x.view()]);
            assert(all.len() > 0);
        },
        None => {
            assert(symbol_trees(out@) =~= Seq::<SymbolTree>::empty());
        },
    }
    out
}

/// Re-exports of the identifiers of a use list, each under `prefix::`.
pub(crate) fn list_identifier_reexports(list: &SyntaxNode, prefix: &String, source_code: &str) -> (r: Vec<RustSymbol>)
    requires
        list.wf(source_code.spec_bytes()),
    ensures
        symbol_trees(r@) == list_identifiers(*list, prefix@, list.children@.len() as int, source_code.spec_bytes()),
{
    let ghost src = source_code.spec_bytes();
    let mut out: Vec<RustSymbol> = Vec::new();
    let mut k: usize = 0;
    assert(symbol_trees(out@) =~= Seq::<SymbolTree>::empty());
    while k < list.children.len()
        invariant
            list.wf(src),
            src == source_code.spec_bytes(),
            k <= list.children@.len(),
            symbol_trees(out@) == list_identifiers(*list, prefix@, k as int, src),
        decreases list.children@.len() - k,
    {
        let item = &list.children[k];
        assert(item.wf(src));
        if kind_is(item, "identifier") {
            let name = text_of(source_code, item);
            let mut path = prefix.clone();
            path.append("::");
            path.append(name.as_str());
            let x = reexport(name, path);
            proof { lemma_tree_views_push(out@, x); }
            out.push(x);
        }
        k = k + 1;
    }
    out
}

proof fn lemma_list_use_trees_err(list: SyntaxNode, prefix: Seq<char>, k: int, n: int, src: Seq<u8>)
    requires
        0 <= k <= n <= list.children@.len(),
        list_use_trees(list, prefix, k, src) is Err,
    ensures
        list_use_trees(list, prefix, n, src) == list_use_trees(list, prefix, k, src),
    decreases n - k,
{
    if k < n {
        lemma_list_use_trees_err(list, prefix, k, n - 1, src);
    }
}

/// Re-exports of the named use trees of a use tree list, each under `prefix`.
fn list_use_tree_reexports(list: &SyntaxNode, prefix: &String, source_code: &str) -> (r: Result<Vec<RustSymbol>, LaibraryError>)
    requires
        list.wf(source_code.spec_bytes()),
    ensures
        match list_use_trees(*list, prefix@, list.children@.len() as int, source_code.spec_bytes()) {
            Ok(v) => r matches Ok(x) && symbol_trees(x@) == v,
            Err(e) => r matches Err(LaibraryError::Parse(m)) && m@ == e,
        },
{
    let ghost src = source_code.spec_bytes();
    let n = list.children.len();
    let mut out: Vec<RustSymbol> = Vec::new();
    let mut k: usize = 0;
    assert(symbol_trees(out@) =~= Seq::<SymbolTree>::empty());
    while k < n
        invariant
            list.wf(src),
            src == source_code.spec_bytes(),
            n == list.children@.len(),
            k <= n,
            list_use_trees(*list, prefix@, k as int, src) == Ok::<Seq<SymbolTree>, Seq<char>>(symbol_trees(out@)),
        decreases n - k,
    {
        let item = &list.children[k];
        assert(item.wf(src));
        if kind_is(item, "use_tree") {
            match crate::syntax::child_by_field_name(item, "name") {
                Some(nf) => {
                    assert(item.children@[nf as int].wf(src));
                    match extract_name(&item.children[nf], source_code) {
                        Some(name) => {
                            let mut path = prefix.clone();
                            path.append(name.as_str());
                            let x = reexport(name, path);
                            proof { lemma_tree_views_push(out@, x); }
                            out.push(x);
                        },
                        None => {
                            proof { lemma_list_use_trees_err(*list, prefix@, k + 1, n as int, src); }
                            return Err(LaibraryError::Parse(String::from_str("Failed to extract name")));
                        },
                    }
                },
                None => {},
            }
        }
        k = k + 1;
    }
    Ok(out)
}

/// The re-exports of a public use declaration.
fn use_declaration_reexports(u: &SyntaxNode, source_code: &str) -> (r: Result<Vec<RustSymbol>, LaibraryError>)
    requires
        u.wf(source_code.spec_bytes()),
    ensures
        match use_reexports(*u, source_code.spec_bytes()) {
            Ok(v) => r matches Ok(x) && symbol_trees(x@) == v,
            Err(e) => r matches Err(LaibraryError::Parse(m)) && m@ == e,
        },
{
    let ghost src = source_code.spec_bytes();
    if let Some(a) = find_child(u, "scoped_identifier") {
        assert(u.children@[a as int].wf(src));
        return Ok(scoped_reexport(&u.children[a], source_code));
    }
    if let Some(b) = find_child(u, "scoped_use_list") {
        let sl = &u.children[b];
        assert(sl.wf(src));
        let prefix = if sl.children.len() > 0 {
            assert(sl.children@[0].wf(src));
            text_of(source_code, &sl.children[0])
        } else {
            String::new()
        };
        return match find_child(sl, "use_list") {
            Some(ul) => {
                assert(sl.children@[ul as int].wf(src));
                Ok(list_identifier_reexports(&sl.children[ul], &prefix, source_code))
            },
            None => {
                let none: Vec<RustSymbol> = Vec::new();
                assert(symbol_trees(none@) =~= Seq::<SymbolTree>::empty());
                Ok(none)
            },
        };
    }
    if let Some(t) = find_child(u, "use_tree") {
        let tree = &u.children[t];
        assert(tree.wf(src));
        let prefix = match crate::syntax::child_by_field_name(tree, "path") {
            Some(pf) => {
                assert(tree.children@[pf as int].wf(src));
                let mut p = text_of(source_code, &tree.children[pf]);
                p.append("::");
                p
            },
            None => String::new(),
        };
        return match find_child(tree, "use_tree_list") {
            Some(l) => {
                assert(tree.children@[l as int].wf(src));
                list_use_tree_reexports(&tree.children[l], &prefix, source_code)
            },
            None => match crate::syntax::child_by_field_name(tree, "name") {
                Some(nf) => {
                    assert(tree.children@[nf as int].wf(src));
                    match extract_name(&tree.children[nf], source_code) {
                        Some(name) => {
                            let mut path = prefix;
                            path.append(name.as_str());
                            let x = reexport(name, path);
                            let mut out: Vec<RustSymbol> = Vec::new();
                            proof {
                                lemma_tree_views_push(Seq::empty(), x);
                                assert(symbol_trees(Seq::<RustSymbol>::empty()) =~= Seq::<SymbolTree>::empty());
                            }
                            out.push(x);
                            assert(out@ =~= Seq::<RustSymbol>::empty().push(x));
                            Ok(out)
                        },
                        None => Err(LaibraryError::Parse(String::from_str("Failed to extract name"))),
                    }
                },
                None => {
                    let none: Vec<RustSymbol> = Vec::new();
                    assert(symbol_trees(none@) =~= Seq::<SymbolTree>::empty());
                    Ok(none)
                },
            },
        };
    }
    let none: Vec<RustSymbol> = Vec::new();
    assert(symbol_trees(none@) =~= Seq::<SymbolTree>::empty());
    Ok(none)
}


proof fn lemma_module_items_err(node: SyntaxNode, src: Seq<u8>, i: int, n: int)
    requires
        0 <= i <= n <= node.children@.len(),
        module_items(node, src, i) is Err,
    ensures
        module_items(node, src, n) == module_items(node, src, i),
    decreases n - i,
{
    if i < n {
        lemma_module_items_err(node, src, i, n - 1);
    }
}

/// The items of a module node in source order: public definitions, the
/// re-exports of public use declarations, public inline modules with their
/// own items, and module declarations.
fn extract_symbols_from_module(module_node: &SyntaxNode, source_code: &str) -> (r: Result<Vec<RustSymbol>, LaibraryError>)
    requires
        module_node.wf(source_code.spec_bytes()),
    ensures
        match module_items(*module_node, source_code.spec_bytes(), module_node.children@.len() as int) {
            Ok(v) => r matches Ok(x) && symbol_trees(x@) == v,
            Err(e) => r matches Err(LaibraryError::Parse(m)) && m@ == e,
        },
    decreases module_node,
{
    let ghost src = source_code.spec_bytes();
    let n = module_node.children.len();
    let mut symbols: Vec<RustSymbol> = Vec::new();
    assert(symbol_trees(symbols@) =~= Seq::<SymbolTree>::empty());
    let mut i: usize = 0;
    while i < n
        invariant
            n == module_node.children@.len(),
            module_node.wf(src),
            src == source_code.spec_bytes(),
            i <= n,
            module_items(*module_node, src, i as int) == Ok::<Seq<SymbolTree>, Seq<char>>(symbol_trees(symbols@)),
        decreases n - i,
    {
        let child = &module_node.children[i];
        assert(child.wf(src));
        if kind_is(child, "function_item") || kind_is(child, "struct_item") || kind_is(child, "enum_item")
            || kind_is(child, "trait_item") || kind_is(child, "macro_definition") {
            if has_visibility_modifier(child) {
                let name = match extract_name(child, source_code) {
                    Some(name) => name,
                    None => {
                        proof { lemma_module_items_err(*module_node, src, i + 1, n as int); }
                        return Err(LaibraryError::Parse(String::from_str("Failed to extract name")));
                    },
                };
                match get_symbol_source_code(module_node, i, source_code) {
                    Ok(code) => {
                        let x = RustSymbol::Symbol { symbol: crate::types::Symbol { name, source_code: code } };
                        proof { lemma_tree_views_push(symbols@, x); }
                        symbols.push(x);
                    },
                    Err(e) => {
                        proof { lemma_module_items_err(*module_node, src, i + 1, n as int); }
                        return Err(e);
                    },
                }
            }
        } else if kind_is(child, "use_declaration") {
            if has_visibility_modifier(child) {
                match use_declaration_reexports(child, source_code) {
                    Ok(mut found) => {
                        proof { lemma_tree_views_append(symbols@, found@); }
                        symbols.append(&mut found);
                    },
                    Err(e) => {
                        proof { lemma_module_items_err(*module_node, src, i + 1, n as int); }
                        return Err(e);
                    },
                }
            }
        } else if kind_is(child, "mod_item") {
            let name = match extract_name(child, source_code) {
                Some(name) => name,
                None => {
                    proof { lemma_module_items_err(*module_node, src, i + 1, n as int); }
                    return Err(LaibraryError::Parse(String::from_str("Failed to extract name")));
                },
            };
            let is_public = has_visibility_modifier(child);
            match find_child(child, "declaration_list") {
                Some(d) => {
                    let dl = &child.children[d];
                    assert(dl.wf(src));
                    match extract_symbols_from_module(dl, source_code) {
                        Ok(content) => {
                            if is_public {
                                let doc_comment = extract_inner_doc_comments(dl, source_code);
                                let x = RustSymbol::Module { name, content, doc_comment };
                                proof { lemma_tree_views_push(symbols@, x); }
                                symbols.push(x);
                            }
                        },
                        Err(e) => {
                            proof { lemma_module_items_err(*module_node, src, i + 1, n as int); }
                            return Err(e);
                        },
                    }
                },
                None => {
                    let x = RustSymbol::ModuleDeclaration { name, is_public };
                    proof { lemma_tree_views_push(symbols@, x); }
                    symbols.push(x);
                },
            }
        }
        i = i + 1;
    }
    Ok(symbols)
}

/// The inner doc comment and the items of a file, read from its syntax tree.
pub open spec fn file_items(root: SyntaxNode, src: Seq<u8>) -> Result<(Option<Seq<char>>, Seq<SymbolTree>), Seq<char>> {
    match module_items(root, src, root.children@.len() as int) {
        Ok(items) => Ok((inner_doc_comment(root, src), items)),
        Err(e) => Err(e),
    }
}

/// Whether `r` is what `expected` describes.
pub open spec fn file_outcome(r: Result<RustFile, LaibraryError>, expected: Result<(Option<Seq<char>>, Seq<SymbolTree>), Seq<char>>) -> bool {
    match expected {
        Ok(v) => r matches Ok(f) && f.view() == v,
        Err(e) => r matches Err(LaibraryError::Parse(m)) && m@ == e,
    }
}

/// Reads a parsed Rust source file: its inner doc comment and its items.
pub fn read_rust_file(content: &str, root: &SyntaxNode) -> (r: Result<RustFile, LaibraryError>)
    requires
        root.wf(content.spec_bytes()),
    ensures
        file_outcome(r, file_items(*root, content.spec_bytes())),
{
    let doc_comment = extract_inner_doc_comments(root, content);
    let symbols = extract_symbols_from_module(root, content)?;
    Ok(RustFile { doc_comment, symbols })
}

/// What parsing the source bytes `src` may give: the failure to get a tree, or
/// the outcome of reading a syntax tree of `src`.
pub open spec fn parse_outcome(r: Result<RustFile, LaibraryError>, src: Seq<u8>) -> bool {
    ||| r matches Err(LaibraryError::Parse(m)) && m@ == "Failed to parse source file"@
    ||| exists|t: SyntaxNode| t.wf(src) && file_outcome(r, file_items(t, src))
}

/// What parsing `text` with a parser ready for the Rust grammar gives: the
/// outcome of reading the copy of its Rust parse, or the parse failure when
/// that parse does not fit the text.
pub open spec fn rust_file_outcome(r: Result<RustFile, LaibraryError>, text: Seq<char>) -> bool {
    if rust_parse_fits(text) {
        exists|t: SyntaxNode| #[trigger] rust_copy(t, text) && file_outcome(r, file_items(t, encode_utf8(text)))
    } else {
        r matches Err(LaibraryError::Parse(m)) && m@ == "Failed to parse source file"@
    }
}

/// Parses Rust source text and reads its inner doc comment and items.
///
/// Fails with "Failed to parse source file" when tree-sitter yields no tree
/// that fits the text; otherwise the outcome is that of `read_rust_file` on the
/// tree it yielded. With a parser ready for the Rust grammar, that tree is the
/// Rust parse of the text.
pub fn parse_rust_file(content: &str, parser: &mut tree_sitter::Parser) -> (r: Result<RustFile, LaibraryError>)
    ensures
        parse_outcome(r, content.spec_bytes()),
        crate::ts::parser_plain(*final(parser)) == crate::ts::parser_plain(*old(parser)),
        crate::ts::parser_ready(*final(parser)) == crate::ts::parser_ready(*old(parser)),
        crate::ts::parser_ready(*old(parser)) ==> rust_file_outcome(r, content@),
{
    match parse_source_tree(parser, content) {
        Some(tree) => read_rust_file(content, &tree.root),
        None => Err(LaibraryError::Parse(String::from_str("Failed to parse source file"))),
    }
}

/// Presenting more of a declaration list only extends the text: the
/// presentation of its first `j` children is a prefix of that of its first `k`.
pub proof fn lemma_trait_body_extends(dl: SyntaxNode, j: int, k: int, src: Seq<u8>)
    requires
        0 <= j <= k <= dl.children@.len(),
        trait_body(dl, k, src) is Ok,
    ensures
        trait_body(dl, j, src) is Ok,
        trait_body(dl, j, src)->Ok_0.len() <= trait_body(dl, k, src)->Ok_0.len(),
        trait_body(dl, k, src)->Ok_0.subrange(0, trait_body(dl, j, src)->Ok_0.len() as int)
            == trait_body(dl, j, src)->Ok_0,
    decreases k - j,
{
    if j < k {
        assert(trait_body(dl, k - 1, src) is Ok);
        lemma_trait_body_extends(dl, j, k - 1, src);
        let a = trait_body(dl, j, src)->Ok_0;
        let b = trait_body(dl, k - 1, src)->Ok_0;
        let c = trait_body(dl, k, src)->Ok_0;
        assert(c.subrange(0, b.len() as int) =~= b);
        assert(c.subrange(0, a.len() as int) =~= b.subrange(0, a.len() as int));
    } else {
        let a = trait_body(dl, j, src)->Ok_0;
        assert(a.subrange(0, a.len() as int) =~= a);
    }
}

/// A trait keeps every method of its declaration list, in source order: the
/// presentation of the list holds, right after the presentation of the
/// children before it, the indented presentation of each `function_item`.
pub proof fn lemma_trait_body_lists_methods(dl: SyntaxNode, j: int, k: int, src: Seq<u8>)
    requires
        0 <= j < k <= dl.children@.len(),
        dl.children@[j].kind@ == "function_item"@,
        trait_body(dl, k, src) is Ok,
    ensures
        symbol_source(dl, j, src) is Ok,
        ({
            let t = trait_body(dl, k, src)->Ok_0;
            let p = trait_body(dl, j, src)->Ok_0;
            let m = indent_lines(symbol_source(dl, j, src)->Ok_0);
            &&& p.len() + m.len() <= t.len()
            &&& t.subrange(0, p.len() as int) == p
            &&& t.subrange(p.len() as int, (p.len() + m.len()) as int) == m
        }),
{
    lemma_trait_body_extends(dl, j + 1, k, src);
    lemma_trait_body_extends(dl, j, k, src);
    let t = trait_body(dl, k, src)->Ok_0;
    let p = trait_body(dl, j, src)->Ok_0;
    let q = trait_body(dl, j + 1, src)->Ok_0;
    assert(symbol_source(dl, j, src) is Ok);
    let m = indent_lines(symbol_source(dl, j, src)->Ok_0);
    assert(q == p + m);
    assert(t.subrange(0, q.len() as int) == q);
    assert(t.subrange(p.len() as int, (p.len() + m.len()) as int) =~= q.subrange(p.len() as int, q.len() as int));
    assert(q.subrange(p.len() as int, q.len() as int) =~= m);
}

/// Children of a declaration list other than `function_item`s add nothing
/// to a trait's presentation, so it is made of the methods alone.
pub proof fn lemma_trait_body_skips_other_items(dl: SyntaxNode, j: int, src: Seq<u8>)
    requires
        0 <= j < dl.children@.len(),
        dl.children@[j].kind@ != "function_item"@,
    ensures
        trait_body(dl, j + 1, src) == trait_body(dl, j, src),
{
}

/// The re-export of an `identifier` child of a use list under `prefix`.
pub open spec fn identifier_reexport(c: SyntaxNode, prefix: Seq<char>, src: Seq<u8>) -> Option<SymbolTree> {
    if c.kind@ == "identifier"@ {
        Some(SymbolTree::Reexport(node_text(src, c), prefix + "::"@ + node_text(src, c)))
    } else {
        None
    }
}

/// A use list re-exports each of its identifiers under the prefix, one each
/// and in source order, and nothing for its other children.
pub proof fn lemma_list_identifiers_are_the_identifiers(list: SyntaxNode, prefix: Seq<char>, k: int, src: Seq<u8>)
    requires
        0 <= k <= list.children@.len(),
    ensures
        list_identifiers(list, prefix, k, src)
            == list.children@.take(k).filter_map(|c: SyntaxNode| identifier_reexport(c, prefix, src)),
    decreases k,
{
    let f = |c: SyntaxNode| identifier_reexport(c, prefix, src);
    if k == 0 {
        assert(list.children@.take(0) =~= Seq::<SyntaxNode>::empty());
    } else {
        lemma_list_identifiers_are_the_identifiers(list, prefix, k - 1, src);
        let t = list.children@.take(k);
        assert(t.drop_last() =~= list.children@.take(k - 1));
        assert(t.last() == list.children@[k - 1]);
        assert(t.filter_map(f) == match f(t.last()) {
            Some(x) => t.drop_last().filter_map(f) + seq![x],
            None => t.drop_last().filter_map(f),
        });
        if let Some(x) = f(t.last()) {
            assert(t.drop_last().filter_map(f) + seq![x] =~= t.drop_last().filter_map(f).push(x));
        }
    }
}

/// Reading more of a use tree list only extends its re-exports: those of its
/// first `j` children are a prefix of those of its first `k`.
pub proof fn lemma_list_use_trees_extends(list: SyntaxNode, prefix: Seq<char>, j: int, k: int, src: Seq<u8>)
    requires
        0 <= j <= k <= list.children@.len(),
        list_use_trees(list, prefix, k, src) is Ok,
    ensures
        list_use_trees(list, prefix, j, src) is Ok,
        list_use_trees(list, prefix, j, src)->Ok_0.len() <= list_use_trees(list, prefix, k, src)->Ok_0.len(),
        list_use_trees(list, prefix, k, src)->Ok_0.subrange(0, list_use_trees(list, prefix, j, src)->Ok_0.len() as int)
            == list_use_trees(list, prefix, j, src)->Ok_0,
    decreases k - j,
{
    if j < k {
        assert(list_use_trees(list, prefix, k - 1, src) is Ok);
        lemma_list_use_trees_extends(list, prefix, j, k - 1, src);
        let a = list_use_trees(list, prefix, j, src)->Ok_0;
        let b = list_use_trees(list, prefix, k - 1, src)->Ok_0;
        let c = list_use_trees(list, prefix, k, src)->Ok_0;
        assert(c.subrange(0, b.len() as int) =~= b);
        assert(c.subrange(0, a.len() as int) =~= b.subrange(0, a.len() as int));
    } else {
        let a = list_use_trees(list, prefix, j, src)->Ok_0;
        assert(a.subrange(0, a.len() as int) =~= a);
    }
}

/// Reading more of a module only extends its items: the items of its first
/// `j` children are a prefix of those of its first `k`.
pub proof fn lemma_module_items_extends(node: SyntaxNode, src: Seq<u8>, j: int, k: int)
    requires
        0 <= j <= k <= node.children@.len(),
        module_items(node, src, k) is Ok,
    ensures
        module_items(node, src, j) is Ok,
        module_items(node, src, j)->Ok_0.len() <= module_items(node, src, k)->Ok_0.len(),
        module_items(node, src, k)->Ok_0.subrange(0, module_items(node, src, j)->Ok_0.len() as int)
            == module_items(node, src, j)->Ok_0,
    decreases k - j,
{
    if j < k {
        assert(module_items(node, src, k - 1) is Ok);
        lemma_module_items_extends(node, src, j, k - 1);
        let a = module_items(node, src, j)->Ok_0;
        let b = module_items(node, src, k - 1)->Ok_0;
        let c = module_items(node, src, k)->Ok_0;
        assert(c.subrange(0, b.len() as int) =~= b);
        assert(c.subrange(0, a.len() as int) =~= b.subrange(0, a.len() as int));
    } else {
        let a = module_items(node, src, j)->Ok_0;
        assert(a.subrange(0, a.len() as int) =~= a);
    }
}

/// A module keeps every public item among its children, in source order: the
/// item of child `i` stands right after the items of the children before it,
/// under its name and with its presentation.
pub proof fn lemma_module_items_keeps_public_items(node: SyntaxNode, src: Seq<u8>, i: int, k: int)
    requires
        0 <= i < k <= node.children@.len(),
        is_item_kind(node.children@[i].kind@),
        has_visibility(node.children@[i]),
        module_items(node, src, k) is Ok,
    ensures
        node_name(node.children@[i], src) is Some,
        symbol_source(node, i, src) is Ok,
        module_items(node, src, i)->Ok_0.len() < module_items(node, src, k)->Ok_0.len(),
        module_items(node, src, k)->Ok_0[module_items(node, src, i)->Ok_0.len() as int] == SymbolTree::Symbol(
            node_name(node.children@[i], src)->Some_0,
            symbol_source(node, i, src)->Ok_0,
        ),
{
    lemma_module_items_extends(node, src, i + 1, k);
    let q = module_items(node, src, i + 1)->Ok_0;
    let t = module_items(node, src, k)->Ok_0;
    assert(module_items(node, src, i) is Ok);
    let p = module_items(node, src, i)->Ok_0;
    assert(q[p.len() as int] == t.subrange(0, q.len() as int)[p.len() as int]);
}

/// A run of attributes right before an item is kept whole, in source order:
/// for the attributes `cs[d..=j]`, the texts read back from `cs[j]` end with
/// each of them, `cs[t]` at `j - t` places from the end.
pub proof fn lemma_attributes_before_keep_run(cs: Seq<SyntaxNode>, d: int, j: int, src: Seq<u8>)
    requires
        0 <= d <= j < cs.len(),
        forall|t: int| d <= t <= j ==> (#[trigger] cs[t]).kind@ == "attribute_item"@,
    ensures
        attributes_before(cs, j, src).len() >= j - d + 1,
        forall|t: int| d <= t <= j ==> attributes_before(cs, j, src)[attributes_before(cs, j, src).len() - 1 - (j - t)]
            == node_text(src, #[trigger] cs[t]),
    decreases j - d,
{
    assert(cs[j].kind@ == "attribute_item"@);
    let r = attributes_before(cs, j, src);
    let p = attributes_before(cs, j - 1, src);
    assert(r == p.push(node_text(src, cs[j])));
    if d < j {
        lemma_attributes_before_keep_run(cs, d, j - 1, src);
        assert forall|t: int| d <= t <= j implies r[r.len() - 1 - (j - t)] == node_text(src, #[trigger] cs[t]) by {
            if t < j {
                assert(r[r.len() - 1 - (j - t)] == p[p.len() - 1 - (j - 1 - t)]);
            }
        }
    }
}

} // verus!
