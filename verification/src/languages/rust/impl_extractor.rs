//! The public items of each module, keyed by the module's path under
//! `rust_crate`, read from parsed source files.

use vstd::prelude::*;
use vstd::string::StringSliceAdditionalSpecFns;
use crate::error::LaibraryError;
use crate::languages::rust::extraction::{is_public, is_public_node};
use crate::lookup::{find_key, key_index, lemma_key_index_range, lemma_key_index_same, map_insert};
use crate::paths::{file_module_components, file_name, module_components, opt_view};
use crate::strings::{find_from, join, join_strings, strip_suffixes, trim_end, views};
use crate::languages::rust::public_members::{member_text, RustPublicMember};
use crate::languages::rust::{member_texts, RustApi};
use crate::parser::rust_parser::rust_syntax_parser;
use crate::syntax::{find_kind, kind_is, lemma_rust_tree_of, node_text, parse_source_tree, rust_tree_fits, rust_tree_of, text_of, SyntaxNode};
use crate::types::{code_views, SourceCode};

verus! {

/// Module paths and the item texts found in each, in the order the paths were
/// first met.
pub type ItemsView = Seq<(Seq<char>, Seq<Seq<char>>)>;

/// The view of module items kept as entries.
pub open spec fn items_view(m: Seq<(String, Vec<String>)>) -> ItemsView {
    m.map_values(|e: (String, Vec<String>)| (e.0@, views(e.1@)))
}

/// `items` added at the end of the list of `k`, which is created when missing.
pub open spec fn add_items(m: ItemsView, k: Seq<char>, items: Seq<Seq<char>>) -> ItemsView {
    let i = key_index(m, k);
    if 0 <= i < m.len() {
        m.update(i, (k, m[i].1 + items))
    } else {
        m.push((k, items))
    }
}

/// The first `j` entries of `other` added to `m` list by list.
pub open spec fn merge_items(m: ItemsView, other: ItemsView, j: int) -> ItemsView
    decreases j,
{
    if j <= 0 || j > other.len() {
        m
    } else {
        add_items(merge_items(m, other, j - 1), other[j - 1].0, other[j - 1].1)
    }
}

/// The first `j` entries of `other` set in `m`, each replacing the list of its path.
pub open spec fn overwrite_items(m: ItemsView, other: ItemsView, j: int) -> ItemsView
    decreases j,
{
    if j <= 0 || j > other.len() {
        m
    } else {
        map_insert(overwrite_items(m, other, j - 1), other[j - 1].0, other[j - 1].1)
    }
}

/// One step of building a function signature: the text so far, whether the
/// return type has begun and whether a `where` clause has.
pub open spec fn signature_step(st: (Seq<char>, bool, bool), part: SyntaxNode, src: Seq<u8>) -> (Seq<char>, bool, bool) {
    let k = part.kind@;
    let t = node_text(src, part);
    if k == "visibility_modifier"@ {
        (st.0 + t + " "@, st.1, st.2)
    } else if k == "fn"@ {
        (st.0 + "fn "@, st.1, st.2)
    } else if k == "identifier"@ || k == "type_parameters"@ || k == "parameters"@ {
        (st.0 + t, st.1, st.2)
    } else if k == "->"@ {
        (st.0 + " -> "@, true, st.2)
    } else if k == "where"@ {
        (st.0 + " where"@, st.1, true)
    } else if st.2 {
        (st.0 + t, st.1, st.2)
    } else if st.1 {
        let u = strip_suffixes(t, ',');
        (st.0 + u + if u.len() > 0 && u.last() == ' ' { Seq::empty() } else { " "@ }, st.1, st.2)
    } else {
        st
    }
}

/// The signature built from the first `k` children.
pub open spec fn signature_fold(cs: Seq<SyntaxNode>, k: int, src: Seq<u8>) -> (Seq<char>, bool, bool)
    decreases k,
{
    if k <= 0 {
        (Seq::empty(), false, false)
    } else {
        signature_step(signature_fold(cs, k - 1, src), cs[k - 1], src)
    }
}

/// A function's signature: built from its children before its body, with
/// `-> ()` added when it holds no `->`, trailing whitespace removed, and `;`.
pub open spec fn item_function_signature(n: SyntaxNode, src: Seq<u8>) -> Seq<char> {
    let b = find_kind(n.children@, "block"@);
    let sig = signature_fold(n.children@, if b >= 0 { b } else { n.children@.len() as int }, src).0;
    let full = if find_from(sig, "->"@, 0) >= 0 { sig } else { sig + " -> ()"@ };
    trim_end(full) + ";"@
}

/// The text an item is listed by: a function's signature, or the item's text.
pub open spec fn item_signature(n: SyntaxNode, src: Seq<u8>) -> Seq<char> {
    if n.kind@ == "function_item"@ {
        item_function_signature(n, src)
    } else {
        node_text(src, n)
    }
}

/// The name of a module item: its first identifier.
pub open spec fn mod_name(n: SyntaxNode, src: Seq<u8>) -> Option<Seq<char>> {
    let i = find_kind(n.children@, "identifier"@);
    if i >= 0 {
        Some(node_text(src, n.children@[i]))
    } else {
        None
    }
}

/// The public items among the first `k` children of `node`, in the module at
/// `path` (`None` for the crate root, whose own items are not listed): public
/// items under the path, public inline modules under `path::name` (or
/// `rust_crate::name` at the root), and what other nodes hold.
pub open spec fn public_items(node: SyntaxNode, src: Seq<u8>, path: Option<Seq<char>>, k: int) -> Result<ItemsView, Seq<char>>
    decreases node, k,
{
    if k <= 0 || k > node.children@.len() {
        Ok(Seq::empty())
    } else {
        match public_items(node, src, path, k - 1) {
            Err(e) => Err(e),
            Ok(m) => {
                let c = node.children@[k - 1];
                if c.kind@ == "mod_item"@ {
                    if !is_public_node(c, src) {
                        Ok(m)
                    } else {
                        match mod_name(c, src) {
                            None => Err("Failed to find module name"@),
                            Some(name) => {
                                let np = match path {
                                    Some(p) => p + "::"@ + name,
                                    None => "rust_crate::"@ + name,
                                };
                                match public_items(c, src, Some(np), c.children@.len() as int) {
                                    Err(e) => Err(e),
                                    Ok(nested) => Ok(overwrite_items(m, nested, nested.len() as int)),
                                }
                            },
                        }
                    }
                } else if c.kind@ == "use_declaration"@ {
                    Ok(m)
                } else if c.kind@ == "function_item"@ || c.kind@ == "struct_item"@ || c.kind@ == "enum_item"@
                    || c.kind@ == "trait_item"@ {
                    if is_public_node(c, src) && path is Some {
                        Ok(add_items(m, path->0, seq![item_signature(c, src)]))
                    } else {
                        Ok(m)
                    }
                } else {
                    match public_items(c, src, path, c.children@.len() as int) {
                        Err(e) => Err(e),
                        Ok(nested) => Ok(merge_items(m, nested, nested.len() as int)),
                    }
                }
            },
        }
    }
}

/// The module path a source file stands for under `rust_crate`: `None` for a
/// `lib.rs`, and for a file other than a `mod.rs` that stands for no module.
pub open spec fn crate_module_path(p: Seq<char>) -> Option<Seq<char>>
    recommends
        file_name(p) is Some,
{
    let name = file_name(p)->0;
    let cs = module_components(p, name);
    if name == "lib.rs"@ {
        None
    } else if cs.len() == 0 && name != "mod.rs"@ {
        None
    } else {
        Some(join(seq!["rust_crate"@] + cs, "::"@))
    }
}

/// The module path of a source file under `rust_crate`, read from its path;
/// an error when the path has no file name.
pub fn determine_module_path(file_path: &str) -> (r: Result<Option<String>, LaibraryError>)
    ensures
        match file_name(file_path@) {
            None => r matches Err(LaibraryError::Parse(m)) && m@ == "Invalid file name"@,
            Some(_) => r matches Ok(o) && opt_view(o) == crate_module_path(file_path@),
        },
{
    let (name, components) = match file_module_components(file_path) {
        Some(found) => found,
        None => return Err(LaibraryError::Parse(String::from_str("Invalid file name"))),
    };
    let lib_rs = crate::strings::to_chars("lib.rs");
    let mod_rs = crate::strings::to_chars("mod.rs");
    if crate::paths::chars_eq(&name, &lib_rs) {
        return Ok(None);
    }
    if components.len() == 0 && !crate::paths::chars_eq(&name, &mod_rs) {
        return Ok(None);
    }
    let mut parts: Vec<String> = Vec::new();
    parts.push(String::from_str("rust_crate"));
    let ghost first = views(parts@);
    assert(first =~= seq!["rust_crate"@]);
    let mut rest = components;
    let ghost r = views(rest@);
    parts.append(&mut rest);
    assert(views(parts@) =~= first + r);
    Ok(Some(join_strings(parts.as_slice(), "::")))
}


/// Adds `items` at the end of the list of `key`, creating it when missing.
fn add_items_to(m: &mut Vec<(String, Vec<String>)>, key: String, items: Vec<String>)
    ensures
        items_view(final(m)@) == add_items(items_view(old(m)@), key@, views(items@)),
{
    let ghost before = items_view(m@);
    let ghost ks = m@.map_values(|e: (String, Vec<String>)| (e.0@, e.1));
    let ghost add = views(items@);
    proof {
        assert forall|j: int| 0 <= j < ks.len() implies ks[j].0 == before[j].0 by {}
        lemma_key_index_same(ks, before, key@, 0);
    }
    let mut items = items;
    match find_key(m, key.as_str()) {
        Some(i) => {
            let mut list = crate::strings::clone_strings(&m[i].1);
            let ghost l0 = views(list@);
            list.append(&mut items);
            assert(views(list@) =~= l0 + add);
            m.set(i, (key, list));
            assert(items_view(m@) =~= before.update(i as int, (key@, before[i as int].1 + add)));
        },
        None => {
            m.push((key, items));
            assert(items_view(m@) =~= before.push((key@, add)));
        },
    }
}

/// Sets the list of `key` to `items`, replacing an earlier one.
fn set_items(m: &mut Vec<(String, Vec<String>)>, key: String, items: Vec<String>)
    ensures
        items_view(final(m)@) == map_insert(items_view(old(m)@), key@, views(items@)),
{
    let ghost before = items_view(m@);
    let ghost ks = m@.map_values(|e: (String, Vec<String>)| (e.0@, e.1));
    let ghost add = views(items@);
    proof {
        assert forall|j: int| 0 <= j < ks.len() implies ks[j].0 == before[j].0 by {}
        lemma_key_index_same(ks, before, key@, 0);
    }
    match find_key(m, key.as_str()) {
        Some(i) => {
            m.set(i, (key, items));
            assert(items_view(m@) =~= before.update(i as int, (key@, add)));
        },
        None => {
            m.push((key, items));
            assert(items_view(m@) =~= before.push((key@, add)));
        },
    }
}

/// Adds the lists of `other` to those of `m`, path by path.
fn merge_into(m: &mut Vec<(String, Vec<String>)>, other: Vec<(String, Vec<String>)>)
    ensures
        items_view(final(m)@) == merge_items(items_view(old(m)@), items_view(other@), other@.len() as int),
{
    let ghost start = items_view(m@);
    let ghost o = items_view(other@);
    let mut j: usize = 0;
    while j < other.len()
        invariant
            j <= other@.len(),
            o == items_view(other@),
            items_view(m@) == merge_items(start, o, j as int),
        decreases other@.len() - j,
    {
        let key = other[j].0.clone();
        let items = crate::strings::clone_strings(&other[j].1);
        add_items_to(m, key, items);
        j = j + 1;
    }
}

/// Sets the lists of `other` in `m`, path by path.
fn overwrite_into(m: &mut Vec<(String, Vec<String>)>, other: Vec<(String, Vec<String>)>)
    ensures
        items_view(final(m)@) == overwrite_items(items_view(old(m)@), items_view(other@), other@.len() as int),
{
    let ghost start = items_view(m@);
    let ghost o = items_view(other@);
    let mut j: usize = 0;
    while j < other.len()
        invariant
            j <= other@.len(),
            o == items_view(other@),
            items_view(m@) == overwrite_items(start, o, j as int),
        decreases other@.len() - j,
    {
        let key = other[j].0.clone();
        let items = crate::strings::clone_strings(&other[j].1);
        set_items(m, key, items);
        j = j + 1;
    }
}

/// The name of a module item: its first identifier.
fn extract_mod_name(node: &SyntaxNode, source_code: &str) -> (r: Result<String, LaibraryError>)
    requires
        node.wf(source_code.spec_bytes()),
    ensures
        match mod_name(*node, source_code.spec_bytes()) {
            Some(n) => r matches Ok(x) && x@ == n,
            None => r matches Err(LaibraryError::Parse(m)) && m@ == "Failed to find module name"@,
        },
{
    match crate::syntax::find_child(node, "identifier") {
        Some(i) => {
            assert(node.children@[i as int].wf(source_code.spec_bytes()));
            Ok(text_of(source_code, &node.children[i]))
        },
        None => Err(LaibraryError::Parse(String::from_str("Failed to find module name"))),
    }
}

/// A function's signature built from its children before its body.
fn extract_function_signature(node: &SyntaxNode, source_code: &str) -> (r: String)
    requires
        node.wf(source_code.spec_bytes()),
    ensures
        r@ == item_function_signature(*node, source_code.spec_bytes()),
{
    let ghost src = source_code.spec_bytes();
    let ghost cs = node.children@;
    let ghost b = find_kind(cs, "block"@);
    let ghost stop: int = if b >= 0 { b } else { cs.len() as int };
    proof { crate::syntax::lemma_find_kind_range(cs, "block"@, 0); }
    let mut signature = String::new();
    let mut in_return_type = false;
    let mut in_where_clause = false;
    let mut i: usize = 0;
    while i < node.children.len()
        invariant
            node.wf(src),
            src == source_code.spec_bytes(),
            cs == node.children@,
            i <= cs.len(),
            i <= stop <= cs.len(),
            forall|j: int| 0 <= j < i ==> cs[j].kind@ != "block"@,
            b == find_kind(cs, "block"@),
            stop == b || b < 0,
            b >= 0 ==> cs[b].kind@ == "block"@,
            b < 0 ==> stop == cs.len(),
            (signature@, in_return_type, in_where_clause) == signature_fold(cs, i as int, src),
        ensures
            (signature@, in_return_type, in_where_clause) == signature_fold(cs, stop, src),
        decreases cs.len() - i,
    {
        let part = &node.children[i];
        assert(part.wf(src));
        if kind_is(part, "block") {
            proof { crate::parser::rust_parser::lemma_first_block(cs, i as int); }
            break;
        }
        if kind_is(part, "visibility_modifier") {
            let t = text_of(source_code, part);
            signature.append(t.as_str());
            signature.append(" ");
        } else if kind_is(part, "fn") {
            signature.append("fn ");
        } else if kind_is(part, "identifier") || kind_is(part, "type_parameters") || kind_is(part, "parameters") {
            let t = text_of(source_code, part);
            signature.append(t.as_str());
        } else if kind_is(part, "->") {
            in_return_type = true;
            signature.append(" -> ");
        } else if kind_is(part, "where") {
            in_where_clause = true;
            signature.append(" where");
        } else if in_where_clause {
            let t = text_of(source_code, part);
            signature.append(t.as_str());
        } else if in_return_type {
            let t = text_of(source_code, part);
            let chars = crate::strings::to_chars(t.as_str());
            let end = crate::strings::skip_suffixes(&chars, chars.len(), ',');
            assert(chars@.subrange(0, chars@.len() as int) =~= chars@);
            let trimmed = crate::strings::string_from_chars(&chars, 0, end);
            signature.append(trimmed.as_str());
            if !(end > 0 && chars[end - 1] == ' ') {
                signature.append(" ");
            }
        }
        i = i + 1;
        proof {
            if b >= 0 && i > b {
                assert(cs[b].kind@ != "block"@);
            }
        }
    }
    proof { reveal_strlit("->"); }
    if !crate::strings::contains_text(signature.as_str(), "->") {
        signature.append(" -> ()");
    }
    let mut r = crate::strings::trim_end_str(signature.as_str());
    r.append(";");
    r
}

/// The text an item is listed by.
fn extract_item_signature(node: &SyntaxNode, source_code: &str) -> (r: Result<String, LaibraryError>)
    requires
        node.wf(source_code.spec_bytes()),
    ensures
        r matches Ok(x) && x@ == item_signature(*node, source_code.spec_bytes()),
{
    if kind_is(node, "function_item") {
        Ok(extract_function_signature(node, source_code))
    } else {
        Ok(text_of(source_code, node))
    }
}

/// The view of an optional string slice.
pub open spec fn str_opt_view(o: Option<&str>) -> Option<Seq<char>> {
    match o {
        Some(s) => Some(s@),
        None => None,
    }
}

proof fn lemma_public_items_err(node: SyntaxNode, src: Seq<u8>, path: Option<Seq<char>>, k: int, n: int)
    requires
        0 <= k <= n <= node.children@.len(),
        public_items(node, src, path, k) is Err,
    ensures
        public_items(node, src, path, n) == public_items(node, src, path, k),
    decreases n - k,
{
    if k < n {
        lemma_public_items_err(node, src, path, k, n - 1);
    }
}

/// The public items under `node`, by module path; `mod_path` is the path of
/// the module the node is in (`None` at the crate root).
fn extract_public_items(
    node: &SyntaxNode,
    source_code: &str,
    mod_path: Option<&str>,
) -> (r: Result<Vec<(String, Vec<String>)>, LaibraryError>)
    requires
        node.wf(source_code.spec_bytes()),
    ensures
        match public_items(*node, source_code.spec_bytes(), str_opt_view(mod_path), node.children@.len() as int) {
            Ok(v) => r matches Ok(x) && items_view(x@) == v,
            Err(e) => r matches Err(LaibraryError::Parse(m)) && m@ == e,
        },
    decreases node,
{
    let ghost src = source_code.spec_bytes();
    let ghost path = str_opt_view(mod_path);
    let n = node.children.len();
    let mut modules: Vec<(String, Vec<String>)> = Vec::new();
    assert(items_view(modules@) =~= Seq::<(Seq<char>, Seq<Seq<char>>)>::empty());
    let mut k: usize = 0;
    while k < n
        invariant
            n == node.children@.len(),
            node.wf(src),
            src == source_code.spec_bytes(),
            path == str_opt_view(mod_path),
            k <= n,
            public_items(*node, src, path, k as int) == Ok::<ItemsView, Seq<char>>(items_view(modules@)),
        decreases n - k,
    {
        let child = &node.children[k];
        assert(child.wf(src));
        if kind_is(child, "mod_item") {
            if is_public(child, source_code) {
                let name = match extract_mod_name(child, source_code) {
                    Ok(name) => name,
                    Err(e) => {
                        proof { lemma_public_items_err(*node, src, path, k + 1, n as int); }
                        return Err(e);
                    },
                };
                let new_path = match mod_path {
                    Some(p) => {
                        let mut q = String::from_str(p);
                        q.append("::");
                        q.append(name.as_str());
                        q
                    },
                    None => {
                        let mut q = String::from_str("rust_crate::");
                        q.append(name.as_str());
                        q
                    },
                };
                match extract_public_items(child, source_code, Some(new_path.as_str())) {
                    Ok(nested) => overwrite_into(&mut modules, nested),
                    Err(e) => {
                        proof { lemma_public_items_err(*node, src, path, k + 1, n as int); }
                        return Err(e);
                    },
                }
            }
        } else if kind_is(child, "use_declaration") {
        } else if kind_is(child, "function_item") || kind_is(child, "struct_item") || kind_is(child, "enum_item")
            || kind_is(child, "trait_item") {
            if is_public(child, source_code) && mod_path.is_some() {
                let item_text = match extract_item_signature(child, source_code) {
                    Ok(t) => t,
                    Err(e) => return Err(e),
                };
                let mut items: Vec<String> = Vec::new();
                items.push(item_text);
                assert(views(items@) =~= seq![item_text@]);
                let key = match mod_path {
                    Some(p) => String::from_str(p),
                    None => String::new(),
                };
                add_items_to(&mut modules, key, items);
            }
        } else {
            match extract_public_items(child, source_code, mod_path) {
                Ok(nested) => merge_into(&mut modules, nested),
                Err(e) => {
                    proof { lemma_public_items_err(*node, src, path, k + 1, n as int); }
                    return Err(e);
                },
            }
        }
        k = k + 1;
    }
    Ok(modules)
}


/// The public items of one parsed file at `path` with text `content`, added
/// to `m`: the items found for a path replace those found before.
pub open spec fn file_items_step(m: ItemsView, path: Seq<char>, content: Seq<char>, root: SyntaxNode) -> Result<ItemsView, Seq<char>> {
    match file_name(path) {
        None => Err("Invalid file name"@),
        Some(_) => match public_items(root, vstd::utf8::encode_utf8(content), crate_module_path(path), root.children@.len() as int) {
            Err(e) => Err(e),
            Ok(items) => Ok(overwrite_items(m, items, items.len() as int)),
        },
    }
}

/// The public items of the first `k` source files (path and text), by module
/// path, each read from the tree in `trees`; a file without a tree fails the
/// whole with "Failed to parse source file: " and its path.
pub open spec fn sources_items(sources: Seq<(Seq<char>, Seq<char>)>, trees: Seq<Option<SyntaxNode>>, k: int) -> Result<ItemsView, Seq<char>>
    decreases k,
{
    if k <= 0 || k > sources.len() {
        Ok(Seq::empty())
    } else {
        match sources_items(sources, trees, k - 1) {
            Err(e) => Err(e),
            Ok(m) => match trees[k - 1] {
                None => Err("Failed to parse source file: "@ + sources[k - 1].0),
                Some(root) => file_items_step(m, sources[k - 1].0, sources[k - 1].1, root),
            },
        }
    }
}

/// Whether `trees` are what copying the `tree_sitter_rust` parse of each
/// source text gives.
pub open spec fn source_trees(sources: Seq<(Seq<char>, Seq<char>)>, trees: Seq<Option<SyntaxNode>>) -> bool {
    &&& trees.len() == sources.len()
    &&& forall|i: int| 0 <= i < sources.len() ==> rust_tree_fits(#[trigger] trees[i], sources[i].1)
}

proof fn lemma_sources_items_err(sources: Seq<(Seq<char>, Seq<char>)>, trees: Seq<Option<SyntaxNode>>, k: int, n: int)
    requires
        0 <= k <= n <= sources.len(),
        sources_items(sources, trees, k) is Err,
    ensures
        sources_items(sources, trees, n) == sources_items(sources, trees, k),
    decreases n - k,
{
    if k < n {
        lemma_sources_items_err(sources, trees, k, n - 1);
    }
}

proof fn lemma_sources_items_prefix(sources: Seq<(Seq<char>, Seq<char>)>, a: Seq<Option<SyntaxNode>>, b: Seq<Option<SyntaxNode>>, k: int)
    requires
        0 <= k <= a.len(),
        k <= b.len(),
        forall|i: int| 0 <= i < k ==> a[i] == b[i],
    ensures
        sources_items(sources, a, k) == sources_items(sources, b, k),
    decreases k,
{
    if k > 0 {
        lemma_sources_items_prefix(sources, a, b, k - 1);
    }
}

/// The trees of the files handled so far, followed by the Rust parses of the
/// others: trees of all the files, which give the failure met at file `k`.
proof fn lemma_fill_trees(sources: Seq<(Seq<char>, Seq<char>)>, trees: Seq<Option<SyntaxNode>>, k: int)
    requires
        0 < k <= sources.len(),
        trees.len() == k,
        forall|i: int| 0 <= i < k ==> rust_tree_fits(#[trigger] trees[i], sources[i].1),
        sources_items(sources, trees, k) is Err,
    ensures
        ({
            let full = trees + Seq::new((sources.len() - k) as nat, |j: int| rust_tree_of(sources[k + j].1));
            &&& source_trees(sources, full)
            &&& sources_items(sources, full, sources.len() as int) == sources_items(sources, trees, k)
        }),
{
    let full = trees + Seq::new((sources.len() - k) as nat, |j: int| rust_tree_of(sources[k + j].1));
    assert forall|i: int| 0 <= i < sources.len() implies rust_tree_fits(#[trigger] full[i], sources[i].1) by {
        if i < k {
            assert(full[i] == trees[i]);
        } else {
            lemma_rust_tree_of(sources[i].1);
        }
    }
    lemma_sources_items_prefix(sources, trees, full, k);
    lemma_sources_items_err(sources, full, k, sources.len() as int);
}

/// Whether a member is known only by its text: a nameless macro without doc
/// comment whose definition is the text.
pub open spec fn is_text_member(m: RustPublicMember) -> bool {
    m matches RustPublicMember::Macro(x) && x.name@ == Seq::<char>::empty() && x.doc_comment is None
}

/// Whether every member of an API is known only by its text.
pub open spec fn text_members(api: RustApi) -> bool {
    forall|a: int, b: int| 0 <= a < api.modules@.len() && 0 <= b < api.modules@[a].1@.len()
        ==> #[trigger] is_text_member(api.modules@[a].1@[b])
}

/// The API of the crate made of `sources`: the public items of each file by
/// module path, each item kept as its text in a nameless macro member. Each
/// file is parsed with a parser set to the Rust grammar.
pub fn extract_public_api(sources: &[SourceCode]) -> (r: Result<RustApi, LaibraryError>)
    ensures
        exists|trees: Seq<Option<SyntaxNode>>| source_trees(code_views(sources@), trees)
            && match #[trigger] sources_items(code_views(sources@), trees, sources@.len() as int) {
                Ok(v) => r matches Ok(api) && api.view() == v && text_members(api),
                Err(e) => r matches Err(LaibraryError::Parse(m)) && m@ == e,
            },
{
    let ghost codes = code_views(sources@);
    let mut parser = rust_syntax_parser()?;
    let n = sources.len();
    let mut all_modules: Vec<(String, Vec<String>)> = Vec::new();
    assert(items_view(all_modules@) =~= Seq::<(Seq<char>, Seq<Seq<char>>)>::empty());
    let ghost mut trees: Seq<Option<SyntaxNode>> = Seq::empty();
    let mut i: usize = 0;
    while i < n
        invariant
            n == sources@.len(),
            codes == code_views(sources@),
            i <= n,
            trees.len() == i,
            crate::ts::parser_ready(parser),
            forall|j: int| 0 <= j < i ==> rust_tree_fits(#[trigger] trees[j], codes[j].1),
            sources_items(codes, trees, i as int) == Ok::<ItemsView, Seq<char>>(items_view(all_modules@)),
        decreases n - i,
    {
        let source = &sources[i];
        assert(codes[i as int] == (source.path@, source.content@));
        let ghost before = trees;
        let tree = match parse_source_tree(&mut parser, source.content.as_str()) {
            Some(t) => t,
            None => {
                let mut m = String::from_str("Failed to parse source file: ");
                m.append(source.path.as_str());
                proof {
                    trees = trees.push(None);
                    lemma_sources_items_prefix(codes, before, trees, i as int);
                    lemma_fill_trees(codes, trees, i + 1);
                }
                return Err(LaibraryError::Parse(m));
            },
        };
        proof {
            trees = trees.push(Some(tree.root));
            lemma_sources_items_prefix(codes, before, trees, i as int);
        }
        let path = match determine_module_path(source.path.as_str()) {
            Ok(p) => p,
            Err(e) => {
                proof { lemma_fill_trees(codes, trees, i + 1); }
                return Err(e);
            },
        };
        let found = match &path {
            Some(p) => extract_public_items(&tree.root, source.content.as_str(), Some(p.as_str())),
            None => extract_public_items(&tree.root, source.content.as_str(), None),
        };
        match found {
            Ok(items) => overwrite_into(&mut all_modules, items),
            Err(e) => {
                proof { lemma_fill_trees(codes, trees, i + 1); }
                return Err(e);
            },
        }
        i = i + 1;
    }
    let ghost all = items_view(all_modules@);
    let mut modules: Vec<(String, Vec<RustPublicMember>)> = Vec::new();
    let mut j: usize = 0;
    while j < all_modules.len()
        invariant
            j <= all_modules@.len(),
            all == items_view(all_modules@),
            modules@.map_values(|e: (String, Vec<RustPublicMember>)| (e.0@, member_texts(e.1@))) == all.subrange(0, j as int),
            forall|a: int, b: int| 0 <= a < modules@.len() && 0 <= b < modules@[a].1@.len()
                ==> #[trigger] is_text_member(modules@[a].1@[b]),
        decreases all_modules@.len() - j,
    {
        let ghost before = modules@.map_values(|e: (String, Vec<RustPublicMember>)| (e.0@, member_texts(e.1@)));
        let (name, texts) = &all_modules[j];
        let mut members: Vec<RustPublicMember> = Vec::new();
        let mut t: usize = 0;
        while t < texts.len()
            invariant
                t <= texts@.len(),
                member_texts(members@) == views(texts@).subrange(0, t as int),
                forall|b: int| 0 <= b < members@.len() ==> #[trigger] is_text_member(members@[b]),
            decreases texts@.len() - t,
        {
            let ghost b = member_texts(members@);
            let m = RustPublicMember::from(texts[t].clone());
            members.push(m);
            assert(member_texts(members@) =~= b.push(member_text(m)));
            assert(views(texts@).subrange(0, t + 1) =~= views(texts@).subrange(0, t as int).push(texts@[t as int]@));
            t = t + 1;
        }
        assert(views(texts@).subrange(0, texts@.len() as int) =~= views(texts@));
        modules.push((name.clone(), members));
        assert(modules@.map_values(|e: (String, Vec<RustPublicMember>)| (e.0@, member_texts(e.1@)))
            =~= before.push((name@, views(texts@))));
        assert(all.subrange(0, j + 1) =~= all.subrange(0, j as int).push(all[j as int]));
        j = j + 1;
    }
    assert(all.subrange(0, all.len() as int) =~= all);
    assert(source_trees(codes, trees));
    Ok(RustApi { modules })
}

} // verus!

verus! {

/// No module path occurs twice.
pub open spec fn distinct_paths(m: ItemsView) -> bool {
    forall|i: int, j: int| 0 <= i < j < m.len() ==> m[i].0 != m[j].0
}

proof fn lemma_add_items_distinct(m: ItemsView, k: Seq<char>, items: Seq<Seq<char>>)
    requires
        distinct_paths(m),
    ensures
        distinct_paths(add_items(m, k, items)),
        distinct_paths(map_insert(m, k, items)),
{
    lemma_key_index_range(m, k, 0);
}

proof fn lemma_merge_distinct(m: ItemsView, other: ItemsView, j: int)
    requires
        distinct_paths(m),
    ensures
        distinct_paths(merge_items(m, other, j)),
        distinct_paths(overwrite_items(m, other, j)),
    decreases j,
{
    if 0 < j <= other.len() {
        lemma_merge_distinct(m, other, j - 1);
        lemma_add_items_distinct(merge_items(m, other, j - 1), other[j - 1].0, other[j - 1].1);
        lemma_add_items_distinct(overwrite_items(m, other, j - 1), other[j - 1].0, other[j - 1].1);
    }
}

/// The public items found under a node are listed under distinct module paths.
pub proof fn lemma_public_items_distinct(node: SyntaxNode, src: Seq<u8>, path: Option<Seq<char>>, k: int)
    ensures
        public_items(node, src, path, k) matches Ok(m) ==> distinct_paths(m),
    decreases node, k,
{
    if 0 < k <= node.children@.len() {
        lemma_public_items_distinct(node, src, path, k - 1);
        if let Ok(m) = public_items(node, src, path, k - 1) {
            let c = node.children@[k - 1];
            if c.kind@ == "mod_item"@ {
                if is_public_node(c, src) {
                    if let Some(name) = mod_name(c, src) {
                        let np = match path {
                            Some(p) => p + "::"@ + name,
                            None => "rust_crate::"@ + name,
                        };
                        if let Ok(nested) = public_items(c, src, Some(np), c.children@.len() as int) {
                            lemma_merge_distinct(m, nested, nested.len() as int);
                        }
                    }
                }
            } else if c.kind@ == "use_declaration"@ {
            } else if c.kind@ == "function_item"@ || c.kind@ == "struct_item"@ || c.kind@ == "enum_item"@
                || c.kind@ == "trait_item"@ {
                if is_public_node(c, src) && path is Some {
                    lemma_add_items_distinct(m, path->0, seq![item_signature(c, src)]);
                }
            } else {
                if let Ok(nested) = public_items(c, src, path, c.children@.len() as int) {
                    lemma_merge_distinct(m, nested, nested.len() as int);
                }
            }
        }
    }
}

/// The API of a crate lists each module path once.
pub proof fn lemma_sources_items_distinct(sources: Seq<(Seq<char>, Seq<char>)>, trees: Seq<Option<SyntaxNode>>, k: int)
    ensures
        sources_items(sources, trees, k) matches Ok(m) ==> distinct_paths(m),
    decreases k,
{
    if 0 < k <= sources.len() {
        lemma_sources_items_distinct(sources, trees, k - 1);
        if let Ok(m) = sources_items(sources, trees, k - 1) {
            if let Some(root) = trees[k - 1] {
                let path = sources[k - 1].0;
                if file_name(path) is Some {
                    if let Ok(items) = public_items(root, vstd::utf8::encode_utf8(sources[k - 1].1),
                        crate_module_path(path), root.children@.len() as int) {
                        lemma_merge_distinct(m, items, items.len() as int);
                    }
                }
            }
        }
    }
}

/// The items listed for a path, or none.
pub open spec fn listed(m: ItemsView, k: Seq<char>) -> Seq<Seq<char>> {
    match crate::lookup::map_get(m, k) {
        Some(l) => l,
        None => Seq::empty(),
    }
}

/// Adding items to a path lists them after the items it had, and leaves every
/// other path as it was.
pub proof fn lemma_add_items_get(m: ItemsView, k: Seq<char>, items: Seq<Seq<char>>, q: Seq<char>)
    ensures
        crate::lookup::map_get(add_items(m, k, items), q) == if q == k {
            Some(listed(m, k) + items)
        } else {
            crate::lookup::map_get(m, q)
        },
{
    lemma_key_index_range(m, k, 0);
    if 0 <= key_index(m, k) < m.len() {
        assert(add_items(m, k, items) == map_insert(m, k, listed(m, k) + items));
    } else {
        assert(Seq::<Seq<char>>::empty() + items =~= items);
        assert(add_items(m, k, items) == map_insert(m, k, listed(m, k) + items));
    }
    crate::lookup::lemma_map_insert_get(m, k, listed(m, k) + items, q);
}

/// Merging lists into a map never drops an item: each path keeps its items as
/// the start of its list, and every path merged in is listed.
pub proof fn lemma_merge_items_keeps(m: ItemsView, other: ItemsView, j: int, q: Seq<char>)
    requires
        0 <= j <= other.len(),
    ensures
        listed(m, q).len() <= listed(merge_items(m, other, j), q).len(),
        listed(merge_items(m, other, j), q).subrange(0, listed(m, q).len() as int) == listed(m, q),
        crate::lookup::map_get(m, q) is Some ==> crate::lookup::map_get(merge_items(m, other, j), q) is Some,
        (exists|t: int| 0 <= t < j && #[trigger] other[t].0 == q) ==> crate::lookup::map_get(merge_items(m, other, j), q) is Some,
    decreases j,
{
    if j > 0 {
        lemma_merge_items_keeps(m, other, j - 1, q);
        let prev = merge_items(m, other, j - 1);
        lemma_add_items_get(prev, other[j - 1].0, other[j - 1].1, q);
        let a = listed(m, q);
        let b = listed(prev, q);
        let c = listed(merge_items(m, other, j), q);
        if other[j - 1].0 == q {
            assert(c == b + other[j - 1].1);
            assert(c.subrange(0, a.len() as int) =~= b.subrange(0, a.len() as int));
        } else {
            assert(c == b);
            if exists|t: int| 0 <= t < j && #[trigger] other[t].0 == q {
                let t = choose|t: int| 0 <= t < j && #[trigger] other[t].0 == q;
                assert(t < j - 1);
            }
        }
    } else {
        let a = listed(m, q);
        assert(a.subrange(0, a.len() as int) =~= a);
    }
}

/// Setting lists into a map gives each path the list of its last entry among
/// those set, and leaves the paths not set as they were.
pub proof fn lemma_overwrite_items_get(m: ItemsView, other: ItemsView, j: int, q: Seq<char>)
    requires
        0 <= j <= other.len(),
    ensures
        (forall|t: int| 0 <= t < j ==> #[trigger] other[t].0 != q)
            ==> crate::lookup::map_get(overwrite_items(m, other, j), q) == crate::lookup::map_get(m, q),
        forall|t: int| 0 <= t < j && #[trigger] other[t].0 == q
            && (forall|u: int| t < u < j ==> #[trigger] other[u].0 != q)
            ==> crate::lookup::map_get(overwrite_items(m, other, j), q) == Some(other[t].1),
    decreases j,
{
    if j > 0 {
        lemma_overwrite_items_get(m, other, j - 1, q);
        crate::lookup::lemma_map_insert_get(overwrite_items(m, other, j - 1), other[j - 1].0, other[j - 1].1, q);
        assert forall|t: int| 0 <= t < j && #[trigger] other[t].0 == q
            && (forall|u: int| t < u < j ==> #[trigger] other[u].0 != q)
            implies crate::lookup::map_get(overwrite_items(m, other, j), q) == Some(other[t].1) by {
            if t < j - 1 {
                assert(other[j - 1].0 != q);
            }
        }
    }
}

} // verus!
