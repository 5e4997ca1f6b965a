//! The Rust parser: manifest, README and the public items of every source file.

use vstd::prelude::*;
use vstd::string::StringSliceAdditionalSpecFns;
use crate::error::LaibraryError;
use crate::languages::rust::extraction::is_public_node;
use crate::strings::{join, replace_all, strip_suffixes};
use crate::languages::rust::metadata::{
    lemma_manifest_reading, manifest_refusal, package_identity, read_manifest, reports_refused_manifest, text_identity,
    toml_accepts,
};
use crate::parser::{LibraryFiles, LibraryParser};
use crate::syntax::{find_kind, lemma_rust_tree_of, node_text, rust_tree_fits, rust_tree_of, text_of, kind_is, SyntaxNode};
use crate::types::LibraryInfo;

verus! {

/// Rust-specific parser.
pub struct RustParser;

/// One step of building a function signature from the children of its node:
/// the text so far and whether the return type has begun.
pub open spec fn sig_step(st: (Seq<char>, bool), part: SyntaxNode, src: Seq<u8>) -> (Seq<char>, bool) {
    let k = part.kind@;
    let t = node_text(src, part);
    if k == "visibility_modifier"@ {
        (st.0 + t + " "@, st.1)
    } else if k == "fn"@ {
        (st.0 + "fn "@, st.1)
    } else if k == "identifier"@ || k == "type_parameters"@ || k == "parameters"@ {
        (st.0 + t, st.1)
    } else if k == "->"@ {
        (st.0 + " -> "@, true)
    } else if k == "where"@ {
        (st.0 + "where"@, st.1)
    } else if st.1 {
        (st.0 + strip_suffixes(t, ','), st.1)
    } else {
        st
    }
}

/// The signature built from the first `k` children.
pub open spec fn sig_fold(cs: Seq<SyntaxNode>, k: int, src: Seq<u8>) -> (Seq<char>, bool)
    decreases k,
{
    if k <= 0 {
        (Seq::empty(), false)
    } else {
        sig_step(sig_fold(cs, k - 1, src), cs[k - 1], src)
    }
}

/// The signature built from the children of a function before its body.
pub open spec fn signature_parts(n: SyntaxNode, src: Seq<u8>) -> (Seq<char>, bool) {
    let b = find_kind(n.children@, "block"@);
    sig_fold(n.children@, if b >= 0 { b } else { n.children@.len() as int }, src)
}

/// A public function presented by its signature: `-> ()` added when it names
/// no return type, a space put before `where`, and `;` and a blank line after.
pub open spec fn function_signature(n: SyntaxNode, src: Seq<u8>) -> Seq<char> {
    let (sig, in_ret) = signature_parts(n, src);
    if sig.len() == 0 {
        Seq::empty()
    } else {
        let full = if in_ret { sig } else { sig + " -> ()"@ };
        replace_all(replace_all(full, "where"@, " where"@), "  where"@, " where"@) + ";\n\n"@
    }
}

/// Kinds of the items that a public API lists.
pub open spec fn is_api_kind(k: Seq<char>) -> bool {
    ||| k == "function_item"@
    ||| k == "struct_item"@
    ||| k == "enum_item"@
    ||| k == "trait_item"@
    ||| k == "mod_item"@
}

/// The public API text of the first `k` children of `node`: each public item
/// (a function by its signature, any other by its text and a blank line), and
/// the public API of every node that is not an item, found recursively.
pub open spec fn api_children(node: SyntaxNode, k: int, src: Seq<u8>) -> Seq<char>
    decreases node, k,
{
    if k <= 0 || k > node.children@.len() {
        Seq::empty()
    } else {
        let c = node.children@[k - 1];
        api_children(node, k - 1, src) + if is_api_kind(c.kind@) {
            if !is_public_node(c, src) {
                Seq::empty()
            } else if c.kind@ == "function_item"@ {
                function_signature(c, src)
            } else {
                node_text(src, c) + "\n\n"@
            }
        } else {
            api_children(c, c.children@.len() as int, src)
        }
    }
}

/// The public API text of a syntax tree.
pub open spec fn public_api(node: SyntaxNode, src: Seq<u8>) -> Seq<char> {
    api_children(node, node.children@.len() as int, src)
}

/// The signature of a public function, built from the children before its body.
fn extract_function_signature(node: &SyntaxNode, source_code: &str) -> (r: String)
    requires
        node.wf(source_code.spec_bytes()),
    ensures
        r@ == function_signature(*node, source_code.spec_bytes()),
{
    let ghost src = source_code.spec_bytes();
    let ghost cs = node.children@;
    let ghost b = find_kind(cs, "block"@);
    let ghost stop: int = if b >= 0 { b } else { cs.len() as int };
    proof { crate::syntax::lemma_find_kind_range(cs, "block"@, 0); }
    let mut signature = String::new();
    let mut in_return_type = false;
    let mut i: usize = 0;
    while i < node.children.len()
        invariant
            node.wf(src),
            src == source_code.spec_bytes(),
            cs == node.children@,
            i <= cs.len(),
            i <= stop <= cs.len(),
            forall|j: int| 0 <= j < i ==> cs[j].kind@ != "block"@,
            b == find_kind(cs, "block"@),
            stop == b || b < 0,
            b >= 0 ==> cs[b].kind@ == "block"@,
            b < 0 ==> stop == cs.len(),
            (signature@, in_return_type) == sig_fold(cs, i as int, src),
        ensures
            (signature@, in_return_type) == sig_fold(cs, stop, src),
        decreases cs.len() - i,
    {
        let part = &node.children[i];
        assert(part.wf(src));
        if kind_is(part, "block") {
            proof { lemma_first_block(cs, i as int); }
            break;
        }
        if kind_is(part, "visibility_modifier") {
            let t = text_of(source_code, part);
            signature.append(t.as_str());
            signature.append(" ");
        } else if kind_is(part, "fn") {
            signature.append("fn ");
        } else if kind_is(part, "identifier") || kind_is(part, "type_parameters") || kind_is(part, "parameters") {
            let t = text_of(source_code, part);
            signature.append(t.as_str());
        } else if kind_is(part, "->") {
            in_return_type = true;
            signature.append(" -> ");
        } else if kind_is(part, "where") {
            signature.append("where");
        } else if in_return_type {
            let t = text_of(source_code, part);
            let chars = crate::strings::to_chars(t.as_str());
            let end = crate::strings::skip_suffixes(&chars, chars.len(), ',');
            assert(chars@.subrange(0, chars@.len() as int) =~= chars@);
            let trimmed = crate::strings::string_from_chars(&chars, 0, end);
            signature.append(trimmed.as_str());
        }
        i = i + 1;
        proof {
            if b < 0 {
                assert(i <= stop);
            } else if i > b {
                assert(cs[b].kind@ != "block"@);
            }
        }
    }
    if signature.as_str().is_empty() {
        return signature;
    }
    if !in_return_type {
        signature.append(" -> ()");
    }
    proof {
        reveal_strlit("where");
        reveal_strlit("  where");
    }
    let s1 = crate::strings::replace_str(signature.as_str(), "where", " where");
    let mut s2 = crate::strings::replace_str(s1.as_str(), "  where", " where");
    s2.append(";\n\n");
    s2
}

pub(crate) proof fn lemma_first_block(cs: Seq<SyntaxNode>, i: int)
    requires
        0 <= i < cs.len(),
        cs[i].kind@ == "block"@,
        forall|j: int| 0 <= j < i ==> cs[j].kind@ != "block"@,
    ensures
        find_kind(cs, "block"@) == i,
{
    lemma_find_from_at(cs, 0, i);
}

proof fn lemma_find_from_at(cs: Seq<SyntaxNode>, j: int, i: int)
    requires
        0 <= j <= i < cs.len(),
        cs[i].kind@ == "block"@,
        forall|t: int| 0 <= t < i ==> cs[t].kind@ != "block"@,
    ensures
        crate::syntax::find_kind_from(cs, "block"@, j) == i,
    decreases i - j,
{
    if j < i {
        lemma_find_from_at(cs, j + 1, i);
    }
}


/// The public API text of a syntax tree: public items in source order, a
/// function by its signature and any other item by its text, each followed by
/// a blank line, looking inside every node that is not an item.
fn extract_public_api(node: &SyntaxNode, source_code: &str) -> (r: Result<String, LaibraryError>)
    requires
        node.wf(source_code.spec_bytes()),
    ensures
        r matches Ok(api) && api@ == public_api(*node, source_code.spec_bytes()),
    decreases node,
{
    let ghost src = source_code.spec_bytes();
    let mut api = String::new();
    let mut k: usize = 0;
    while k < node.children.len()
        invariant
            node.wf(src),
            src == source_code.spec_bytes(),
            k <= node.children@.len(),
            api@ == api_children(*node, k as int, src),
        decreases node.children@.len() - k,
    {
        let child = &node.children[k];
        assert(child.wf(src));
        if kind_is(child, "function_item") || kind_is(child, "struct_item") || kind_is(child, "enum_item")
            || kind_is(child, "trait_item") || kind_is(child, "mod_item") {
            if crate::languages::rust::extraction::is_public(child, source_code) {
                if kind_is(child, "function_item") {
                    let signature = extract_function_signature(child, source_code);
                    api.append(signature.as_str());
                } else {
                    let text = text_of(source_code, child);
                    api.append(text.as_str());
                    api.append("\n\n");
                }
            }
        } else {
            match extract_public_api(child, source_code) {
                Ok(child_api) => api.append(child_api.as_str()),
                Err(_) => {},
            }
        }
        k = k + 1;
    }
    Ok(api)
}

/// The public API of the source files in order, or the first failure: a file
/// that could not be read, or one with text that yielded no syntax tree.
/// Blank files are passed over; `trees` holds the tree each file yielded.
pub open spec fn sources_api(
    texts: Seq<crate::languages::rust::api::symbol_collection::SourceText>,
    trees: Seq<Option<SyntaxNode>>,
    k: int,
) -> Result<Seq<char>, Seq<char>>
    decreases k,
{
    if k <= 0 || k > texts.len() {
        Ok(Seq::empty())
    } else {
        match sources_api(texts, trees, k - 1) {
            Err(e) => Err(e),
            Ok(acc) => match texts[k - 1].1 {
                Err(e) => Err("Failed to read source file: "@ + e@),
                Ok(c) => if crate::strings::trim(c@).len() == 0 {
                    Ok(acc)
                } else {
                    match trees[k - 1] {
                        None => Err("Failed to parse source file: "@ + texts[k - 1].0@),
                        Some(t) => Ok(acc + public_api(t, vstd::utf8::encode_utf8(c@))),
                    }
                },
            },
        }
    }
}

/// Whether `trees` could be the trees tree-sitter yielded for the texts: one
/// per file, each spanning its file's text.
pub open spec fn trees_fit(
    texts: Seq<crate::languages::rust::api::symbol_collection::SourceText>,
    trees: Seq<Option<SyntaxNode>>,
) -> bool {
    &&& trees.len() == texts.len()
    &&& forall|i: int| 0 <= i < texts.len() ==> match (#[trigger] trees[i], texts[i].1) {
        (Some(t), Ok(c)) => t.wf(vstd::utf8::encode_utf8(c@)),
        _ => true,
    }
}

/// The tree the Rust parse of a listed file's text gives, if it was read.
pub open spec fn text_tree(t: crate::languages::rust::api::symbol_collection::SourceText) -> Option<SyntaxNode> {
    match t.1 {
        Ok(c) => rust_tree_of(c@),
        Err(_) => None,
    }
}

/// Whether `trees` are what copying the `tree_sitter_rust` parse of each read
/// text gives.
pub open spec fn rust_trees(
    texts: Seq<crate::languages::rust::api::symbol_collection::SourceText>,
    trees: Seq<Option<SyntaxNode>>,
) -> bool {
    &&& trees.len() == texts.len()
    &&& forall|i: int| 0 <= i < texts.len() ==> match texts[i].1 {
        Ok(c) => rust_tree_fits(#[trigger] trees[i], c@),
        Err(_) => true,
    }
}

proof fn lemma_sources_api_err(
    texts: Seq<crate::languages::rust::api::symbol_collection::SourceText>,
    trees: Seq<Option<SyntaxNode>>,
    k: int,
    n: int,
)
    requires
        0 <= k <= n <= texts.len(),
        sources_api(texts, trees, k) is Err,
    ensures
        sources_api(texts, trees, n) == sources_api(texts, trees, k),
    decreases n - k,
{
    if k < n {
        lemma_sources_api_err(texts, trees, k, n - 1);
    }
}

proof fn lemma_sources_api_prefix(
    texts: Seq<crate::languages::rust::api::symbol_collection::SourceText>,
    a: Seq<Option<SyntaxNode>>,
    b: Seq<Option<SyntaxNode>>,
    k: int,
)
    requires
        0 <= k <= a.len(),
        k <= b.len(),
        forall|i: int| 0 <= i < k ==> a[i] == b[i],
    ensures
        sources_api(texts, a, k) == sources_api(texts, b, k),
    decreases k,
{
    if k > 0 {
        lemma_sources_api_prefix(texts, a, b, k - 1);
    }
}

/// Trees read so far, followed by the Rust parses of the remaining texts,
/// fit the texts and are their parses.
proof fn lemma_filled_trees(
    texts: Seq<crate::languages::rust::api::symbol_collection::SourceText>,
    trees: Seq<Option<SyntaxNode>>,
    full: Seq<Option<SyntaxNode>>,
)
    requires
        trees.len() <= texts.len(),
        full.len() == texts.len(),
        forall|j: int| 0 <= j < trees.len() ==> full[j] == trees[j],
        forall|j: int| trees.len() <= j < texts.len() ==> full[j] == text_tree(texts[j]),
        forall|j: int| 0 <= j < trees.len() ==> match (#[trigger] trees[j], texts[j].1) {
            (Some(t), Ok(c)) => t.wf(vstd::utf8::encode_utf8(c@)),
            _ => true,
        },
        forall|j: int| 0 <= j < trees.len() ==> match texts[j].1 {
            Ok(c) => rust_tree_fits(#[trigger] trees[j], c@),
            Err(_) => true,
        },
    ensures
        trees_fit(texts, full),
        rust_trees(texts, full),
{
    assert forall|j: int| trees.len() <= j < texts.len() implies match (#[trigger] full[j], texts[j].1) {
        (Some(t), Ok(c)) => t.wf(vstd::utf8::encode_utf8(c@)),
        _ => true,
    } && match texts[j].1 {
        Ok(c) => rust_tree_fits(full[j], c@),
        Err(_) => true,
    } by {
        if let Ok(c) = texts[j].1 {
            lemma_rust_tree_of(c@);
        }
    }
    assert forall|j: int| 0 <= j < texts.len() implies match (#[trigger] full[j], texts[j].1) {
        (Some(t), Ok(c)) => t.wf(vstd::utf8::encode_utf8(c@)),
        _ => true,
    } by {
        if j < trees.len() {
            assert(full[j] == trees[j]);
        }
    }
    assert forall|j: int| 0 <= j < texts.len() implies match texts[j].1 {
        Ok(c) => rust_tree_fits(#[trigger] full[j], c@),
        Err(_) => true,
    } by {
        if j < trees.len() {
            assert(full[j] == trees[j]);
        }
    }
}

/// The public API of the source files, each parsed with `parser`, which is
/// ready for the Rust grammar.
fn api_of_sources(
    texts: &Vec<crate::languages::rust::api::symbol_collection::SourceText>,
    parser: &mut tree_sitter::Parser,
) -> (r: Result<String, LaibraryError>)
    requires
        crate::ts::parser_ready(*old(parser)),
    ensures
        exists|trees: Seq<Option<SyntaxNode>>| trees_fit(texts@, trees) && rust_trees(texts@, trees)
            && match sources_api(texts@, trees, texts@.len() as int) {
                Ok(a) => r matches Ok(x) && x@ == a,
                Err(e) => r matches Err(LaibraryError::Parse(m)) && m@ == e,
            },
{
    let ghost mut trees: Seq<Option<SyntaxNode>> = Seq::empty();
    let mut api = String::new();
    let n = texts.len();
    let mut i: usize = 0;
    while i < n
        invariant
            n == texts@.len(),
            i <= n,
            trees.len() == i,
            forall|j: int| 0 <= j < i ==> match (#[trigger] trees[j], texts@[j].1) {
                (Some(t), Ok(c)) => t.wf(vstd::utf8::encode_utf8(c@)),
                _ => true,
            },
            sources_api(texts@, trees, i as int) == Ok::<Seq<char>, Seq<char>>(api@),
            crate::ts::parser_ready(*parser),
            forall|j: int| 0 <= j < i ==> match texts@[j].1 {
                Ok(c) => rust_tree_fits(#[trigger] trees[j], c@),
                Err(_) => true,
            },
        decreases n - i,
    {
        let (path, text) = &texts[i];
        let ghost before = trees;
        match text {
            Err(e) => {
                let mut m = String::from_str("Failed to read source file: ");
                m.append(e.as_str());
                proof {
                    trees = trees.push(None);
                    lemma_sources_api_prefix(texts@, before, trees, i as int);
                    let full = trees + Seq::new((n - i - 1) as nat, |j: int| text_tree(texts@[i + 1 + j]));
                    lemma_sources_api_prefix(texts@, trees, full, i + 1);
                    lemma_sources_api_err(texts@, full, i + 1, n as int);
                    lemma_filled_trees(texts@, trees, full);
                }
                return Err(LaibraryError::Parse(m));
            },
            Ok(content) => {
                let trimmed = crate::strings::trim_str(content.as_str());
                if trimmed.as_str().is_empty() {
                    proof {
                        lemma_rust_tree_of(content@);
                        trees = trees.push(rust_tree_of(content@));
                        lemma_sources_api_prefix(texts@, before, trees, i as int);
                    }
                } else {
                    match crate::syntax::parse_source_tree(parser, content.as_str()) {
                        None => {
                            let mut m = String::from_str("Failed to parse source file: ");
                            m.append(path.as_str());
                            proof {
                                trees = trees.push(None);
                                lemma_sources_api_prefix(texts@, before, trees, i as int);
                                let full = trees + Seq::new((n - i - 1) as nat, |j: int| text_tree(texts@[i + 1 + j]));
                                lemma_sources_api_prefix(texts@, trees, full, i + 1);
                                lemma_sources_api_err(texts@, full, i + 1, n as int);
                                lemma_filled_trees(texts@, trees, full);
                            }
                            return Err(LaibraryError::Parse(m));
                        },
                        Some(tree) => {
                            let part = match extract_public_api(&tree.root, content.as_str()) {
                                Ok(p) => p,
                                Err(_) => String::new(),
                            };
                            api.append(part.as_str());
                            proof {
                                trees = trees.push(Some(tree.root));
                                lemma_sources_api_prefix(texts@, before, trees, i as int);
                            }
                        },
                    }
                }
            },
        }
        i = i + 1;
    }
    assert(trees_fit(texts@, trees));
    assert(rust_trees(texts@, trees));
    Ok(api)
}


/// The documentation of a library: its README text, or nothing.
pub open spec fn readme_text(readme: Option<String>) -> Seq<char> {
    match readme {
        Some(t) => t@,
        None => Seq::empty(),
    }
}

/// Whether `r` is what the listed sources give for a package named `n` at
/// version `v`: the listing failure, or, for some trees the files could have
/// yielded, the failure met among the files or the library with their API.
pub open spec fn sources_outcome(
    r: Result<LibraryInfo, LaibraryError>,
    files: LibraryFiles,
    n: Seq<char>,
    v: Seq<char>,
) -> bool {
    match files.sources {
        Err(l) => r matches Err(LaibraryError::Parse(x)) && x@ == l.text(),
        Ok(texts) => exists|trees: Seq<Option<SyntaxNode>>| trees_fit(texts@, trees) && rust_trees(texts@, trees)
            && match #[trigger] sources_api(texts@, trees, texts@.len() as int) {
                Ok(a) => r matches Ok(info) && info.name@ == n && info.version@ == v
                    && info.documentation@ == readme_text(files.readme) && info.api@ == a,
                Err(e) => r matches Err(LaibraryError::Parse(x)) && x@ == e,
            },
    }
}

/// The README text, copied.
fn documentation_of(readme: &Option<String>) -> (d: String)
    ensures
        d@ == readme_text(*readme),
{
    match readme {
        Some(t) => t.clone(),
        None => String::new(),
    }
}

/// A tree-sitter parser set to the Rust grammar.
pub(crate) fn rust_syntax_parser() -> (r: Result<tree_sitter::Parser, LaibraryError>)
    ensures
        r matches Ok(p) && crate::ts::parser_ready(p),
{
    let mut parser = crate::ts::new_parser();
    let language = crate::ts::rust_language();
    match crate::ts::set_parser_language(&mut parser, &language) {
        Ok(()) => Ok(parser),
        Err(e) => {
            let mut m = String::from_str("Error setting Rust language for parser: ");
            m.append(crate::ts::language_error_message(&e).as_str());
            Err(LaibraryError::Parse(m))
        },
    }
}

impl LibraryParser for RustParser {
    /// Reads the package name and version from the manifest, the README as
    /// documentation (empty when missing), and the public API of every
    /// non-blank source file, in listing order.
    fn parse(&self, files: &LibraryFiles) -> (r: Result<LibraryInfo, LaibraryError>)
        ensures
            match files.cargo_toml {
                Err(e) => r matches Err(LaibraryError::Parse(m)) && m@ == "Failed to read Cargo.toml: "@ + e@,
                Ok(text) => if !toml_accepts(text@) {
                    r matches Err(LaibraryError::Parse(m)) && reports_refused_manifest(m@)
                } else {
                    match text_identity(text@) {
                        Err(e) => r matches Err(LaibraryError::Parse(x)) && x@ == e,
                        Ok((n, v)) => sources_outcome(r, *files, n, v),
                    }
                },
            },
    {
        let text = match &files.cargo_toml {
            Err(e) => {
                let mut m = String::from_str("Failed to read Cargo.toml: ");
                m.append(e.as_str());
                return Err(LaibraryError::Parse(m));
            },
            Ok(text) => text,
        };
        let manifest = read_manifest(text.as_str());
        proof {
            lemma_manifest_reading(Seq::empty(), text@, manifest);
            if manifest is Err {
                let m = manifest_refusal() + manifest->Err_0@;
                assert(m.subrange(0, manifest_refusal().len() as int) =~= manifest_refusal());
            }
        }
        let (name, version) = package_identity(&manifest)?;
        let documentation = documentation_of(&files.readme);
        let mut parser = rust_syntax_parser()?;
        let texts = match &files.sources {
            Err(l) => return Err(l.to_error()),
            Ok(texts) => texts,
        };
        let api = api_of_sources(texts, &mut parser)?;
        Ok(LibraryInfo { name, version, documentation, api })
    }
}

/// The API text of more children only extends that of fewer: the text of the
/// first `j` children of a node is a prefix of that of its first `k`, and a
/// public function among them contributes its signature right after the text
/// of the children before it.
pub proof fn lemma_api_children_extends(node: SyntaxNode, j: int, k: int, src: Seq<u8>)
    requires
        0 <= j <= k <= node.children@.len(),
    ensures
        api_children(node, j, src).len() <= api_children(node, k, src).len(),
        api_children(node, k, src).subrange(0, api_children(node, j, src).len() as int) == api_children(node, j, src),
        j < k && node.children@[j].kind@ == "function_item"@ && is_public_node(node.children@[j], src) ==> {
            let p = api_children(node, j, src);
            let f = function_signature(node.children@[j], src);
            &&& p.len() + f.len() <= api_children(node, k, src).len()
            &&& api_children(node, k, src).subrange(p.len() as int, (p.len() + f.len()) as int) == f
        },
    decreases k - j,
{
    if j < k {
        lemma_api_children_extends(node, j + 1, k, src);
        let p = api_children(node, j, src);
        let q = api_children(node, j + 1, src);
        let t = api_children(node, k, src);
        assert(q.subrange(0, p.len() as int) =~= p);
        assert(t.subrange(0, p.len() as int) =~= q.subrange(0, p.len() as int));
        if node.children@[j].kind@ == "function_item"@ && is_public_node(node.children@[j], src) {
            let f = function_signature(node.children@[j], src);
            assert(q == p + f);
            assert(t.subrange(p.len() as int, (p.len() + f.len()) as int) =~= q.subrange(p.len() as int, q.len() as int));
            assert(q.subrange(p.len() as int, q.len() as int) =~= f);
        }
    } else {
        let p = api_children(node, j, src);
        assert(p.subrange(0, p.len() as int) =~= p);
    }
}

} // verus!
