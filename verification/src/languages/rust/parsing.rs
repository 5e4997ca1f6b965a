//! Reading the public items of a Rust source file, module by module, each with
//! the doc comment right before it.

use vstd::prelude::*;
use vstd::string::StringSliceAdditionalSpecFns;
use crate::error::LaibraryError;
use crate::languages::rust::api::parsing::{has_visibility, has_visibility_modifier, indent_lines, push_indented_lines, text_range};
use crate::languages::rust::extraction::{extract_name, is_item_kind, node_name};
use crate::languages::rust::types::{item_trees, lemma_item_views_push, ItemTree, RustSymbol};
use crate::strings::{join, views};
use crate::syntax::{find_child, find_kind, has_kind, kind_is, node_text, parse_source_tree, rust_copy, rust_parse_fits, text_of, SyntaxNode};
use vstd::utf8::encode_utf8;

verus! {

/// The texts of the run of outer doc line comments that ends at `cs[j]`,
/// nearest first: each must carry an outer doc marker and doc text, and the
/// run goes on while the node before is a line comment.
pub open spec fn line_comment_run(cs: Seq<SyntaxNode>, j: int, src: Seq<u8>) -> Seq<Seq<char>>
    decreases j + 1,
{
    if j < 0 || j >= cs.len() {
        Seq::empty()
    } else if !(has_kind(cs[j].children@, "outer_doc_comment_marker"@) && has_kind(cs[j].children@, "doc_comment"@)) {
        Seq::empty()
    } else {
        seq![node_text(src, cs[j])] + if j >= 1 && cs[j - 1].kind@ == "line_comment"@ {
            line_comment_run(cs, j - 1, src)
        } else {
            Seq::empty()
        }
    }
}

/// The outer doc comment of `cs[i]`, read from the node right before it: a
/// block doc comment (with a newline), or a run of line doc comments in
/// source order.
pub open spec fn preceding_doc(cs: Seq<SyntaxNode>, i: int, src: Seq<u8>) -> Option<Seq<char>> {
    if i <= 0 || i > cs.len() {
        None
    } else {
        let sib = cs[i - 1];
        if !has_kind(sib.children@, "outer_doc_comment_marker"@) {
            None
        } else if sib.kind@ == "block_comment"@ {
            if has_kind(sib.children@, "doc_comment"@) {
                Some(node_text(src, sib) + "\n"@)
            } else {
                None
            }
        } else if sib.kind@ == "line_comment"@ {
            let items = line_comment_run(cs, i - 1, src);
            if items.len() == 0 {
                None
            } else {
                Some(join(items.reverse(), Seq::empty()))
            }
        } else {
            None
        }
    }
}

/// The presentation of `parent.children[i]`: its preceding doc comment, then
/// its text, with a function cut before its body and ended by `;`, and a trait
/// reduced to its methods so presented and indented.
pub open spec fn item_source(parent: SyntaxNode, i: int, src: Seq<u8>) -> Result<Seq<char>, Seq<char>>
    decreases parent, i,
{
    if i < 0 || i >= parent.children@.len() {
        Ok(Seq::empty())
    } else {
        let cs = parent.children@;
        let node = cs[i];
        let doc = match preceding_doc(cs, i, src) {
            Some(d) => d,
            None => Seq::empty(),
        };
        let body = if node.kind@ == "function_item"@ || node.kind@ == "function_signature_item"@ {
            let b = find_kind(node.children@, "block"@);
            if 0 <= b < node.children@.len() {
                Ok(crate::strings::trim_end(text_range(src, node.start_byte as int, node.children@[b].start_byte as int)) + ";"@)
            } else {
                Err("Failed to find function block"@)
            }
        } else if node.kind@ == "trait_item"@ {
            let d = find_kind(node.children@, "declaration_list"@);
            if 0 <= d < node.children@.len() {
                let dl = node.children@[d];
                match methods_source(dl, dl.children@.len() as int, src) {
                    Ok(b) => Ok(text_range(src, node.start_byte as int, dl.start_byte as int) + " {\n"@ + b + "}"@),
                    Err(e) => Err(e),
                }
            } else {
                Err("Failed to find trait declaration list"@)
            }
        } else {
            Ok(node_text(src, node))
        };
        match body {
            Ok(b) => Ok(doc + b),
            Err(e) => Err(e),
        }
    }
}

/// The presentations of the methods among the first `k` children of a trait's
/// declaration list, indented.
pub open spec fn methods_source(dl: SyntaxNode, k: int, src: Seq<u8>) -> Result<Seq<char>, Seq<char>>
    decreases dl, k,
{
    if k <= 0 || k > dl.children@.len() {
        Ok(Seq::empty())
    } else {
        match methods_source(dl, k - 1, src) {
            Err(e) => Err(e),
            Ok(acc) => if dl.children@[k - 1].kind@ == "function_item"@ {
                match item_source(dl, k - 1, src) {
                    Ok(ms) => Ok(acc + indent_lines(ms)),
                    Err(e) => Err(e),
                }
            } else {
                Ok(acc)
            },
        }
    }
}

/// The items found among the first `i` children of a module node: only nodes
/// with a visibility modifier count; definitions, inline modules with their
/// items, and other module items by their text.
pub open spec fn module_symbols(node: SyntaxNode, src: Seq<u8>, i: int) -> Result<Seq<ItemTree>, Seq<char>>
    decreases node, i,
{
    if i <= 0 || i > node.children@.len() {
        Ok(Seq::empty())
    } else {
        match module_symbols(node, src, i - 1) {
            Err(e) => Err(e),
            Ok(acc) => {
                let child = node.children@[i - 1];
                if !has_visibility(child) {
                    Ok(acc)
                } else if is_item_kind(child.kind@) {
                    match node_name(child, src) {
                        None => Err("Failed to extract name"@),
                        Some(name) => match item_source(node, i - 1, src) {
                            Ok(sc) => Ok(acc.push(ItemTree::Symbol(name, sc))),
                            Err(e) => Err(e),
                        },
                    }
                } else if child.kind@ == "mod_item"@ {
                    match node_name(child, src) {
                        None => Err("Failed to extract name"@),
                        Some(name) => {
                            let d = find_kind(child.children@, "declaration_list"@);
                            if 0 <= d < child.children@.len() {
                                let dl = child.children@[d];
                                match module_symbols(dl, src, dl.children@.len() as int) {
                                    Err(e) => Err(e),
                                    Ok(inner) => Ok(acc.push(ItemTree::Module(name, inner))),
                                }
                            } else {
                                Ok(acc.push(ItemTree::Symbol(name, node_text(src, child))))
                            }
                        },
                    }
                } else {
                    Ok(acc)
                }
            },
        }
    }
}

proof fn lemma_methods_err(dl: SyntaxNode, k: int, n: int, src: Seq<u8>)
    requires
        0 <= k <= n <= dl.children@.len(),
        methods_source(dl, k, src) is Err,
    ensures
        methods_source(dl, n, src) == methods_source(dl, k, src),
    decreases n - k,
{
    if k < n {
        lemma_methods_err(dl, k, n - 1, src);
    }
}

proof fn lemma_module_symbols_err(node: SyntaxNode, src: Seq<u8>, i: int, n: int)
    requires
        0 <= i <= n <= node.children@.len(),
        module_symbols(node, src, i) is Err,
    ensures
        module_symbols(node, src, n) == module_symbols(node, src, i),
    decreases n - i,
{
    if i < n {
        lemma_module_symbols_err(node, src, i, n - 1);
    }
}

/// Whether a comment node carries an outer doc marker and doc text.
fn is_outer_doc(n: &SyntaxNode) -> (b: bool)
    ensures
        b == (has_kind(n.children@, "outer_doc_comment_marker"@) && has_kind(n.children@, "doc_comment"@)),
{
    find_child(n, "outer_doc_comment_marker").is_some() && find_child(n, "doc_comment").is_some()
}

/// The texts of the run of line doc comments that ends at `cs[k - 1]`, nearest first.
fn line_comments(cs: &Vec<SyntaxNode>, k: usize, source_code: &str) -> (r: Vec<String>)
    requires
        1 <= k <= cs@.len(),
        forall|t: int| 0 <= t < cs@.len() ==> (#[trigger] cs@[t]).wf(source_code.spec_bytes()),
    ensures
        views(r@) == line_comment_run(cs@, k - 1, source_code.spec_bytes()),
    decreases k,
{
    let c = &cs[k - 1];
    assert(c.wf(source_code.spec_bytes()));
    if !is_outer_doc(c) {
        let none: Vec<String> = Vec::new();
        assert(views(none@) =~= Seq::<Seq<char>>::empty());
        return none;
    }
    let mut items: Vec<String> = Vec::new();
    items.push(text_of(source_code, c));
    let ghost first = views(items@);
    assert(first =~= seq![node_text(source_code.spec_bytes(), *c)]);
    if k >= 2 && kind_is(&cs[k - 2], "line_comment") {
        let mut rest = line_comments(cs, k - 1, source_code);
        let ghost r = views(rest@);
        items.append(&mut rest);
        assert(views(items@) =~= first + r);
    } else {
        assert(views(items@) =~= first + Seq::<Seq<char>>::empty());
    }
    items
}

/// The outer doc comment of `cs[i]`, read from the node right before it.
fn preceding_doc_comment(cs: &Vec<SyntaxNode>, i: usize, source_code: &str) -> (r: Option<String>)
    requires
        i < cs@.len(),
        forall|t: int| 0 <= t < cs@.len() ==> (#[trigger] cs@[t]).wf(source_code.spec_bytes()),
    ensures
        crate::paths::opt_view(r) == preceding_doc(cs@, i as int, source_code.spec_bytes()),
{
    if i == 0 {
        return None;
    }
    let sib = &cs[i - 1];
    assert(sib.wf(source_code.spec_bytes()));
    if find_child(sib, "outer_doc_comment_marker").is_none() {
        return None;
    }
    if kind_is(sib, "block_comment") {
        if find_child(sib, "doc_comment").is_some() {
            let mut t = text_of(source_code, sib);
            t.append("\n");
            return Some(t);
        }
        return None;
    }
    if !kind_is(sib, "line_comment") {
        return None;
    }
    let items = line_comments(cs, i, source_code);
    if items.len() == 0 {
        return None;
    }
    let ghost all = views(items@);
    let mut out = String::new();
    let mut k: usize = items.len();
    assert(join(all.reverse().subrange(0, 0), Seq::empty()) =~= Seq::<char>::empty());
    while k > 0
        invariant
            all == views(items@),
            k <= items@.len(),
            out@ == join(all.reverse().subrange(0, items@.len() - k), Seq::empty()),
        decreases k,
    {
        out.append(items[k - 1].as_str());
        proof {
            let rv = all.reverse();
            let pre = rv.subrange(0, items@.len() - k);
            let post = rv.subrange(0, items@.len() - k + 1);
            assert(post.drop_last() =~= pre);
            assert(post.last() == all[k - 1]);
            if items@.len() - k == 0 {
                assert(post =~= seq![all[k - 1]]);
            }
        }
        k = k - 1;
    }
    assert(all.reverse().subrange(0, all.len() as int) =~= all.reverse());
    Some(out)
}

/// The presentation of the item `parent.children[i]`.
fn get_symbol_source_code(parent: &SyntaxNode, i: usize, source_code: &str) -> (r: Result<String, LaibraryError>)
    requires
        i < parent.children@.len(),
        parent.wf(source_code.spec_bytes()),
    ensures
        match item_source(*parent, i as int, source_code.spec_bytes()) {
            Ok(s) => r matches Ok(x) && x@ == s,
            Err(e) => r matches Err(LaibraryError::Parse(m)) && m@ == e,
        },
    decreases parent, i,
{
    let ghost src = source_code.spec_bytes();
    let node = &parent.children[i];
    assert(node.wf(src));
    let mut out = match preceding_doc_comment(&parent.children, i, source_code) {
        Some(d) => d,
        None => String::new(),
    };
    let ghost doc = out@;
    if kind_is(node, "function_item") || kind_is(node, "function_signature_item") {
        match find_child(node, "block") {
            Some(b) => {
                let block = &node.children[b];
                assert(block.wf(src));
                let head = crate::strings::byte_slice(source_code, node.start_byte, block.start_byte);
                let trimmed = crate::strings::trim_end_str(head);
                out.append(trimmed.as_str());
                out.append(";");
                assert(out@ =~= doc + (crate::strings::trim_end(
                    text_range(src, node.start_byte as int, block.start_byte as int)) + ";"@));
                Ok(out)
            },
            None => Err(LaibraryError::Parse(String::from_str("Failed to find function block"))),
        }
    } else if kind_is(node, "trait_item") {
        match find_child(node, "declaration_list") {
            Some(d) => {
                let dl = &node.children[d];
                assert(dl.wf(src));
                let head = crate::strings::byte_slice(source_code, node.start_byte, dl.start_byte);
                let mut body = String::new();
                let n = dl.children.len();
                let mut k: usize = 0;
                while k < n
                    invariant
                        n == dl.children@.len(),
                        k <= n,
                        dl.wf(src),
                        src == source_code.spec_bytes(),
                        decreases_to!(*parent => *dl),
                        methods_source(*dl, n as int, src) is Err ==> item_source(*parent, i as int, src)
                            == methods_source(*dl, n as int, src),
                        methods_source(*dl, k as int, src) == Ok::<Seq<char>, Seq<char>>(body@),
                    decreases n - k,
                {
                    if kind_is(&dl.children[k], "function_item") {
                        match get_symbol_source_code(dl, k, source_code) {
                            Ok(method) => {
                                push_indented_lines(&mut body, &method);
                            },
                            Err(e) => {
                                proof { lemma_methods_err(*dl, k + 1, n as int, src); }
                                return Err(e);
                            },
                        }
                    }
                    k = k + 1;
                }
                out.append(head);
                out.append(" {\n");
                out.append(body.as_str());
                out.append("}");
                assert(out@ =~= doc + (text_range(src, node.start_byte as int, dl.start_byte as int)
                    + " {\n"@ + body@ + "}"@));
                Ok(out)
            },
            None => Err(LaibraryError::Parse(String::from_str("Failed to find trait declaration list"))),
        }
    } else {
        let text = text_of(source_code, node);
        out.append(text.as_str());
        Ok(out)
    }
}

/// The items of a module node in source order.
fn extract_symbols_from_module(module_node: &SyntaxNode, source_code: &str) -> (r: Result<Vec<RustSymbol>, LaibraryError>)
    requires
        module_node.wf(source_code.spec_bytes()),
    ensures
        match module_symbols(*module_node, source_code.spec_bytes(), module_node.children@.len() as int) {
            Ok(v) => r matches Ok(x) && item_trees(x@) == v,
            Err(e) => r matches Err(LaibraryError::Parse(m)) && m@ == e,
        },
    decreases module_node,
{
    let ghost src = source_code.spec_bytes();
    let n = module_node.children.len();
    let mut symbols: Vec<RustSymbol> = Vec::new();
    assert(item_trees(symbols@) =~= Seq::<ItemTree>::empty());
    let mut i: usize = 0;
    while i < n
        invariant
            n == module_node.children@.len(),
            module_node.wf(src),
            src == source_code.spec_bytes(),
            i <= n,
            module_symbols(*module_node, src, i as int) == Ok::<Seq<ItemTree>, Seq<char>>(item_trees(symbols@)),
        decreases n - i,
    {
        let child = &module_node.children[i];
        assert(child.wf(src));
        if !has_visibility_modifier(child) {
        } else if kind_is(child, "function_item") || kind_is(child, "struct_item") || kind_is(child, "enum_item")
            || kind_is(child, "trait_item") || kind_is(child, "macro_definition") {
            let name = match extract_name(child, source_code) {
                Some(name) => name,
                None => {
                    proof { lemma_module_symbols_err(*module_node, src, i + 1, n as int); }
                    return Err(LaibraryError::Parse(String::from_str("Failed to extract name")));
                },
            };
            match get_symbol_source_code(module_node, i, source_code) {
                Ok(code) => {
                    let x = RustSymbol::Symbol { symbol: crate::types::Symbol { name, source_code: code } };
                    proof { lemma_item_views_push(symbols@, x); }
                    symbols.push(x);
                },
                Err(e) => {
                    proof { lemma_module_symbols_err(*module_node, src, i + 1, n as int); }
                    return Err(e);
                },
            }
        } else if kind_is(child, "mod_item") {
            let name = match extract_name(child, source_code) {
                Some(name) => name,
                None => {
                    proof { lemma_module_symbols_err(*module_node, src, i + 1, n as int); }
                    return Err(LaibraryError::Parse(String::from_str("Failed to extract name")));
                },
            };
            match find_child(child, "declaration_list") {
                Some(d) => {
                    let dl = &child.children[d];
                    assert(dl.wf(src));
                    match extract_symbols_from_module(dl, source_code) {
                        Ok(content) => {
                            let x = RustSymbol::Module { name, content };
                            proof { lemma_item_views_push(symbols@, x); }
                            symbols.push(x);
                        },
                        Err(e) => {
                            proof { lemma_module_symbols_err(*module_node, src, i + 1, n as int); }
                            return Err(e);
                        },
                    }
                },
                None => {
                    let text = text_of(source_code, child);
                    let x = RustSymbol::Symbol { symbol: crate::types::Symbol { name, source_code: text } };
                    proof { lemma_item_views_push(symbols@, x); }
                    symbols.push(x);
                },
            }
        }
        i = i + 1;
    }
    Ok(symbols)
}

/// Whether `r` is the outcome `expected` describes.
pub open spec fn symbols_outcome(r: Result<Vec<RustSymbol>, LaibraryError>, expected: Result<Seq<ItemTree>, Seq<char>>) -> bool {
    match expected {
        Ok(v) => r matches Ok(x) && item_trees(x@) == v,
        Err(e) => r matches Err(LaibraryError::Parse(m)) && m@ == e,
    }
}

/// What parsing the source bytes `src` may give: the failure to get a tree, or
/// the items of a syntax tree of `src`.
pub open spec fn symbols_parse_outcome(r: Result<Vec<RustSymbol>, LaibraryError>, src: Seq<u8>) -> bool {
    ||| r matches Err(LaibraryError::Parse(m)) && m@ == "Failed to parse source file"@
    ||| exists|t: SyntaxNode| t.wf(src) && symbols_outcome(r, module_symbols(t, src, t.children@.len() as int))
}

/// What parsing `text` with a parser ready for the Rust grammar gives: the
/// items of the copy of its Rust parse, or the parse failure when that parse
/// does not fit the text.
pub open spec fn rust_symbols_outcome(r: Result<Vec<RustSymbol>, LaibraryError>, text: Seq<char>) -> bool {
    if rust_parse_fits(text) {
        exists|t: SyntaxNode| #[trigger] rust_copy(t, text)
            && symbols_outcome(r, module_symbols(t, encode_utf8(text), t.children@.len() as int))
    } else {
        r matches Err(LaibraryError::Parse(m)) && m@ == "Failed to parse source file"@
    }
}

/// Reads the items of a parsed Rust source file.
pub fn read_rust_symbols(content: &str, root: &SyntaxNode) -> (r: Result<Vec<RustSymbol>, LaibraryError>)
    requires
        root.wf(content.spec_bytes()),
    ensures
        symbols_outcome(r, module_symbols(*root, content.spec_bytes(), root.children@.len() as int)),
{
    extract_symbols_from_module(root, content)
}

/// Parses Rust source text and reads its items; fails with "Failed to parse
/// source file" when tree-sitter yields no tree that fits the text. With a
/// parser ready for the Rust grammar, the tree is the Rust parse of the text.
pub fn parse_rust_file(content: &str, parser: &mut tree_sitter::Parser) -> (r: Result<Vec<RustSymbol>, LaibraryError>)
    ensures
        symbols_parse_outcome(r, content.spec_bytes()),
        crate::ts::parser_plain(*final(parser)) == crate::ts::parser_plain(*old(parser)),
        crate::ts::parser_ready(*final(parser)) == crate::ts::parser_ready(*old(parser)),
        crate::ts::parser_ready(*old(parser)) ==> rust_symbols_outcome(r, content@),
{
    match parse_source_tree(parser, content) {
        Some(tree) => read_rust_symbols(content, &tree.root),
        None => Err(LaibraryError::Parse(String::from_str("Failed to parse source file"))),
    }
}

/// Presenting more of a declaration list only extends the text: the
/// presentation of its first `j` children is a prefix of that of its first `k`.
pub proof fn lemma_methods_source_extends(dl: SyntaxNode, j: int, k: int, src: Seq<u8>)
    requires
        0 <= j <= k <= dl.children@.len(),
        methods_source(dl, k, src) is Ok,
    ensures
        methods_source(dl, j, src) is Ok,
        methods_source(dl, j, src)->Ok_0.len() <= methods_source(dl, k, src)->Ok_0.len(),
        methods_source(dl, k, src)->Ok_0.subrange(0, methods_source(dl, j, src)->Ok_0.len() as int)
            == methods_source(dl, j, src)->Ok_0,
    decreases k - j,
{
    if j < k {
        assert(methods_source(dl, k - 1, src) is Ok);
        lemma_methods_source_extends(dl, j, k - 1, src);
        let a = methods_source(dl, j, src)->Ok_0;
        let b = methods_source(dl, k - 1, src)->Ok_0;
        let c = methods_source(dl, k, src)->Ok_0;
        assert(c.subrange(0, b.len() as int) =~= b);
        assert(c.subrange(0, a.len() as int) =~= b.subrange(0, a.len() as int));
    } else {
        let a = methods_source(dl, j, src)->Ok_0;
        assert(a.subrange(0, a.len() as int) =~= a);
    }
}

/// A trait keeps every method of its declaration list, in source order: the
/// presentation of the list holds, right after the presentation of the
/// children before it, the indented presentation of each `function_item`.
pub proof fn lemma_methods_source_lists_methods(dl: SyntaxNode, j: int, k: int, src: Seq<u8>)
    requires
        0 <= j < k <= dl.children@.len(),
        dl.children@[j].kind@ == "function_item"@,
        methods_source(dl, k, src) is Ok,
    ensures
        item_source(dl, j, src) is Ok,
        ({
            let t = methods_source(dl, k, src)->Ok_0;
            let p = methods_source(dl, j, src)->Ok_0;
            let m = indent_lines(item_source(dl, j, src)->Ok_0);
            &&& p.len() + m.len() <= t.len()
            &&& t.subrange(0, p.len() as int) == p
            &&& t.subrange(p.len() as int, (p.len() + m.len()) as int) == m
        }),
{
    lemma_methods_source_extends(dl, j + 1, k, src);
    lemma_methods_source_extends(dl, j, k, src);
    let t = methods_source(dl, k, src)->Ok_0;
    let p = methods_source(dl, j, src)->Ok_0;
    let q = methods_source(dl, j + 1, src)->Ok_0;
    assert(item_source(dl, j, src) is Ok);
    let m = indent_lines(item_source(dl, j, src)->Ok_0);
    assert(q == p + m);
    assert(t.subrange(0, q.len() as int) == q);
    assert(t.subrange(p.len() as int, (p.len() + m.len()) as int) =~= q.subrange(p.len() as int, q.len() as int));
    assert(q.subrange(p.len() as int, q.len() as int) =~= m);
}

/// Children of a declaration list other than `function_item`s add nothing
/// to a trait's presentation, so it is made of the methods alone.
pub proof fn lemma_methods_source_skips_other_items(dl: SyntaxNode, j: int, src: Seq<u8>)
    requires
        0 <= j < dl.children@.len(),
        dl.children@[j].kind@ != "function_item"@,
    ensures
        methods_source(dl, j + 1, src) == methods_source(dl, j, src),
{
}

/// Reading more of a module only extends its items: the items of its first
/// `j` children are a prefix of those of its first `k`.
pub proof fn lemma_module_symbols_extends(node: SyntaxNode, src: Seq<u8>, j: int, k: int)
    requires
        0 <= j <= k <= node.children@.len(),
        module_symbols(node, src, k) is Ok,
    ensures
        module_symbols(node, src, j) is Ok,
        module_symbols(node, src, j)->Ok_0.len() <= module_symbols(node, src, k)->Ok_0.len(),
        module_symbols(node, src, k)->Ok_0.subrange(0, module_symbols(node, src, j)->Ok_0.len() as int)
            == module_symbols(node, src, j)->Ok_0,
    decreases k - j,
{
    if j < k {
        assert(module_symbols(node, src, k - 1) is Ok);
        lemma_module_symbols_extends(node, src, j, k - 1);
        let a = module_symbols(node, src, j)->Ok_0;
        let b = module_symbols(node, src, k - 1)->Ok_0;
        let c = module_symbols(node, src, k)->Ok_0;
        assert(c.subrange(0, b.len() as int) =~= b);
        assert(c.subrange(0, a.len() as int) =~= b.subrange(0, a.len() as int));
    } else {
        let a = module_symbols(node, src, j)->Ok_0;
        assert(a.subrange(0, a.len() as int) =~= a);
    }
}

/// A module keeps every public definition among its children, in source
/// order: the item of child `i` stands right after the items of the children
/// before it, under its name and with its presentation.
pub proof fn lemma_module_symbols_keeps_public_items(node: SyntaxNode, src: Seq<u8>, i: int, k: int)
    requires
        0 <= i < k <= node.children@.len(),
        is_item_kind(node.children@[i].kind@),
        has_visibility(node.children@[i]),
        module_symbols(node, src, k) is Ok,
    ensures
        node_name(node.children@[i], src) is Some,
        item_source(node, i, src) is Ok,
        module_symbols(node, src, i)->Ok_0.len() < module_symbols(node, src, k)->Ok_0.len(),
        module_symbols(node, src, k)->Ok_0[module_symbols(node, src, i)->Ok_0.len() as int] == ItemTree::Symbol(
            node_name(node.children@[i], src)->Some_0,
            item_source(node, i, src)->Ok_0,
        ),
{
    lemma_module_symbols_extends(node, src, i + 1, k);
    let q = module_symbols(node, src, i + 1)->Ok_0;
    let t = module_symbols(node, src, k)->Ok_0;
    assert(module_symbols(node, src, i) is Ok);
    let p = module_symbols(node, src, i)->Ok_0;
    assert(q[p.len() as int] == t.subrange(0, q.len() as int)[p.len() as int]);
}

/// A run of outer doc line comments is kept whole, nearest first: for the
/// comments `cs[d..=j]`, the texts read back from `cs[j]` start with each of
/// theirs, `cs[t]` at position `j - t`.
pub proof fn lemma_line_comment_run_keeps_run(cs: Seq<SyntaxNode>, d: int, j: int, src: Seq<u8>)
    requires
        0 <= d <= j < cs.len(),
        forall|t: int| d <= t <= j ==> (#[trigger] cs[t]).kind@ == "line_comment"@
            && has_kind(cs[t].children@, "outer_doc_comment_marker"@) && has_kind(cs[t].children@, "doc_comment"@),
    ensures
        line_comment_run(cs, j, src).len() >= j - d + 1,
        forall|t: int| d <= t <= j ==> line_comment_run(cs, j, src)[j - t] == node_text(src, #[trigger] cs[t]),
    decreases j - d,
{
    assert(cs[j].kind@ == "line_comment"@);
    let r = line_comment_run(cs, j, src);
    if d < j {
        assert(cs[j - 1].kind@ == "line_comment"@);
        assert(r == seq![node_text(src, cs[j])] + line_comment_run(cs, j - 1, src));
        lemma_line_comment_run_keeps_run(cs, d, j - 1, src);
        assert forall|t: int| d <= t <= j implies r[j - t] == node_text(src, #[trigger] cs[t]) by {
            if t < j {
                assert(r[j - t] == line_comment_run(cs, j - 1, src)[j - 1 - t]);
            }
        }
    }
}

} // verus!
