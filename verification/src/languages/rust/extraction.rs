//! Extraction of the public items of parsed Rust source files, module by module,
//! with the outer doc comment of each item.

use vstd::prelude::*;
use vstd::string::StringSliceAdditionalSpecFns;
use crate::error::LaibraryError;
use crate::paths::{file_module_components, file_name, module_components};
use crate::strings::{
    join, join_strings, lines, skip_prefixes, skip_suffixes, split_lines,
    string_from_chars, strip_prefixes, strip_suffixes, to_chars, trim_end, views,
};
use crate::syntax::{
    find_child, find_kind, find_kind_from, has_kind, kind_is, lemma_find_kind_range, node_text,
    text_of, SyntaxNode,
};

verus! {

/// A public item with its outer doc comment, with the comment markers removed.
#[derive(Debug, Clone, PartialEq)]
pub struct Symbol {
    pub name: String,
    pub source_code: String,
    pub doc_comment: Option<String>,
}

/// A module path and the public items defined in it.
#[derive(Debug)]
pub struct Namespace {
    pub name: String,
    pub symbols: Vec<Symbol>,
}

/// A source file: its path, its text and its syntax tree.
#[derive(Debug)]
pub struct SourceFile {
    pub path: String,
    pub content: String,
    pub tree: SyntaxNode,
}

/// A symbol as plain values: name, source code and doc comment.
pub type SymbolView = (Seq<char>, Seq<char>, Option<Seq<char>>);

/// A namespace as plain values: name and symbols.
pub type NamespaceView = (Seq<char>, Seq<SymbolView>);

impl Symbol {
    pub open spec fn view(self) -> SymbolView {
        (self.name@, self.source_code@, crate::paths::opt_view(self.doc_comment))
    }
}

impl Namespace {
    pub open spec fn view(self) -> NamespaceView {
        (self.name@, self.symbols@.map_values(|s: Symbol| s.view()))
    }

    /// The first symbol of the namespace named `name`, if any.
    pub fn get_symbol(&self, name: &str) -> (found: Option<&Symbol>)
        ensures
            found is None <==> forall|i: int| 0 <= i < self.symbols@.len() ==> self.symbols@[i].name@ != name@,
            found matches Some(s) ==> exists|i: int| 0 <= i < self.symbols@.len() && self.symbols@[i] == *s
                && s.name@ == name@ && forall|j: int| 0 <= j < i ==> self.symbols@[j].name@ != name@,
    {
        let mut i: usize = 0;
        while i < self.symbols.len()
            invariant
                i <= self.symbols@.len(),
                forall|j: int| 0 <= j < i ==> self.symbols@[j].name@ != name@,
            decreases self.symbols@.len() - i,
        {
            if crate::strings::str_eq(self.symbols[i].name.as_str(), name) {
                return Some(&self.symbols[i]);
            }
            i = i + 1;
        }
        None
    }
}

/// The views of a sequence of namespaces.
pub open spec fn namespace_views(v: Seq<Namespace>) -> Seq<NamespaceView> {
    v.map_values(|n: Namespace| n.view())
}

/// The views of a sequence of symbols.
pub open spec fn symbol_views(v: Seq<Symbol>) -> Seq<SymbolView> {
    v.map_values(|s: Symbol| s.view())
}

/// Kinds of the items that become symbols.
pub open spec fn is_item_kind(k: Seq<char>) -> bool {
    ||| k == "function_item"@
    ||| k == "struct_item"@
    ||| k == "enum_item"@
    ||| k == "trait_item"@
    ||| k == "macro_definition"@
}

/// Kinds of the nodes that hold a name.
pub open spec fn is_name_kind(k: Seq<char>) -> bool {
    k == "identifier"@ || k == "type_identifier"@
}

/// The position of the first name node in `cs` at or after `i`, or -1.
pub open spec fn find_name_from(cs: Seq<SyntaxNode>, i: int) -> int
    decreases cs.len() - i,
{
    if i < 0 || i >= cs.len() {
        -1
    } else if is_name_kind(cs[i].kind@) {
        i
    } else {
        find_name_from(cs, i + 1)
    }
}

/// A node is public when its first visibility modifier reads exactly `pub`.
pub open spec fn is_public_node(n: SyntaxNode, src: Seq<u8>) -> bool {
    let j = find_kind(n.children@, "visibility_modifier"@);
    j >= 0 && node_text(src, n.children@[j]) == "pub"@
}

/// The text of a node's first name child.
pub open spec fn node_name(n: SyntaxNode, src: Seq<u8>) -> Option<Seq<char>> {
    let j = find_name_from(n.children@, 0);
    if j >= 0 {
        Some(node_text(src, n.children@[j]))
    } else {
        None
    }
}

/// A line of a block doc comment without its leading ` *` and spaces.
pub open spec fn block_line(l: Seq<char>) -> Seq<char> {
    strip_prefixes(strip_prefixes(l, " *"@), " "@)
}

/// The text of a block doc comment, line by line without the leading ` *`.
pub open spec fn block_doc_text(t: Seq<char>) -> Seq<char> {
    trim_end(join(lines(t).map_values(|l: Seq<char>| block_line(l)), "\n"@))
}

/// A line doc comment's text without leading spaces and trailing newlines.
pub open spec fn line_doc_text(t: Seq<char>) -> Seq<char> {
    strip_suffixes(strip_prefixes(t, " "@), '\n')
}

/// The doc texts of the run of outer line doc comments that ends at `cs[j]`,
/// nearest first.
pub open spec fn line_doc_items(cs: Seq<SyntaxNode>, j: int, src: Seq<u8>) -> Seq<Seq<char>>
    decreases j,
{
    if j < 0 || j >= cs.len() || !has_kind(cs[j].children@, "outer_doc_comment_marker"@) {
        Seq::empty()
    } else {
        let d = find_kind(cs[j].children@, "doc_comment"@);
        let here = if d >= 0 { seq![node_text(src, cs[j].children@[d])] } else { Seq::empty() };
        if j >= 1 && cs[j - 1].kind@ == "line_comment"@ {
            here + line_doc_items(cs, j - 1, src)
        } else {
            here
        }
    }
}

/// The outer doc comment of `cs[i]`, taken from the comment nodes before it.
pub open spec fn outer_doc(cs: Seq<SyntaxNode>, i: int, src: Seq<u8>) -> Option<Seq<char>> {
    if i <= 0 || i > cs.len() {
        None
    } else {
        let sib = cs[i - 1];
        if !has_kind(sib.children@, "outer_doc_comment_marker"@) {
            None
        } else if sib.kind@ == "block_comment"@ {
            let d = find_kind(sib.children@, "doc_comment"@);
            if d >= 0 {
                Some(block_doc_text(node_text(src, sib.children@[d])))
            } else {
                None
            }
        } else if sib.kind@ == "line_comment"@ {
            let items = line_doc_items(cs, i - 1, src);
            if items.len() == 0 {
                None
            } else {
                Some(join(items.reverse().map_values(|t: Seq<char>| line_doc_text(t)), "\n"@))
            }
        } else {
            None
        }
    }
}

/// A module path extended by one name.
pub open spec fn child_path(path: Seq<char>, name: Seq<char>) -> Seq<char> {
    if path.len() == 0 {
        name
    } else {
        path + "::"@ + name
    }
}

/// The nested namespaces and the symbols found among the first `i` children of
/// a module node, or the error met there.
pub open spec fn scan_module(node: SyntaxNode, src: Seq<u8>, path: Seq<char>, i: int) -> Result<
    (Seq<NamespaceView>, Seq<SymbolView>),
    Seq<char>,
>
    decreases node, i,
{
    if i <= 0 || i > node.children@.len() {
        Ok((Seq::empty(), Seq::empty()))
    } else {
        match scan_module(node, src, path, i - 1) {
            Err(e) => Err(e),
            Ok((mods, syms)) => {
                let child = node.children@[i - 1];
                if !is_public_node(child, src) {
                    Ok((mods, syms))
                } else if is_item_kind(child.kind@) {
                    match node_name(child, src) {
                        Some(name) => Ok(
                            (mods, syms.push((name, node_text(src, child), outer_doc(node.children@, i - 1, src)))),
                        ),
                        None => Ok((mods, syms)),
                    }
                } else if child.kind@ == "mod_item"@ {
                    match node_name(child, src) {
                        None => Err("Invalid module name"@),
                        Some(m) => {
                            let np = child_path(path, m);
                            let d = find_kind(child.children@, "declaration_list"@);
                            if 0 <= d < child.children@.len() {
                                let dl = child.children@[d];
                                match scan_module(dl, src, np, dl.children@.len() as int) {
                                    Err(e) => Err(e),
                                    Ok((m2, s2)) => Ok((mods + m2.push((np, s2)), syms)),
                                }
                            } else {
                                Ok((mods, syms.push((m, node_text(src, child), None))))
                            }
                        },
                    }
                } else {
                    Ok((mods, syms))
                }
            },
        }
    }
}

/// The namespaces of a module node: those of its inline modules, then its own.
pub open spec fn module_namespaces(node: SyntaxNode, src: Seq<u8>, path: Seq<char>) -> Result<
    Seq<NamespaceView>,
    Seq<char>,
> {
    match scan_module(node, src, path, node.children@.len() as int) {
        Ok((mods, syms)) => Ok(mods.push((path, syms))),
        Err(e) => Err(e),
    }
}

proof fn lemma_scan_err(node: SyntaxNode, src: Seq<u8>, path: Seq<char>, i: int, n: int)
    requires
        0 <= i <= n <= node.children@.len(),
        scan_module(node, src, path, i) is Err,
    ensures
        scan_module(node, src, path, n) == scan_module(node, src, path, i),
    decreases n - i,
{
    if i < n {
        lemma_scan_err(node, src, path, i, n - 1);
    }
}

pub(crate) fn is_public(node: &SyntaxNode, source_code: &str) -> (b: bool)
    requires
        node.wf(source_code.spec_bytes()),
    ensures
        b == is_public_node(*node, source_code.spec_bytes()),
{
    match find_child(node, "visibility_modifier") {
        Some(j) => {
            let text = text_of(source_code, &node.children[j]);
            crate::strings::str_eq(text.as_str(), "pub")
        },
        None => false,
    }
}

pub(crate) fn extract_name(node: &SyntaxNode, source_code: &str) -> (r: Option<String>)
    requires
        node.wf(source_code.spec_bytes()),
    ensures
        crate::paths::opt_view(r) == node_name(*node, source_code.spec_bytes()),
{
    let mut i: usize = 0;
    while i < node.children.len()
        invariant
            node.wf(source_code.spec_bytes()),
            i <= node.children@.len(),
            find_name_from(node.children@, 0) == find_name_from(node.children@, i as int),
        decreases node.children@.len() - i,
    {
        if kind_is(&node.children[i], "identifier") || kind_is(&node.children[i], "type_identifier") {
            return Some(text_of(source_code, &node.children[i]));
        }
        i = i + 1;
    }
    None
}

fn block_doc(text: &String) -> (r: String)
    ensures
        r@ == block_doc_text(text@),
{
    let chars = to_chars(text.as_str());
    let ls = split_lines(&chars);
    let star = to_chars(" *");
    let space = to_chars(" ");
    let ghost all = ls@.map_values(|x: Vec<char>| x@);
    let mut parts: Vec<String> = Vec::new();
    let mut i: usize = 0;
    while i < ls.len()
        invariant
            all == ls@.map_values(|x: Vec<char>| x@),
            all == lines(text@),
            star@ == " *"@,
            space@ == " "@,
            i <= ls@.len(),
            views(parts@) == all.subrange(0, i as int).map_values(|l: Seq<char>| block_line(l)),
        decreases ls@.len() - i,
    {
        let line = &ls[i];
        let a = skip_prefixes(line, 0, &star);
        let b = skip_prefixes(line, a, &space);
        assert(line@.subrange(0, line@.len() as int) =~= line@);
        let ghost before = views(parts@);
        parts.push(string_from_chars(line, b, line.len()));
        proof {
            let f = |l: Seq<char>| block_line(l);
            assert(all.subrange(0, i + 1).map_values(f) =~= all.subrange(0, i as int).map_values(f).push(f(all[i as int])));
            assert(views(parts@) =~= before.push(line@.subrange(b as int, line@.len() as int)));
        }
        i = i + 1;
    }
    assert(all.subrange(0, all.len() as int) =~= all);
    let joined = join_strings(&parts, "\n");
    crate::strings::trim_end_str(joined.as_str())
}

fn line_docs(cs: &Vec<SyntaxNode>, j: usize, source_code: &str) -> (r: Vec<String>)
    requires
        j < cs@.len(),
        forall|t: int| 0 <= t < cs@.len() ==> (#[trigger] cs@[t]).wf(source_code.spec_bytes()),
    ensures
        views(r@) == line_doc_items(cs@, j as int, source_code.spec_bytes()),
    decreases j,
{
    let node = &cs[j];
    if find_child(node, "outer_doc_comment_marker").is_none() {
        return Vec::new();
    }
    let mut here: Vec<String> = Vec::new();
    match find_child(node, "doc_comment") {
        Some(d) => {
            here.push(text_of(source_code, &node.children[d]));
        },
        None => {},
    }
    if j >= 1 && kind_is(&cs[j - 1], "line_comment") {
        let mut rest = line_docs(cs, j - 1, source_code);
        let ghost h = views(here@);
        let ghost t = views(rest@);
        here.append(&mut rest);
        assert(views(here@) =~= h + t);
    } else {
        assert(views(here@) =~= line_doc_items(cs@, j as int, source_code.spec_bytes()));
    }
    here
}

fn extract_outer_doc_comments(cs: &Vec<SyntaxNode>, i: usize, source_code: &str) -> (r: Option<String>)
    requires
        i < cs@.len(),
        forall|t: int| 0 <= t < cs@.len() ==> (#[trigger] cs@[t]).wf(source_code.spec_bytes()),
    ensures
        crate::paths::opt_view(r) == outer_doc(cs@, i as int, source_code.spec_bytes()),
{
    if i == 0 {
        return None;
    }
    let sibling = &cs[i - 1];
    if find_child(sibling, "outer_doc_comment_marker").is_none() {
        return None;
    }
    if kind_is(sibling, "block_comment") {
        match find_child(sibling, "doc_comment") {
            Some(d) => {
                let text = text_of(source_code, &sibling.children[d]);
                Some(block_doc(&text))
            },
            None => None,
        }
    } else if kind_is(sibling, "line_comment") {
        let items = line_docs(cs, i - 1, source_code);
        if items.len() == 0 {
            return None;
        }
        let ghost all = views(items@);
        let space = to_chars(" ");
        let mut parts: Vec<String> = Vec::new();
        let mut k: usize = items.len();
        while k > 0
            invariant
                all == views(items@),
                space@ == " "@,
                k <= items@.len(),
                views(parts@) == all.reverse().subrange(0, items@.len() - k).map_values(|t: Seq<char>| line_doc_text(t)),
            decreases k,
        {
            let chars = to_chars(items[k - 1].as_str());
            let a = skip_prefixes(&chars, 0, &space);
            assert(chars@.subrange(0, chars@.len() as int) =~= chars@);
            let rest = string_from_chars(&chars, a, chars.len());
            let rest_chars = to_chars(rest.as_str());
            let b = skip_suffixes(&rest_chars, rest_chars.len(), '\n');
            assert(rest_chars@.subrange(0, rest_chars@.len() as int) =~= rest_chars@);
            let ghost before = views(parts@);
            parts.push(string_from_chars(&rest_chars, 0, b));
            proof {
                let f = |t: Seq<char>| line_doc_text(t);
                let rv = all.reverse();
                assert(rv[items@.len() - k] == all[k - 1]);
                assert(rv.subrange(0, items@.len() - k + 1).map_values(f) =~= rv.subrange(0, items@.len() - k).map_values(f).push(f(all[k - 1])));
                assert(views(parts@) =~= before.push(f(all[k - 1])));
            }
            k = k - 1;
        }
        assert(all.reverse().subrange(0, all.len() as int) =~= all.reverse());
        Some(join_strings(&parts, "\n"))
    } else {
        None
    }
}

/// Scanning more children of a module only extends what was found: the
/// namespaces and symbols of the first `j` children are prefixes of those of
/// the first `k`, and a public named item among them is a symbol, with its
/// text and doc comment, right after the symbols of the children before it.
pub proof fn lemma_scan_module_extends(node: SyntaxNode, src: Seq<u8>, path: Seq<char>, j: int, k: int)
    requires
        0 <= j <= k <= node.children@.len(),
        scan_module(node, src, path, k) is Ok,
    ensures
        scan_module(node, src, path, j) is Ok,
        ({
            let (m1, s1) = scan_module(node, src, path, j)->Ok_0;
            let (m2, s2) = scan_module(node, src, path, k)->Ok_0;
            &&& m1.len() <= m2.len() && m2.subrange(0, m1.len() as int) == m1
            &&& s1.len() <= s2.len() && s2.subrange(0, s1.len() as int) == s1
            &&& (j < k && is_public_node(node.children@[j], src) && is_item_kind(node.children@[j].kind@)
                && node_name(node.children@[j], src) is Some) ==> s1.len() < s2.len() && s2[s1.len() as int] == (
                    node_name(node.children@[j], src)->Some_0,
                    node_text(src, node.children@[j]),
                    outer_doc(node.children@, j, src),
                )
        }),
    decreases k - j,
{
    if j < k {
        assert(scan_module(node, src, path, j + 1) is Ok) by {
            lemma_scan_module_ok_prefix(node, src, path, j + 1, k);
        }
        lemma_scan_module_extends(node, src, path, j + 1, k);
        assert(scan_module(node, src, path, j) is Ok);
        let (m0, s0) = scan_module(node, src, path, j)->Ok_0;
        let (m1, s1) = scan_module(node, src, path, j + 1)->Ok_0;
        let (m2, s2) = scan_module(node, src, path, k)->Ok_0;
        assert(m1.subrange(0, m0.len() as int) =~= m0);
        assert(s1.subrange(0, s0.len() as int) =~= s0);
        assert(m2.subrange(0, m0.len() as int) =~= m1.subrange(0, m0.len() as int));
        assert(s2.subrange(0, s0.len() as int) =~= s1.subrange(0, s0.len() as int));
        if is_public_node(node.children@[j], src) && is_item_kind(node.children@[j].kind@)
            && node_name(node.children@[j], src) is Some {
            assert(s2[s0.len() as int] == s2.subrange(0, s1.len() as int)[s0.len() as int]);
        }
    } else {
        let (m0, s0) = scan_module(node, src, path, j)->Ok_0;
        assert(m0.subrange(0, m0.len() as int) =~= m0);
        assert(s0.subrange(0, s0.len() as int) =~= s0);
    }
}

proof fn lemma_scan_module_ok_prefix(node: SyntaxNode, src: Seq<u8>, path: Seq<char>, j: int, k: int)
    requires
        0 <= j <= k <= node.children@.len(),
        scan_module(node, src, path, k) is Ok,
    ensures
        scan_module(node, src, path, j) is Ok,
    decreases k - j,
{
    if j < k {
        assert(scan_module(node, src, path, k - 1) is Ok);
        lemma_scan_module_ok_prefix(node, src, path, j, k - 1);
    }
}

/// A run of outer doc line comments is kept whole, nearest first: for the
/// comments `cs[d..=j]`, the doc texts read back from `cs[j]` start with the
/// doc text of each, `cs[t]`'s at position `j - t`.
pub proof fn lemma_line_doc_items_keep_run(cs: Seq<SyntaxNode>, d: int, j: int, src: Seq<u8>)
    requires
        0 <= d <= j < cs.len(),
        forall|t: int| d <= t <= j ==> (#[trigger] cs[t]).kind@ == "line_comment"@
            && has_kind(cs[t].children@, "outer_doc_comment_marker"@) && has_kind(cs[t].children@, "doc_comment"@),
    ensures
        line_doc_items(cs, j, src).len() >= j - d + 1,
        forall|t: int| d <= t <= j ==> line_doc_items(cs, j, src)[j - t]
            == node_text(src, (#[trigger] cs[t]).children@[find_kind(cs[t].children@, "doc_comment"@)]),
    decreases j - d,
{
    assert(cs[j].kind@ == "line_comment"@ && has_kind(cs[j].children@, "outer_doc_comment_marker"@));
    let r = line_doc_items(cs, j, src);
    let here = seq![node_text(src, cs[j].children@[find_kind(cs[j].children@, "doc_comment"@)])];
    if d < j {
        assert(cs[j - 1].kind@ == "line_comment"@);
        assert(r == here + line_doc_items(cs, j - 1, src));
        lemma_line_doc_items_keep_run(cs, d, j - 1, src);
        assert forall|t: int| d <= t <= j implies r[j - t]
            == node_text(src, (#[trigger] cs[t]).children@[find_kind(cs[t].children@, "doc_comment"@)]) by {
            if t < j {
                assert(r[j - t] == line_doc_items(cs, j - 1, src)[j - 1 - t]);
            }
        }
    }
}

} // verus!

verus! {

/// The namespaces of a module node: one for each public inline module (with its
/// own nested ones before it), then one for the node itself, named `mod_path`.
fn extract_modules_from_module(
    module_node: &SyntaxNode,
    source_code: &str,
    mod_path: String,
) -> (r: Result<Vec<Namespace>, LaibraryError>)
    requires
        module_node.wf(source_code.spec_bytes()),
    ensures
        match module_namespaces(*module_node, source_code.spec_bytes(), mod_path@) {
            Ok(v) => r matches Ok(x) && namespace_views(x@) == v,
            Err(e) => r matches Err(LaibraryError::Parse(m)) && m@ == e,
        },
    decreases module_node,
{
    let ghost src = source_code.spec_bytes();
    let ghost path = mod_path@;
    let mut modules: Vec<Namespace> = Vec::new();
    let mut symbols: Vec<Symbol> = Vec::new();
    let n = module_node.children.len();
    let mut i: usize = 0;
    assert(namespace_views(modules@) =~= Seq::<NamespaceView>::empty());
    assert(symbol_views(symbols@) =~= Seq::<SymbolView>::empty());
    while i < n
        invariant
            n == module_node.children@.len(),
            module_node.wf(src),
            src == source_code.spec_bytes(),
            path == mod_path@,
            i <= n,
            scan_module(*module_node, src, path, i as int) == Ok::<_, Seq<char>>(
                (namespace_views(modules@), symbol_views(symbols@)),
            ),
        decreases n - i,
    {
        let child = &module_node.children[i];
        assert(child.wf(src));
        let ghost mods_before = namespace_views(modules@);
        let ghost syms_before = symbol_views(symbols@);
        if !is_public(child, source_code) {
        } else if kind_is(child, "function_item") || kind_is(child, "struct_item") || kind_is(child, "enum_item")
            || kind_is(child, "trait_item") || kind_is(child, "macro_definition") {
            match extract_name(child, source_code) {
                Some(name) => {
                    let doc_comment = extract_outer_doc_comments(&module_node.children, i, source_code);
                    let code = text_of(source_code, child);
                    symbols.push(Symbol { name, source_code: code, doc_comment });
                    assert(symbol_views(symbols@) =~= syms_before.push(symbols@.last().view()));
                },
                None => {},
            }
        } else if kind_is(child, "mod_item") {
            let mod_name = match extract_name(child, source_code) {
                Some(m) => m,
                None => {
                    proof { lemma_scan_err(*module_node, src, path, i + 1, n as int); }
                    return Err(LaibraryError::Parse(String::from_str("Invalid module name")));
                },
            };
            let new_module_path = if mod_path.as_str().is_empty() {
                mod_name.clone()
            } else {
                let mut p = mod_path.clone();
                p.append("::");
                p.append(mod_name.as_str());
                p
            };
            proof {
                if mod_path@.len() != 0 {
                    assert(mod_path@.len() > 0);
                }
            }
            match find_child(child, "declaration_list") {
                Some(d) => {
                    let declaration_node = &child.children[d];
                    assert(declaration_node.wf(src));
                    match extract_modules_from_module(declaration_node, source_code, new_module_path) {
                        Ok(mut extracted) => {
                            let ghost e = namespace_views(extracted@);
                            modules.append(&mut extracted);
                            assert(namespace_views(modules@) =~= mods_before + e);
                        },
                        Err(e) => {
                            proof { lemma_scan_err(*module_node, src, path, i + 1, n as int); }
                            return Err(e);
                        },
                    }
                },
                None => {
                    let code = text_of(source_code, child);
                    symbols.push(Symbol { name: mod_name, source_code: code, doc_comment: None });
                    assert(symbol_views(symbols@) =~= syms_before.push(symbols@.last().view()));
                },
            }
        }
        i = i + 1;
    }
    let ghost mods_final = namespace_views(modules@);
    let ghost syms_final = symbol_views(symbols@);
    modules.push(Namespace { name: mod_path, symbols });
    assert(namespace_views(modules@) =~= mods_final.push((path, syms_final)));
    Ok(modules)
}

/// The module path a source file stands for: `None` for a `lib.rs`, or when
/// no component is found for a file other than a `mod.rs`; the components
/// joined with `::` otherwise.
pub open spec fn module_path_of(p: Seq<char>) -> Option<Seq<char>>
    recommends
        file_name(p) is Some,
{
    let name = file_name(p)->0;
    let cs = module_components(p, name);
    if name == "lib.rs"@ {
        None
    } else if cs.len() == 0 && name != "mod.rs"@ {
        None
    } else {
        Some(join(cs, "::"@))
    }
}

/// The module path a source file stands for, read from its path.
pub fn determine_module_path(file_path: &str) -> (r: Result<Option<String>, LaibraryError>)
    ensures
        match file_name(file_path@) {
            None => r matches Err(LaibraryError::Parse(m)) && m@ == "Invalid file name"@,
            Some(_) => r matches Ok(o) && crate::paths::opt_view(o) == module_path_of(file_path@),
        },
{
    let (name, components) = match file_module_components(file_path) {
        Some(found) => found,
        None => return Err(LaibraryError::Parse(String::from_str("Invalid file name"))),
    };
    let lib_rs = to_chars("lib.rs");
    let mod_rs = to_chars("mod.rs");
    if crate::paths::chars_eq(&name, &lib_rs) {
        return Ok(None);
    }
    if components.len() == 0 && !crate::paths::chars_eq(&name, &mod_rs) {
        Ok(None)
    } else {
        Ok(Some(join_strings(&components, "::")))
    }
}

/// All source files' namespaces, file by file.
pub open spec fn sources_namespaces(sources: Seq<SourceFile>, k: int) -> Result<Seq<NamespaceView>, Seq<char>>
    decreases k,
{
    if k <= 0 || k > sources.len() {
        Ok(Seq::empty())
    } else {
        match sources_namespaces(sources, k - 1) {
            Err(e) => Err(e),
            Ok(before) => {
                let f = sources[k - 1];
                match file_name(f.path@) {
                    None => Err("Invalid file name"@),
                    Some(_) => {
                        let path = match module_path_of(f.path@) {
                            Some(p) => p,
                            None => Seq::empty(),
                        };
                        match module_namespaces(f.tree, vstd::utf8::encode_utf8(f.content@), path) {
                            Err(e) => Err(e),
                            Ok(ns) => Ok(before + ns),
                        }
                    },
                }
            },
        }
    }
}

proof fn lemma_sources_err(sources: Seq<SourceFile>, i: int, n: int)
    requires
        0 <= i <= n <= sources.len(),
        sources_namespaces(sources, i) is Err,
    ensures
        sources_namespaces(sources, n) == sources_namespaces(sources, i),
    decreases n - i,
{
    if i < n {
        lemma_sources_err(sources, i, n - 1);
    }
}

/// The namespaces of all source files, each file's module path taken from its
/// path: for each file, its inline modules' namespaces, then its own.
pub fn extract_modules(sources: &[SourceFile]) -> (r: Result<Vec<Namespace>, LaibraryError>)
    requires
        forall|i: int| 0 <= i < sources@.len() ==> (#[trigger] sources@[i]).tree.wf(vstd::utf8::encode_utf8(sources@[i].content@)),
    ensures
        match sources_namespaces(sources@, sources@.len() as int) {
            Ok(v) => r matches Ok(x) && namespace_views(x@) == v,
            Err(e) => r matches Err(LaibraryError::Parse(m)) && m@ == e,
        },
{
    let mut modules: Vec<Namespace> = Vec::new();
    let mut i: usize = 0;
    assert(namespace_views(modules@) =~= Seq::<NamespaceView>::empty());
    while i < sources.len()
        invariant
            i <= sources@.len(),
            forall|i: int| 0 <= i < sources@.len() ==> (#[trigger] sources@[i]).tree.wf(vstd::utf8::encode_utf8(sources@[i].content@)),
            sources_namespaces(sources@, i as int) == Ok::<_, Seq<char>>(namespace_views(modules@)),
        decreases sources@.len() - i,
    {
        let source = &sources[i];
        let mod_path = match determine_module_path(source.path.as_str()) {
            Ok(p) => p,
            Err(e) => {
                proof { lemma_sources_err(sources@, i + 1, sources@.len() as int); }
                return Err(e);
            },
        };
        let mod_path = match mod_path {
            Some(p) => p,
            None => String::new(),
        };
        let ghost before = namespace_views(modules@);
        match extract_modules_from_module(&source.tree, source.content.as_str(), mod_path) {
            Ok(mut found) => {
                let ghost f = namespace_views(found@);
                modules.append(&mut found);
                assert(namespace_views(modules@) =~= before + f);
            },
            Err(e) => {
                proof { lemma_sources_err(sources@, i + 1, sources@.len() as int); }
                return Err(e);
            },
        }
        i = i + 1;
    }
    Ok(modules)
}

} // verus!

verus! {

/// Skipping directories other than `src` before the `src` component leaves
/// what follows it.
proof fn lemma_after_src_prefix(prefix: Seq<Seq<char>>, rest: Seq<Seq<char>>)
    requires
        forall|i: int| 0 <= i < prefix.len() ==> #[trigger] prefix[i] != seq!['s', 'r', 'c'],
    ensures
        crate::paths::after_src(prefix + rest) == crate::paths::after_src(rest),
    decreases prefix.len(),
{
    if prefix.len() > 0 {
        let tail = prefix.drop_first();
        assert((prefix + rest)[0] == prefix[0]);
        assert((prefix + rest).drop_first() =~= tail + rest);
        assert forall|i: int| 0 <= i < tail.len() implies #[trigger] tail[i] != seq!['s', 'r', 'c'] by {
            assert(tail[i] == prefix[i + 1]);
        }
        lemma_after_src_prefix(tail, rest);
    } else {
        assert(prefix + rest =~= rest);
    }
}

/// The module path of the source file `p1/…/pm/src/d1/…/dn/k.rs`, under any
/// directories `p1/…/pm` none of which is named `src`, and from the root
/// (`/p1/…`) when `rooted` (joining after an empty piece puts the `/` in
/// front): none for a `lib.rs`, the directories `d1::…::dn` for a `mod.rs`,
/// and `d1::…::dn::k` otherwise; the directories and `k` are plain names
/// without `/`, and `k` has no `.`.
pub proof fn lemma_module_path_of_source_file(rooted: bool, prefix: Seq<Seq<char>>, dirs: Seq<Seq<char>>, k: Seq<char>)
    requires
        forall|i: int| 0 <= i < prefix.len() ==> crate::paths::is_normal(#[trigger] prefix[i]) && !prefix[i].contains('/')
            && prefix[i] != "src"@,
        forall|i: int| 0 <= i < dirs.len() ==> crate::paths::is_normal(#[trigger] dirs[i]) && !dirs[i].contains('/'),
        k.len() > 0,
        !k.contains('/'),
        !k.contains('.'),
    ensures
        module_path_of(join((if rooted { seq![Seq::<char>::empty()] } else { Seq::empty() }) + prefix
            + seq!["src"@] + dirs + seq![k + ".rs"@], "/"@)) == if k == "lib"@ {
            None
        } else if k == "mod"@ {
            Some(join(dirs, "::"@))
        } else {
            Some(join(dirs.push(k), "::"@))
        },
{
    reveal_strlit("/");
    reveal_strlit("src");
    reveal_strlit(".rs");
    reveal_strlit("lib");
    reveal_strlit("mod");
    reveal_strlit("lib.rs");
    reveal_strlit("mod.rs");
    let file = k + ".rs"@;
    let parts = prefix + seq!["src"@] + dirs + seq![file];
    assert("/"@ =~= seq!['/']);
    assert(!file.contains('/')) by {
        if file.contains('/') {
            let t = choose|t: int| 0 <= t < file.len() && file[t] == '/';
            if t < k.len() {
                assert(k[t] == '/');
            }
        }
    }
    assert(!"src"@.contains('/')) by {
        if "src"@.contains('/') {
            let t = choose|t: int| 0 <= t < 3 && "src"@[t] == '/';
        }
    }
    assert forall|i: int| 0 <= i < parts.len() implies !(#[trigger] parts[i]).contains('/') && crate::paths::is_normal(parts[i]) by {
        if i < prefix.len() {
            assert(parts[i] == prefix[i]);
        } else if i == prefix.len() {
            assert(parts[i] == "src"@);
        } else if i < prefix.len() + dirs.len() + 1 {
            assert(parts[i] == dirs[i - prefix.len() - 1]);
        } else {
            assert(parts[i] == file);
            assert(file.len() > 3);
        }
    }
    let lead = if rooted { seq![Seq::<char>::empty()] } else { Seq::<Seq<char>>::empty() };
    let full = lead + parts;
    assert forall|i: int| 0 <= i < full.len() implies !(#[trigger] full[i]).contains('/') by {
        if i >= lead.len() {
            assert(full[i] == parts[i - lead.len()]);
        } else {
            assert(full[i] == Seq::<char>::empty());
        }
    }
    crate::paths::lemma_split_join(full, '/');
    crate::paths::lemma_pieces_all_normal(parts);
    if rooted {
        crate::paths::lemma_pieces_after_root(parts);
    } else {
        assert(full =~= parts);
    }
    crate::paths::lemma_rs_stem(k);
    let p = join(full, "/"@);
    assert(full == lead + prefix + seq!["src"@] + dirs + seq![k + ".rs"@]) by {
        assert(full =~= lead + prefix + seq!["src"@] + dirs + seq![k + ".rs"@]);
    }
    assert(parts.last() == file);
    assert(file != seq!['.', '.']);
    assert(crate::paths::file_name(p) == Some(file));
    assert(parts.drop_last() =~= prefix + (seq!["src"@] + dirs));
    assert((seq!["src"@] + dirs)[0] == seq!['s', 'r', 'c']);
    assert((seq!["src"@] + dirs).drop_first() =~= dirs);
    assert(crate::paths::parent_components(p) == prefix + (seq!["src"@] + dirs));
    assert(crate::paths::after_src(seq!["src"@] + dirs) == dirs);
    assert forall|i: int| 0 <= i < prefix.len() implies #[trigger] prefix[i] != seq!['s', 'r', 'c'] by {
        assert("src"@ =~= seq!['s', 'r', 'c']);
    }
    lemma_after_src_prefix(prefix, seq!["src"@] + dirs);
    assert((file == "lib.rs"@) == (k == "lib"@)) by {
        if k == "lib"@ {
            assert(file =~= "lib.rs"@);
        }
        if file == "lib.rs"@ {
            assert(k =~= file.subrange(0, 3));
            assert(k =~= "lib"@);
        }
    }
    assert((file == "mod.rs"@) == (k == "mod"@)) by {
        if k == "mod"@ {
            assert(file =~= "mod.rs"@);
        }
        if file == "mod.rs"@ {
            assert(k =~= file.subrange(0, 3));
            assert(k =~= "mod"@);
        }
    }
}

} // verus!
