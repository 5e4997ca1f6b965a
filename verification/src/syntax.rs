//! A plain syntax tree of Rust source code, built from a tree-sitter parse.

use vstd::prelude::*;
use vstd::string::StringSliceAdditionalSpecFns;
use vstd::utf8::{decode_utf8, encode_utf8, is_char_boundary};
use crate::ts;

verus! {

/// One node of a concrete syntax tree: its grammar kind, the field under which
/// it stands in its parent, the byte range it spans and its children.
#[derive(Debug)]
pub struct SyntaxNode {
    pub kind: String,
    pub field_name: Option<String>,
    pub start_byte: usize,
    pub end_byte: usize,
    pub children: Vec<SyntaxNode>,
}

impl SyntaxNode {
    /// The node and all its descendants span character-aligned ranges of `src`.
    pub open spec fn wf(self, src: Seq<u8>) -> bool
        decreases self,
    {
        &&& self.start_byte <= self.end_byte <= src.len()
        &&& is_char_boundary(src, self.start_byte as int)
        &&& is_char_boundary(src, self.end_byte as int)
        &&& forall|i: int| 0 <= i < self.children@.len() ==> (#[trigger] self.children@[i]).wf(src)
        &&& forall|i: int| 0 <= i < self.children@.len() ==> self.start_byte <= (#[trigger] self.children@[i]).start_byte
            && self.children@[i].end_byte <= self.end_byte
    }
}

/// A parsed source file: the root of its syntax tree and whether the parser
/// reported a syntax error anywhere in it.
#[derive(Debug)]
pub struct SourceTree {
    pub root: SyntaxNode,
    pub has_error: bool,
}

/// Whether `n` is the copy of the node at `path` in the `tree_sitter_rust`
/// parse of `text`, standing under `field`, with its subtree, made with
/// `fuel` as the bound on its depth: every node spans a character-aligned
/// range of the text inside its parent's, and has at most 2^32 children.
pub open spec fn copies(n: SyntaxNode, text: Seq<char>, path: Seq<int>, field: Option<Seq<char>>, fuel: int) -> bool
    decreases fuel,
{
    let b = encode_utf8(text);
    let s = ts::rust_start(text, path);
    let e = ts::rust_end(text, path);
    let c = ts::rust_child_count(text, path);
    &&& fuel > 0
    &&& 0 <= s <= e
    &&& is_char_boundary(b, s)
    &&& is_char_boundary(b, e)
    &&& 0 <= c <= 0x1_0000_0000
    &&& n.kind@ == ts::rust_kind(text, path)
    &&& crate::paths::opt_view(n.field_name) == field
    &&& n.start_byte == s
    &&& n.end_byte == e
    &&& n.children@.len() == c
    &&& forall|i: int| 0 <= i < c ==> {
        &&& copies(#[trigger] n.children@[i], text, path.push(i), ts::rust_field(text, path, i), fuel - 1)
        &&& s <= n.children@[i].start_byte
        &&& n.children@[i].end_byte <= e
    }
}

/// The depth bound a copy of the parse of `text` is made with: one more than
/// the number of its nodes.
pub open spec fn root_fuel(text: Seq<char>) -> int {
    let d = ts::rust_descendants(text, Seq::empty());
    if d < usize::MAX { d + 1 } else { d }
}

/// Whether `n` is the copy of the `tree_sitter_rust` parse of `text`. The
/// parse fixes every node of a copy: its kind, field, byte range and children,
/// so whatever reads those gives one result on every copy.
pub open spec fn rust_copy(n: SyntaxNode, text: Seq<char>) -> bool {
    copies(n, text, Seq::empty(), None, root_fuel(text))
}

/// Whether the `tree_sitter_rust` parse of `text` can be copied: every node
/// spans a character-aligned range of the text inside its parent's.
pub open spec fn rust_parse_fits(text: Seq<char>) -> bool {
    exists|n: SyntaxNode| rust_copy(n, text)
}

/// The copy of the `tree_sitter_rust` parse of `text`, when that parse fits it.
pub open spec fn rust_tree_of(text: Seq<char>) -> Option<SyntaxNode> {
    if rust_parse_fits(text) {
        Some(choose|n: SyntaxNode| rust_copy(n, text))
    } else {
        None
    }
}

/// Whether `tree` is what copying the `tree_sitter_rust` parse of `text`
/// gives: a copy of it, or nothing when it does not fit the text.
pub open spec fn rust_tree_fits(tree: Option<SyntaxNode>, text: Seq<char>) -> bool {
    match tree {
        Some(t) => rust_copy(t, text),
        None => !rust_parse_fits(text),
    }
}

/// A copy of a node of the parse spans a character-aligned range of the text.
pub proof fn lemma_copies_wf(n: SyntaxNode, text: Seq<char>, path: Seq<int>, field: Option<Seq<char>>, fuel: int)
    requires
        copies(n, text, path, field, fuel),
    ensures
        n.wf(encode_utf8(text)),
    decreases fuel,
{
    let b = encode_utf8(text);
    vstd::utf8::encode_utf8_valid_utf8(text);
    assert(is_char_boundary(b, n.end_byte as int));
    assert(n.end_byte <= b.len());
    assert forall|i: int| 0 <= i < n.children@.len() implies (#[trigger] n.children@[i]).wf(b) by {
        lemma_copies_wf(n.children@[i], text, path.push(i), ts::rust_field(text, path, i), fuel - 1);
    }
}

/// `rust_tree_of` gives what copying the parse gives, and a copy spans the text.
pub proof fn lemma_rust_tree_of(text: Seq<char>)
    ensures
        rust_tree_fits(rust_tree_of(text), text),
        rust_tree_of(text) matches Some(t) ==> t.wf(encode_utf8(text)),
{
    if rust_parse_fits(text) {
        let t = choose|n: SyntaxNode| rust_copy(n, text);
        lemma_copies_wf(t, text, Seq::empty(), None, root_fuel(text));
    }
}

/// Whether `copied` is the copy of the node at `path`, or nothing when there
/// is no such copy.
pub open spec fn copy_result(copied: Option<SyntaxNode>, text: Seq<char>, path: Seq<int>, field: Option<Seq<char>>, fuel: int) -> bool {
    match copied {
        Some(n) => copies(n, text, path, field, fuel),
        None => forall|n: SyntaxNode| !#[trigger] copies(n, text, path, field, fuel),
    }
}

/// Copies a tree-sitter node and its subtree into a `SyntaxNode`, checking that
/// every range lies on character boundaries of `source`. `fuel` bounds the
/// depth of the copy; `None` when a range is out of place or the fuel runs out.
fn copy_node(
    node: &tree_sitter::Node,
    source: &str,
    field_name: Option<String>,
    fuel: usize,
) -> (copied: Option<SyntaxNode>)
    ensures
        copied matches Some(n) ==> n.wf(source.spec_bytes()) && n.field_name == field_name,
        ts::node_site(*node) matches Some((t, p)) ==> (t == source@
            ==> copy_result(copied, t, p, crate::paths::opt_view(field_name), fuel as int)),
    decreases fuel,
{
    let ghost site = ts::node_site(*node);
    let ghost known = site matches Some((t, p)) && t == source@;
    let ghost t = site->Some_0.0;
    let ghost p = site->Some_0.1;
    let ghost f = crate::paths::opt_view(field_name);
    if fuel == 0 {
        return None;
    }
    let start = ts::node_start_byte(node);
    let end = ts::node_end_byte(node);
    proof { vstd::utf8::encode_utf8_valid_utf8(source@); }
    if !(start <= end && source.is_char_boundary(start) && source.is_char_boundary(end)) {
        return None;
    }
    let count = ts::node_child_count(node);
    let mut children: Vec<SyntaxNode> = Vec::new();
    let mut i: usize = 0;
    while i < count
        invariant
            fuel > 0,
            i <= count,
            i <= 0x1_0000_0000,
            children@.len() == i,
            f == crate::paths::opt_view(field_name),
            known == (site matches Some((tt, pp)) && tt == source@),
            known ==> site == Some((t, p)),
            known ==> t == source@ && start == ts::rust_start(t, p) && end == ts::rust_end(t, p)
                && count == ts::rust_child_count(t, p) && site == Some((t, p)),
            site == ts::node_site(*node),
            forall|j: int| 0 <= j < children@.len() ==> (#[trigger] children@[j]).wf(source.spec_bytes()),
            forall|j: int| 0 <= j < children@.len() ==> start <= (#[trigger] children@[j]).start_byte
                && children@[j].end_byte <= end,
            known ==> forall|j: int| 0 <= j < children@.len() ==>
                copies(#[trigger] children@[j], t, p.push(j), ts::rust_field(t, p, j), fuel - 1),
        decreases count - i,
    {
        if i > 0xffff_ffffusize {
            return None;
        }
        let child = match ts::node_child(node, i) {
            Some(child) => child,
            None => return None,
        };
        let child_field = ts::node_field_name_for_child(node, i as u32);
        let child_fuel: usize = fuel - 1;
        let ghost child_f = crate::paths::opt_view(child_field);
        let copied_child = copy_node(&child, source, child_field, child_fuel);
        proof {
            if known {
                assert(ts::node_site(child) == Some((t, p.push(i as int))));
                assert(copy_result(copied_child, t, p.push(i as int), child_f, child_fuel as int));
            }
        }
        match copied_child {
            Some(c) => {
                if !(start <= c.start_byte && c.end_byte <= end) {
                    proof {
                        if known {
                            assert forall|n: SyntaxNode| !copies(n, t, p, f, fuel as int) by {
                                if copies(n, t, p, f, fuel as int) {
                                    assert(copies(n.children@[i as int], t, p.push(i as int), ts::rust_field(t, p, i as int), fuel - 1));
                                }
                            }
                        }
                    }
                    return None;
                }
                children.push(c);
            },
            None => {
                proof {
                    if known {
                        assert forall|n: SyntaxNode| !copies(n, t, p, f, fuel as int) by {
                            if copies(n, t, p, f, fuel as int) {
                                assert(copies(n.children@[i as int], t, p.push(i as int), ts::rust_field(t, p, i as int), fuel - 1));
                            }
                        }
                    }
                }
                return None;
            },
        }
        i = i + 1;
    }
    let r = SyntaxNode { kind: ts::node_kind(node), field_name, start_byte: start, end_byte: end, children };
    proof {
        if known {
            assert(copies(r, t, p, f, fuel as int));
        }
    }
    Some(r)
}

/// Parses `source` with `parser` and copies the resulting tree.
///
/// `None` when tree-sitter produces no tree (no language set, or parsing was
/// cancelled), or when the tree does not fit the source. With a parser ready
/// for the Rust grammar, the tree is the copy of the Rust parse of the text,
/// and it is missing exactly when that parse does not fit the text.
pub fn parse_source_tree(parser: &mut tree_sitter::Parser, source: &str) -> (tree: Option<SourceTree>)
    ensures
        tree matches Some(t) ==> t.root.wf(source.spec_bytes()),
        ts::parser_plain(*final(parser)) == ts::parser_plain(*old(parser)),
        ts::parser_ready(*final(parser)) == ts::parser_ready(*old(parser)),
        ts::parser_ready(*old(parser)) ==> rust_tree_outcome(tree, source@),
{
    match ts::parse_text(parser, source) {
        Some(parsed) => copy_tree(&parsed, source),
        None => None,
    }
}

/// Whether `tree` is what copying the `tree_sitter_rust` parse of `text`
/// gives: its copy, with whether it holds a syntax error, or nothing when the
/// parse does not fit the text.
pub open spec fn rust_tree_outcome(tree: Option<SourceTree>, text: Seq<char>) -> bool {
    match tree {
        Some(t) => rust_copy(t.root, text) && t.has_error == ts::rust_has_error(text, Seq::empty()),
        None => !rust_parse_fits(text),
    }
}

/// Copies a tree-sitter tree of `source`, with whether it holds a syntax error.
///
/// `None` when the tree does not fit the source.
pub(crate) fn copy_tree(parsed: &tree_sitter::Tree, source: &str) -> (tree: Option<SourceTree>)
    ensures
        tree matches Some(t) ==> t.root.wf(source.spec_bytes()),
        ts::tree_site(*parsed) == Some(source@) ==> rust_tree_outcome(tree, source@),
{
    let root = ts::tree_root(parsed);
    let has_error = ts::node_has_error(&root);
    let size = ts::node_descendant_count(&root);
    let fuel = if size < usize::MAX { size + 1 } else { size };
    match copy_node(&root, source, None, fuel) {
        Some(root) => Some(SourceTree { root, has_error }),
        None => None,
    }
}

} // verus!

verus! {

/// The source text a node spans.
pub open spec fn node_text(src: Seq<u8>, n: SyntaxNode) -> Seq<char> {
    decode_utf8(src.subrange(n.start_byte as int, n.end_byte as int))
}

/// The position of the first node of kind `k` in `cs` at or after `i`, or -1.
pub open spec fn find_kind_from(cs: Seq<SyntaxNode>, k: Seq<char>, i: int) -> int
    decreases cs.len() - i,
{
    if i < 0 || i >= cs.len() {
        -1
    } else if cs[i].kind@ == k {
        i
    } else {
        find_kind_from(cs, k, i + 1)
    }
}

/// The position of the first node of kind `k` in `cs`, or -1.
pub open spec fn find_kind(cs: Seq<SyntaxNode>, k: Seq<char>) -> int {
    find_kind_from(cs, k, 0)
}

/// Whether some node of `cs` has kind `k`.
pub open spec fn has_kind(cs: Seq<SyntaxNode>, k: Seq<char>) -> bool {
    find_kind(cs, k) >= 0
}

pub proof fn lemma_find_kind_range(cs: Seq<SyntaxNode>, k: Seq<char>, i: int)
    requires
        0 <= i,
    ensures
        find_kind_from(cs, k, i) == -1 || (i <= find_kind_from(cs, k, i) < cs.len()
            && cs[find_kind_from(cs, k, i)].kind@ == k),
    decreases cs.len() - i,
{
    if i < cs.len() && cs[i].kind@ != k {
        lemma_find_kind_range(cs, k, i + 1);
    }
}

/// The text a node spans, copied into a string.
pub fn text_of(source: &str, node: &SyntaxNode) -> (t: String)
    requires
        node.wf(source.spec_bytes()),
    ensures
        t@ == node_text(source.spec_bytes(), *node),
{
    let slice = crate::strings::byte_slice(source, node.start_byte, node.end_byte);
    String::from_str(slice)
}

/// Whether the node's kind is `kind`.
pub fn kind_is(node: &SyntaxNode, kind: &str) -> (b: bool)
    ensures
        b == (node.kind@ == kind@),
{
    crate::strings::str_eq(node.kind.as_str(), kind)
}

/// The position of the first child of `node` of kind `kind`.
pub fn find_child(node: &SyntaxNode, kind: &str) -> (r: Option<usize>)
    ensures
        match r {
            Some(j) => j == find_kind(node.children@, kind@) && j < node.children@.len()
                && node.children@[j as int].kind@ == kind@,
            None => find_kind(node.children@, kind@) == -1,
        },
{
    let mut i: usize = 0;
    while i < node.children.len()
        invariant
            i <= node.children@.len(),
            find_kind(node.children@, kind@) == find_kind_from(node.children@, kind@, i as int),
        decreases node.children@.len() - i,
    {
        if kind_is(&node.children[i], kind) {
            return Some(i);
        }
        i = i + 1;
    }
    None
}

} // verus!

verus! {

/// The position of the first child in `cs` standing under field `f` at or after `i`, or -1.
pub open spec fn find_field_from(cs: Seq<SyntaxNode>, f: Seq<char>, i: int) -> int
    decreases cs.len() - i,
{
    if i < 0 || i >= cs.len() {
        -1
    } else if cs[i].field_name matches Some(name) && name@ == f {
        i
    } else {
        find_field_from(cs, f, i + 1)
    }
}

/// The position of the first child of `n` under field `f`, as
/// `Node::child_by_field_name` finds it, or -1.
pub open spec fn find_field(n: SyntaxNode, f: Seq<char>) -> int {
    find_field_from(n.children@, f, 0)
}

/// The position of the first child of `node` under field `field`.
pub fn child_by_field_name(node: &SyntaxNode, field: &str) -> (r: Option<usize>)
    ensures
        match r {
            Some(j) => j == find_field(*node, field@) && j < node.children@.len(),
            None => find_field(*node, field@) == -1,
        },
{
    let mut i: usize = 0;
    while i < node.children.len()
        invariant
            i <= node.children@.len(),
            find_field(*node, field@) == find_field_from(node.children@, field@, i as int),
        decreases node.children@.len() - i,
    {
        match &node.children[i].field_name {
            Some(name) => {
                if crate::strings::str_eq(name.as_str(), field) {
                    return Some(i);
                }
            },
            None => {},
        }
        i = i + 1;
    }
    None
}

} // verus!
