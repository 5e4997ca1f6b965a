//! Doc comments as they stand in the source: the outer ones before an item and
//! the inner ones at the start of a module.

use vstd::prelude::*;
use vstd::string::StringSliceAdditionalSpecFns;
use crate::strings::{join, views};
use crate::syntax::{find_child, has_kind, kind_is, node_text, text_of, SyntaxNode};

verus! {

/// Whether a comment node is a doc comment of the kind `marker` names.
pub open spec fn is_doc(n: SyntaxNode, marker: Seq<char>) -> bool {
    has_kind(n.children@, marker) && has_kind(n.children@, "doc_comment"@)
}

/// The texts of the outer doc comments that precede `cs[j+1]`, nearest first:
/// line comments are taken until another node, attributes are passed over, and
/// a block comment is taken (with a newline) and ends the run.
pub open spec fn outer_doc_items(cs: Seq<SyntaxNode>, j: int, src: Seq<u8>) -> Seq<Seq<char>>
    decreases j + 1,
{
    if j < 0 || j >= cs.len() {
        Seq::empty()
    } else {
        let sib = cs[j];
        if sib.kind@ == "line_comment"@ {
            if is_doc(sib, "outer_doc_comment_marker"@) {
                seq![node_text(src, sib)] + outer_doc_items(cs, j - 1, src)
            } else {
                Seq::empty()
            }
        } else if sib.kind@ == "block_comment"@ {
            if is_doc(sib, "outer_doc_comment_marker"@) {
                seq![node_text(src, sib) + "\n"@]
            } else {
                Seq::empty()
            }
        } else if sib.kind@ == "attribute_item"@ {
            outer_doc_items(cs, j - 1, src)
        } else {
            Seq::empty()
        }
    }
}

/// The outer doc comments of `cs[i]`, in source order and concatenated.
pub open spec fn outer_doc_comment(cs: Seq<SyntaxNode>, i: int, src: Seq<u8>) -> Option<Seq<char>> {
    let items = outer_doc_items(cs, i - 1, src);
    if items.len() == 0 {
        None
    } else {
        Some(join(items.reverse(), Seq::empty()))
    }
}

/// The inner doc line comments from `cs[i]` on, concatenated, passing over braces.
pub open spec fn inner_doc_from(cs: Seq<SyntaxNode>, i: int, src: Seq<u8>) -> Seq<char>
    decreases cs.len() - i,
{
    if i < 0 || i >= cs.len() {
        Seq::empty()
    } else {
        let c = cs[i];
        if c.kind@ == "line_comment"@ {
            if has_kind(c.children@, "inner_doc_comment_marker"@) {
                node_text(src, c) + inner_doc_from(cs, i + 1, src)
            } else {
                Seq::empty()
            }
        } else if c.kind@ == "{"@ || c.kind@ == "}"@ {
            inner_doc_from(cs, i + 1, src)
        } else {
            Seq::empty()
        }
    }
}

/// The inner doc comment at the start of a node, if any.
pub open spec fn inner_doc_comment(n: SyntaxNode, src: Seq<u8>) -> Option<Seq<char>> {
    let t = inner_doc_from(n.children@, 0, src);
    if t.len() == 0 {
        None
    } else {
        Some(t)
    }
}

fn is_doc_comment(n: &SyntaxNode, marker: &str) -> (b: bool)
    ensures
        b == is_doc(*n, marker@),
{
    find_child(n, marker).is_some() && find_child(n, "doc_comment").is_some()
}

fn outer_items(cs: &Vec<SyntaxNode>, k: usize, source_code: &str) -> (r: Vec<String>)
    requires
        k <= cs@.len(),
        forall|t: int| 0 <= t < cs@.len() ==> (#[trigger] cs@[t]).wf(source_code.spec_bytes()),
    ensures
        views(r@) == outer_doc_items(cs@, k - 1, source_code.spec_bytes()),
    decreases k,
{
    if k == 0 {
        return Vec::new();
    }
    let sib = &cs[k - 1];
    if kind_is(sib, "line_comment") {
        if is_doc_comment(sib, "outer_doc_comment_marker") {
            let mut items = vec![text_of(source_code, sib)];
            let ghost first = views(items@);
            let mut rest = outer_items(cs, k - 1, source_code);
            let ghost r = views(rest@);
            items.append(&mut rest);
            assert(views(items@) =~= first + r);
            assert(first =~= seq![node_text(source_code.spec_bytes(), *sib)]);
            items
        } else {
            Vec::new()
        }
    } else if kind_is(sib, "block_comment") {
        if is_doc_comment(sib, "outer_doc_comment_marker") {
            let mut text = text_of(source_code, sib);
            text.append("\n");
            let items = vec![text];
            assert(views(items@) =~= outer_doc_items(cs@, k - 1, source_code.spec_bytes()));
            items
        } else {
            Vec::new()
        }
    } else if kind_is(sib, "attribute_item") {
        outer_items(cs, k - 1, source_code)
    } else {
        Vec::new()
    }
}

/// The outer doc comments that precede `cs[i]`, in source order and
/// concatenated: line doc comments and one block doc comment, passing over
/// attributes.
pub fn extract_outer_doc_comments(cs: &Vec<SyntaxNode>, i: usize, source_code: &str) -> (r: Option<String>)
    requires
        i < cs@.len(),
        forall|t: int| 0 <= t < cs@.len() ==> (#[trigger] cs@[t]).wf(source_code.spec_bytes()),
    ensures
        crate::paths::opt_view(r) == outer_doc_comment(cs@, i as int, source_code.spec_bytes()),
{
    let items = outer_items(cs, i, source_code);
    if items.len() == 0 {
        return None;
    }
    let ghost all = views(items@);
    let mut out = String::new();
    let mut k: usize = items.len();
    assert(join(all.reverse().subrange(0, 0), Seq::empty()) =~= Seq::<char>::empty());
    while k > 0
        invariant
            all == views(items@),
            k <= items@.len(),
            out@ == join(all.reverse().subrange(0, items@.len() - k), Seq::empty()),
        decreases k,
    {
        out.append(items[k - 1].as_str());
        proof {
            let rv = all.reverse();
            let pre = rv.subrange(0, items@.len() - k);
            let post = rv.subrange(0, items@.len() - k + 1);
            assert(post.drop_last() =~= pre);
            assert(post.last() == all[k - 1]);
            if items@.len() - k == 0 {
                assert(post =~= seq![all[k - 1]]);
            }
        }
        k = k - 1;
    }
    assert(all.reverse().subrange(0, all.len() as int) =~= all.reverse());
    Some(out)
}

/// The inner doc line comments at the start of `node`, concatenated; `None`
/// when there are none.
pub fn extract_inner_doc_comments(node: &SyntaxNode, source_code: &str) -> (r: Option<String>)
    requires
        node.wf(source_code.spec_bytes()),
    ensures
        crate::paths::opt_view(r) == inner_doc_comment(*node, source_code.spec_bytes()),
{
    let ghost src = source_code.spec_bytes();
    let ghost cs = node.children@;
    let mut doc_comment = String::new();
    let mut i: usize = 0;
    while i < node.children.len()
        invariant
            node.wf(src),
            src == source_code.spec_bytes(),
            cs == node.children@,
            i <= cs.len(),
            inner_doc_from(cs, 0, src) == doc_comment@ + inner_doc_from(cs, i as int, src),
        ensures
            inner_doc_from(cs, 0, src) == doc_comment@,
        decreases cs.len() - i,
    {
        let child = &node.children[i];
        assert(child.wf(src));
        if kind_is(child, "line_comment") {
            if find_child(child, "inner_doc_comment_marker").is_some() {
                let text = text_of(source_code, child);
                let ghost before = doc_comment@;
                doc_comment.append(text.as_str());
                assert(before + (text@ + inner_doc_from(cs, i + 1, src)) =~= doc_comment@ + inner_doc_from(cs, i + 1, src));
            } else {
                assert(doc_comment@ + inner_doc_from(cs, i as int, src) =~= doc_comment@);
                break;
            }
        } else if !is_block_delimiter(child) {
            assert(doc_comment@ + inner_doc_from(cs, i as int, src) =~= doc_comment@);
            break;
        }
        i = i + 1;
        proof {
            if i >= cs.len() {
                assert(doc_comment@ + inner_doc_from(cs, i as int, src) =~= doc_comment@);
            }
        }
    }
    if doc_comment.as_str().is_empty() {
        None
    } else {
        Some(doc_comment)
    }
}

fn is_block_delimiter(node: &SyntaxNode) -> (b: bool)
    ensures
        b == (node.kind@ == "{"@ || node.kind@ == "}"@),
{
    kind_is(node, "{") || kind_is(node, "}")
}

/// A run of outer doc line comments is kept whole, nearest first: for the
/// comments `cs[d..=j]`, the doc items read back from `cs[j]` start with each
/// of their texts, `cs[t]` at position `j - t`.
pub proof fn lemma_outer_doc_items_keep_run(cs: Seq<SyntaxNode>, d: int, j: int, src: Seq<u8>)
    requires
        0 <= d <= j < cs.len(),
        forall|t: int| d <= t <= j ==> (#[trigger] cs[t]).kind@ == "line_comment"@
            && is_doc(cs[t], "outer_doc_comment_marker"@),
    ensures
        outer_doc_items(cs, j, src).len() >= j - d + 1,
        forall|t: int| d <= t <= j ==> outer_doc_items(cs, j, src)[j - t] == node_text(src, #[trigger] cs[t]),
    decreases j - d,
{
    assert(cs[j].kind@ == "line_comment"@ && is_doc(cs[j], "outer_doc_comment_marker"@));
    let r = outer_doc_items(cs, j, src);
    assert(r == seq![node_text(src, cs[j])] + outer_doc_items(cs, j - 1, src));
    if d < j {
        lemma_outer_doc_items_keep_run(cs, d, j - 1, src);
        assert forall|t: int| d <= t <= j implies r[j - t] == node_text(src, #[trigger] cs[t]) by {
            if t < j {
                assert(r[j - t] == outer_doc_items(cs, j - 1, src)[j - 1 - t]);
            }
        }
    }
}

/// The inner doc comment read from a run of inner doc line comments holds
/// each of them in order: read from `cs[i]`, it ends with what is read from
/// any later comment `cs[t]` of the run, which starts with that comment's text.
pub proof fn lemma_inner_doc_from_keeps_run(cs: Seq<SyntaxNode>, i: int, t: int, src: Seq<u8>)
    requires
        0 <= i <= t < cs.len(),
        forall|u: int| i <= u <= t ==> (#[trigger] cs[u]).kind@ == "line_comment"@
            && has_kind(cs[u].children@, "inner_doc_comment_marker"@),
    ensures
        ({
            let a = inner_doc_from(cs, i, src);
            let b = inner_doc_from(cs, t, src);
            &&& b.len() <= a.len()
            &&& a.subrange(a.len() - b.len(), a.len() as int) == b
            &&& node_text(src, cs[t]).len() <= b.len()
            &&& b.subrange(0, node_text(src, cs[t]).len() as int) == node_text(src, cs[t])
        }),
    decreases t - i,
{
    assert(cs[t].kind@ == "line_comment"@);
    let b = inner_doc_from(cs, t, src);
    assert(b == node_text(src, cs[t]) + inner_doc_from(cs, t + 1, src));
    assert(b.subrange(0, node_text(src, cs[t]).len() as int) =~= node_text(src, cs[t]));
    let a = inner_doc_from(cs, i, src);
    if i < t {
        lemma_inner_doc_from_keeps_run(cs, i + 1, t, src);
        assert(cs[i].kind@ == "line_comment"@);
        let a1 = inner_doc_from(cs, i + 1, src);
        assert(a == node_text(src, cs[i]) + a1);
        assert(a.subrange(a.len() - b.len(), a.len() as int) =~= a1.subrange(a1.len() - b.len(), a1.len() as int));
    } else {
        assert(a.subrange(0, a.len() as int) =~= a);
    }
}

} // verus!
