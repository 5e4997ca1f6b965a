//! Rendering of a library's metadata and namespaces as one document.

use vstd::prelude::*;
use crate::error::LaibraryError;
use crate::strings::{join, trim, trim_str, views};
use crate::types::{join_sources, sources, Namespace, PackageMetadata};

verus! {

/// A namespace as plain values: name, symbols (name and source code) and doc comment.
pub type NamespaceView = (Seq<char>, Seq<(Seq<char>, Seq<char>)>, Option<Seq<char>>);

/// A namespace's block: its name, then its symbols' source codes in a fence.
pub open spec fn block_text(n: NamespaceView) -> Seq<char> {
    n.0 + ":\n\n```\n"@ + join(n.1.map_values(|s: (Seq<char>, Seq<char>)| s.1), "\n\n"@) + "\n```"@
}

/// The blocks of the namespaces that hold at least one symbol, in order.
pub open spec fn namespace_blocks(ns: Seq<NamespaceView>) -> Seq<Seq<char>>
    decreases ns.len(),
{
    if ns.len() == 0 {
        Seq::empty()
    } else {
        let rest = namespace_blocks(ns.drop_last());
        if ns.last().1.len() > 0 {
            rest.push(block_text(ns.last()))
        } else {
            rest
        }
    }
}

/// The whole document for a library named `name` at `version`, with its
/// trimmed documentation and the blocks of its namespaces.
pub open spec fn context_text(name: Seq<char>, version: Seq<char>, documentation: Seq<char>, ns: Seq<NamespaceView>) -> Seq<char> {
    "<library name=\""@ + name + "\" version=\""@ + version + "\">\n    <documentation>\n"@
        + trim(documentation) + "\n    </documentation>\n    <api>\n"@
        + join(namespace_blocks(ns), "\n\n"@) + "    </api>\n</library>"@
}

/// The views of a sequence of namespaces.
pub open spec fn views_of(ns: Seq<Namespace>) -> Seq<NamespaceView> {
    ns.map_values(|n: Namespace| n@)
}

/// The whole document for a library.
pub open spec fn library_context(m: PackageMetadata, ns: Seq<Namespace>) -> Seq<char> {
    context_text(m.name@, m.version@, m.documentation@, views_of(ns))
}

/// Renders the library's metadata and the namespaces that hold symbols.
pub fn format_library_context(
    metadata: &PackageMetadata,
    namespaces: &[Namespace],
) -> (r: Result<String, LaibraryError>)
    ensures
        r matches Ok(s) && s@ == library_context(*metadata, namespaces@),
{
    let api_content = format_namespaces_content(namespaces);
    let mut out = String::from_str("<library name=\"");
    out.append(metadata.name.as_str());
    out.append("\" version=\"");
    out.append(metadata.version.as_str());
    out.append("\">\n    <documentation>\n");
    let documentation = trim_str(metadata.documentation.as_str());
    out.append(documentation.as_str());
    out.append("\n    </documentation>\n    <api>\n");
    out.append(api_content.as_str());
    out.append("    </api>\n</library>");
    Ok(out)
}

fn format_namespaces_content(namespaces: &[Namespace]) -> (r: String)
    ensures
        r@ == join(namespace_blocks(views_of(namespaces@)), "\n\n"@),
{
    let mut blocks: Vec<String> = Vec::new();
    let mut i: usize = 0;
    while i < namespaces.len()
        invariant
            i <= namespaces@.len(),
            views(blocks@) == namespace_blocks(views_of(namespaces@.subrange(0, i as int))),
        decreases namespaces@.len() - i,
    {
        let ghost before = blocks@;
        assert(views_of(namespaces@.subrange(0, i + 1)).drop_last() =~= views_of(namespaces@.subrange(0, i as int)));
        assert(views_of(namespaces@.subrange(0, i + 1)).last() == namespaces@[i as int]@);
        if namespaces[i].symbols.len() > 0 {
            blocks.push(format_namespace_content(&namespaces[i]));
            assert(views(blocks@) =~= views(before).push(block_text(namespaces@[i as int]@)));
        }
        i = i + 1;
    }
    assert(namespaces@.subrange(0, namespaces@.len() as int) =~= namespaces@);
    crate::strings::join_strings(&blocks, "\n\n")
}

fn format_namespace_content(namespace: &Namespace) -> (r: String)
    ensures
        r@ == block_text(namespace@),
{
    assert(sources(namespace.symbols@) =~= namespace@.1.map_values(|s: (Seq<char>, Seq<char>)| s.1));
    let symbols_formatted = join_sources(&namespace.symbols, "\n\n");
    let mut out = namespace.name.clone();
    out.append(":\n\n```\n");
    out.append(symbols_formatted.as_str());
    out.append("\n```");
    out
}

} // verus!

verus! {

/// Whether a namespace holds symbols.
pub open spec fn holds_symbols(n: NamespaceView) -> bool {
    n.1.len() > 0
}

/// Namespaces without symbols give no block: the blocks of a sequence of
/// namespaces are those of its namespaces that hold symbols, and there are
/// none when no namespace holds a symbol.
pub proof fn lemma_blocks_skip_empty(ns: Seq<NamespaceView>)
    ensures
        namespace_blocks(ns) == namespace_blocks(ns.filter(|n: NamespaceView| holds_symbols(n))),
        (forall|i: int| 0 <= i < ns.len() ==> !holds_symbols(#[trigger] ns[i])) ==> namespace_blocks(ns) == Seq::<Seq<char>>::empty(),
    decreases ns.len(),
{
    let pred = |n: NamespaceView| holds_symbols(n);
    if ns.len() > 0 {
        lemma_blocks_skip_empty(ns.drop_last());
        let f = ns.filter(pred);
        let g = ns.drop_last().filter(pred);
        reveal(Seq::filter);
        assert(ns.filter(pred) == if pred(ns.last()) { g.push(ns.last()) } else { g });
        if pred(ns.last()) {
            assert(f.drop_last() =~= g);
            assert(f.last() == ns.last());
        }
        if forall|i: int| 0 <= i < ns.len() ==> !holds_symbols(#[trigger] ns[i]) {
            assert forall|i: int| 0 <= i < ns.drop_last().len() implies !holds_symbols(#[trigger] ns.drop_last()[i]) by {
                assert(ns.drop_last()[i] == ns[i]);
            }
            assert(!holds_symbols(ns[ns.len() - 1]));
        }
    }
}

/// Namespaces without symbols leave no trace in a library's document: the
/// document is the same when only the namespaces that hold symbols are kept,
/// in order.
pub proof fn lemma_context_skips_empty_namespaces(m: PackageMetadata, ns: Seq<Namespace>, kept: Seq<Namespace>)
    requires
        views_of(kept) == views_of(ns).filter(|n: NamespaceView| holds_symbols(n)),
    ensures
        library_context(m, ns) == library_context(m, kept),
{
    lemma_blocks_skip_empty(views_of(ns));
}

} // verus!
