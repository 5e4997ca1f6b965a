//! The items found in one Rust source file.

use vstd::prelude::*;
use crate::types::Symbol;

verus! {

/// An item of a source file that matters for the public API.
#[derive(Debug)]
pub enum RustSymbol {
    /// A public definition.
    Symbol { symbol: Symbol },
    /// A public inline module with its items and inner doc comment.
    Module { name: String, content: Vec<RustSymbol>, doc_comment: Option<String> },
    /// A module declared as `mod name;`.
    ModuleDeclaration { name: String, is_public: bool },
    /// A public re-export of `source_path` under `name`.
    SymbolReexport { name: String, source_path: String },
}

/// A parsed source file: its inner doc comment and its items.
#[derive(Debug)]
pub struct RustFile {
    pub doc_comment: Option<String>,
    pub symbols: Vec<RustSymbol>,
}

/// A file item as plain values.
pub enum SymbolTree {
    Symbol(Seq<char>, Seq<char>),
    Module(Seq<char>, Seq<SymbolTree>, Option<Seq<char>>),
    Declaration(Seq<char>, bool),
    Reexport(Seq<char>, Seq<char>),
}

impl RustSymbol {
    /// The item as plain values.
    pub open spec fn view(self) -> SymbolTree
        decreases self, 0int,
    {
        match self {
            RustSymbol::Symbol { symbol } => SymbolTree::Symbol(symbol.name@, symbol.source_code@),
            RustSymbol::Module { name, content, doc_comment } => SymbolTree::Module(
                name@,
                tree_views(content@, content@.len() as int),
                crate::paths::opt_view(doc_comment),
            ),
            RustSymbol::ModuleDeclaration { name, is_public } => SymbolTree::Declaration(name@, is_public),
            RustSymbol::SymbolReexport { name, source_path } => SymbolTree::Reexport(name@, source_path@),
        }
    }
}

impl RustFile {
    /// The inner doc comment and the items as plain values.
    pub open spec fn view(self) -> (Option<Seq<char>>, Seq<SymbolTree>) {
        (crate::paths::opt_view(self.doc_comment), symbol_trees(self.symbols@))
    }
}

/// The views of the first `k` items.
pub open spec fn tree_views(cs: Seq<RustSymbol>, k: int) -> Seq<SymbolTree>
    decreases cs, k,
{
    if k <= 0 || k > cs.len() {
        Seq::empty()
    } else {
        tree_views(cs, k - 1).push(cs[k - 1].view())
    }
}

/// The views of all items.
pub open spec fn symbol_trees(cs: Seq<RustSymbol>) -> Seq<SymbolTree> {
    tree_views(cs, cs.len() as int)
}

/// The view of the first `k` items holds each item's view in place.
pub proof fn lemma_tree_views_index(cs: Seq<RustSymbol>, k: int)
    requires
        0 <= k <= cs.len(),
    ensures
        tree_views(cs, k).len() == k,
        forall|i: int| 0 <= i < k ==> #[trigger] tree_views(cs, k)[i] == cs[i].view(),
    decreases k,
{
    if k > 0 {
        lemma_tree_views_index(cs, k - 1);
    }
}

pub proof fn lemma_tree_views_push(cs: Seq<RustSymbol>, x: RustSymbol)
    ensures
        symbol_trees(cs.push(x)) == symbol_trees(cs).push(x.view()),
{
    lemma_tree_views_prefix(cs.push(x), cs, cs.len() as int);
}

proof fn lemma_tree_views_prefix(a: Seq<RustSymbol>, b: Seq<RustSymbol>, k: int)
    requires
        0 <= k <= b.len() <= a.len(),
        forall|i: int| 0 <= i < k ==> a[i] == b[i],
    ensures
        tree_views(a, k) == tree_views(b, k),
    decreases k,
{
    if k > 0 {
        lemma_tree_views_prefix(a, b, k - 1);
    }
}

pub proof fn lemma_tree_views_append(a: Seq<RustSymbol>, b: Seq<RustSymbol>)
    ensures
        symbol_trees(a + b) == symbol_trees(a) + symbol_trees(b),
    decreases b.len(),
{
    if b.len() == 0 {
        assert(a + b =~= a);
        assert(symbol_trees(b) =~= Seq::<SymbolTree>::empty());
        assert(symbol_trees(a) + symbol_trees(b) =~= symbol_trees(a));
    } else {
        let b1 = b.drop_last();
        lemma_tree_views_append(a, b1);
        assert(a + b =~= (a + b1).push(b.last()));
        lemma_tree_views_push(a + b1, b.last());
        assert(b =~= b1.push(b.last()));
        lemma_tree_views_push(b1, b.last());
        assert(symbol_trees(a + b) =~= symbol_trees(a) + symbol_trees(b));
    }
}

} // verus!
