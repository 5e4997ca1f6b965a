//! The items found in one Rust source file by the module parser.

use vstd::prelude::*;
use crate::types::Symbol;

verus! {

/// An item of a source file that matters for the public API.
#[derive(Debug)]
pub enum RustSymbol {
    /// A public definition.
    Symbol { symbol: Symbol },
    /// A public inline module with its items.
    Module { name: String, content: Vec<RustSymbol> },
    /// A module declared as `mod name;`.
    ModuleDeclaration { name: String, is_public: bool },
    /// A re-export of `source_path` under `name`.
    SymbolReexport { name: String, source_path: String },
}

/// A file item as plain values.
pub enum ItemTree {
    Symbol(Seq<char>, Seq<char>),
    Module(Seq<char>, Seq<ItemTree>),
    Declaration(Seq<char>, bool),
    Reexport(Seq<char>, Seq<char>),
}

impl RustSymbol {
    /// The item as plain values.
    pub open spec fn view(self) -> ItemTree
        decreases self, 0int,
    {
        match self {
            RustSymbol::Symbol { symbol } => ItemTree::Symbol(symbol.name@, symbol.source_code@),
            RustSymbol::Module { name, content } => ItemTree::Module(name@, item_views(content@, content@.len() as int)),
            RustSymbol::ModuleDeclaration { name, is_public } => ItemTree::Declaration(name@, is_public),
            RustSymbol::SymbolReexport { name, source_path } => ItemTree::Reexport(name@, source_path@),
        }
    }
}

/// The views of the first `k` items.
pub open spec fn item_views(cs: Seq<RustSymbol>, k: int) -> Seq<ItemTree>
    decreases cs, k,
{
    if k <= 0 || k > cs.len() {
        Seq::empty()
    } else {
        item_views(cs, k - 1).push(cs[k - 1].view())
    }
}

/// The views of all items.
pub open spec fn item_trees(cs: Seq<RustSymbol>) -> Seq<ItemTree> {
    item_views(cs, cs.len() as int)
}

proof fn lemma_item_views_prefix(a: Seq<RustSymbol>, b: Seq<RustSymbol>, k: int)
    requires
        0 <= k <= b.len() <= a.len(),
        forall|i: int| 0 <= i < k ==> a[i] == b[i],
    ensures
        item_views(a, k) == item_views(b, k),
    decreases k,
{
    if k > 0 {
        lemma_item_views_prefix(a, b, k - 1);
    }
}

pub proof fn lemma_item_views_push(cs: Seq<RustSymbol>, x: RustSymbol)
    ensures
        item_trees(cs.push(x)) == item_trees(cs).push(x.view()),
{
    lemma_item_views_prefix(cs.push(x), cs, cs.len() as int);
}

/// The view of the first `k` items holds each item's view in place.
pub proof fn lemma_item_views_index(cs: Seq<RustSymbol>, k: int)
    requires
        0 <= k <= cs.len(),
    ensures
        item_views(cs, k).len() == k,
        forall|i: int| 0 <= i < k ==> #[trigger] item_views(cs, k)[i] == cs[i].view(),
    decreases k,
{
    if k > 0 {
        lemma_item_views_index(cs, k - 1);
    }
}

} // verus!
