//! The public API of a crate as namespaces, read from its entry point file.

use vstd::prelude::*;
use vstd::string::StringSliceAdditionalSpecFns;
use crate::error::LaibraryError;
use crate::languages::rust::extraction::{determine_module_path, module_path_of};
use crate::languages::rust::parsing::{parse_rust_file, rust_symbols_outcome, symbols_parse_outcome};
use crate::languages::rust::types::{item_trees, lemma_item_views_index, ItemTree, RustSymbol};
use crate::paths::file_name;
use crate::types::{Namespace, Symbol};

verus! {

/// A namespace as plain values: name, symbols and doc comment.
pub type NamespaceView = (Seq<char>, Seq<(Seq<char>, Seq<char>)>, Option<Seq<char>>);

/// The views of a sequence of namespaces.
pub open spec fn namespace_views(v: Seq<Namespace>) -> Seq<NamespaceView> {
    v.map_values(|n: Namespace| n@)
}

/// The namespaces of the inline modules among the first `k` items, and the
/// definitions among them.
pub open spec fn scan_symbols(items: Seq<ItemTree>, prefix: Seq<char>, k: int) -> (Seq<NamespaceView>, Seq<(Seq<char>, Seq<char>)>)
    decreases items, k,
{
    if k <= 0 || k > items.len() {
        (Seq::empty(), Seq::empty())
    } else {
        let (nested, defs) = scan_symbols(items, prefix, k - 1);
        match items[k - 1] {
            ItemTree::Symbol(n, s) => (nested, defs.push((n, s))),
            ItemTree::Module(name, content) => (nested + item_namespaces(content, prefix + "::"@ + name), defs),
            _ => (nested, defs),
        }
    }
}

/// The namespaces of a module's items named `prefix`: those of its inline
/// modules first, then its own.
pub open spec fn item_namespaces(items: Seq<ItemTree>, prefix: Seq<char>) -> Seq<NamespaceView>
    decreases items, items.len() + 1,
{
    let (nested, defs) = scan_symbols(items, prefix, items.len() as int);
    nested.push((prefix, defs, None))
}

/// The namespaces of a module's items named `prefix`: those of its inline
/// modules (named `prefix::name`), then its own with its definitions.
fn extract_modules(symbols: &Vec<RustSymbol>, prefix: &str) -> (r: Result<Vec<Namespace>, LaibraryError>)
    ensures
        r matches Ok(v) && namespace_views(v@) == item_namespaces(item_trees(symbols@), prefix@),
    decreases symbols,
{
    let ghost items = item_trees(symbols@);
    proof { lemma_item_views_index(symbols@, symbols@.len() as int); }
    let mut namespaces: Vec<Namespace> = Vec::new();
    let mut current: Vec<Symbol> = Vec::new();
    let n = symbols.len();
    let mut k: usize = 0;
    assert(namespace_views(namespaces@) =~= Seq::<NamespaceView>::empty());
    assert(current@.map_values(|s: Symbol| s@) =~= Seq::<(Seq<char>, Seq<char>)>::empty());
    while k < n
        invariant
            n == symbols@.len(),
            k <= n,
            items == item_trees(symbols@),
            items.len() == n,
            forall|i: int| 0 <= i < n ==> #[trigger] items[i] == symbols@[i].view(),
            scan_symbols(items, prefix@, k as int) == (namespace_views(namespaces@), current@.map_values(|s: Symbol| s@)),
        decreases n - k,
    {
        let ghost before_ns = namespace_views(namespaces@);
        let ghost before_defs = current@.map_values(|s: Symbol| s@);
        assert(items[k as int] == symbols@[k as int].view());
        match &symbols[k] {
            RustSymbol::Symbol { symbol } => {
                current.push(symbol.duplicate());
                assert(current@.map_values(|s: Symbol| s@) =~= before_defs.push(symbol@));
            },
            RustSymbol::Module { name, content } => {
                let mut path = String::from_str(prefix);
                path.append("::");
                path.append(name.as_str());
                match extract_modules(content, path.as_str()) {
                    Ok(mut nested) => {
                        let ghost c = namespace_views(nested@);
                        namespaces.append(&mut nested);
                        assert(namespace_views(namespaces@) =~= before_ns + c);
                    },
                    Err(e) => return Err(e),
                }
            },
            _ => {},
        }
        k = k + 1;
    }
    let ghost final_ns = namespace_views(namespaces@);
    let x = Namespace { name: String::from_str(prefix), symbols: current, doc_comment: None };
    namespaces.push(x);
    assert(namespace_views(namespaces@) =~= final_ns.push(x@));
    Ok(namespaces)
}


/// The name of the crate's root namespace, and of every other namespace under it.
pub open spec fn prefixed_path(crate_name: Seq<char>, file_path: Seq<char>) -> Seq<char> {
    let m = match module_path_of(file_path) {
        Some(p) => p,
        None => Seq::empty(),
    };
    if m.len() == 0 {
        crate_name
    } else {
        crate_name + "::"@ + m
    }
}

/// Whether `r` is the public API of the crate named `crate_name` read from
/// the outcome of reading its entry point file at `path`: the read failure, a
/// path without a file name, or, for what parsing the text gives, its error or
/// the namespaces of its items. With `ready`, the text was parsed with a
/// parser ready for the Rust grammar, so the items are those of its Rust parse.
pub open spec fn public_api_outcome(
    r: Result<Vec<Namespace>, LaibraryError>,
    path: Seq<char>,
    crate_name: Seq<char>,
    content: Result<String, String>,
    ready: bool,
) -> bool {
    match content {
        Err(e) => r matches Err(LaibraryError::Parse(m)) && m@ == "Failed to read file '"@ + path + "': "@ + e@,
        Ok(text) => match file_name(path) {
            None => r matches Err(LaibraryError::Parse(m)) && m@ == "Invalid file name"@,
            Some(_) => exists|parsed: Result<Vec<RustSymbol>, LaibraryError>|
                #[trigger] symbols_parse_outcome(parsed, vstd::utf8::encode_utf8(text@))
                && (ready ==> rust_symbols_outcome(parsed, text@))
                && match parsed {
                    Ok(symbols) => r matches Ok(v) && namespace_views(v@)
                        == item_namespaces(item_trees(symbols@), prefixed_path(crate_name, path)),
                    Err(e) => r == Err::<Vec<Namespace>, LaibraryError>(e),
                },
        },
    }
}

/// The public API of the crate named `crate_name` as namespaces, from its
/// entry point file at `path`, given as the outcome of reading it (its text or
/// the message of the I/O error).
pub fn build_public_api(
    path: &str,
    crate_name: &str,
    content: &Result<String, String>,
    parser: &mut tree_sitter::Parser,
) -> (r: Result<Vec<Namespace>, LaibraryError>)
    ensures
        public_api_outcome(r, path@, crate_name@, *content, crate::ts::parser_ready(*old(parser))),
{
    let text = match content {
        Err(e) => {
            let mut m = String::from_str("Failed to read file '");
            m.append(path);
            m.append("': ");
            m.append(e.as_str());
            return Err(LaibraryError::Parse(m));
        },
        Ok(text) => text,
    };
    let mod_path = match determine_module_path(path)? {
        Some(p) => p,
        None => String::new(),
    };
    let prefixed = if mod_path.as_str().is_empty() {
        String::from_str(crate_name)
    } else {
        let mut p = String::from_str(crate_name);
        p.append("::");
        p.append(mod_path.as_str());
        p
    };
    let parsed = parse_rust_file(text.as_str(), parser);
    match parsed {
        Ok(symbols) => {
            let r = extract_modules(&symbols, prefixed.as_str());
            assert(symbols_parse_outcome(Ok::<Vec<RustSymbol>, LaibraryError>(symbols), vstd::utf8::encode_utf8(text@)));
            r
        },
        Err(e) => {
            assert(symbols_parse_outcome(Err::<Vec<RustSymbol>, LaibraryError>(e), vstd::utf8::encode_utf8(text@)));
            Err(e)
        },
    }
}

/// The definition an item gives: its name and source for a symbol, nothing
/// for any other item.
pub open spec fn item_definition(t: ItemTree) -> Option<(Seq<char>, Seq<char>)> {
    match t {
        ItemTree::Symbol(n, s) => Some((n, s)),
        _ => None,
    }
}

/// A module's own definitions are exactly the symbols among its items, one
/// each, in order; the namespaces of its inline modules found among fewer
/// items are a prefix of those found among more.
pub proof fn lemma_scan_symbols_keeps_all(items: Seq<ItemTree>, prefix: Seq<char>, j: int, k: int)
    requires
        0 <= j <= k <= items.len(),
    ensures
        scan_symbols(items, prefix, k).1 == items.take(k).filter_map(|t: ItemTree| item_definition(t)),
        scan_symbols(items, prefix, j).0.len() <= scan_symbols(items, prefix, k).0.len(),
        scan_symbols(items, prefix, k).0.subrange(0, scan_symbols(items, prefix, j).0.len() as int)
            == scan_symbols(items, prefix, j).0,
    decreases k,
{
    let f = |t: ItemTree| item_definition(t);
    if k == 0 {
        assert(items.take(0) =~= Seq::<ItemTree>::empty());
        let a = scan_symbols(items, prefix, 0).0;
        assert(a.subrange(0, a.len() as int) =~= a);
    } else {
        lemma_scan_symbols_keeps_all(items, prefix, if j < k { j } else { k - 1 }, k - 1);
        let t = items.take(k);
        assert(t.drop_last() =~= items.take(k - 1));
        assert(t.last() == items[k - 1]);
        assert(t.filter_map(f) == match f(t.last()) {
            Some(x) => t.drop_last().filter_map(f) + seq![x],
            None => t.drop_last().filter_map(f),
        });
        let (pn, pd) = scan_symbols(items, prefix, k - 1);
        let (n, d) = scan_symbols(items, prefix, k);
        match items[k - 1] {
            ItemTree::Symbol(a, b) => {
                assert(d =~= pd + seq![(a, b)]);
            },
            _ => {},
        }
        assert(n.subrange(0, pn.len() as int) =~= pn);
        if j < k {
            let a = scan_symbols(items, prefix, j).0;
            assert(n.subrange(0, a.len() as int) =~= pn.subrange(0, a.len() as int));
        } else {
            assert(n.subrange(0, n.len() as int) =~= n);
        }
    }
}

} // verus!
