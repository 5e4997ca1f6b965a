//! The definitions and re-exports found in each module of a Rust crate,
//! found by following module declarations from the entry point.

use vstd::prelude::*;
use crate::error::LaibraryError;
use crate::languages::rust::api::symbol_collection::{
    definitions_in, definitions_of, error_message, error_text, module_file, not_found_text,
    parse_sources, parsed_from, qualified, rust_parsed_from, read_failure, read_failure_text, resolve_module_path,
    sources_model, FileModel, ParsedSource, SourceText,
};
use crate::languages::rust::api::types::{lemma_tree_views_index, symbol_trees, RustSymbol, SymbolTree};
use crate::languages::rust::extraction::child_path;
use crate::lookup::{count_unvisited, lemma_count_bound, lemma_count_visit, lemma_lookup_at, lemma_lookup_none, lookup_last};
use crate::paths::opt_view;
use crate::strings::{string_from_chars, to_chars, views};
use crate::types::Symbol;

verus! {

/// A module's definitions and re-exports, before re-exports are resolved.
#[derive(Debug, Clone)]
pub struct RawNamespace {
    pub name: String,
    pub definitions: Vec<Symbol>,
    /// Pairs of the re-exported name and the path it is re-exported from.
    pub references: Vec<(String, String)>,
    pub is_public: bool,
}

/// A raw namespace as plain values: name, definitions, references and visibility.
pub type RawView = (Seq<char>, Seq<(Seq<char>, Seq<char>)>, Seq<(Seq<char>, Seq<char>)>, bool);

/// The views of a sequence of name pairs.
pub open spec fn pair_views(v: Seq<(String, String)>) -> Seq<(Seq<char>, Seq<char>)> {
    v.map_values(|p: (String, String)| (p.0@, p.1@))
}

impl RawNamespace {
    pub open spec fn view(self) -> RawView {
        (self.name@, self.definitions@.map_values(|s: Symbol| s@), pair_views(self.references@), self.is_public)
    }
}

/// The views of a sequence of raw namespaces.
pub open spec fn raw_views(v: Seq<RawNamespace>) -> Seq<RawView> {
    v.map_values(|n: RawNamespace| n.view())
}

/// The outcome of a collection as plain values.
pub open spec fn raw_result(r: Result<Vec<RawNamespace>, LaibraryError>) -> Result<Seq<RawView>, Seq<char>> {
    match r {
        Ok(v) => Ok(raw_views(v@)),
        Err(e) => Err(error_text(e)),
    }
}

/// The path a re-export inside module `prefix` points at: a `self::` path
/// without that prefix, any other path under `prefix`.
pub open spec fn reexport_source(prefix: Seq<char>, source_path: Seq<char>) -> Seq<char> {
    if source_path.len() >= 6 && source_path.subrange(0, 6) == "self::"@ {
        source_path.subrange(6, source_path.len() as int)
    } else {
        child_path(prefix, source_path)
    }
}

/// The namespaces collected from the file at `path`, named `prefix`, with the
/// paths visited so far, and the paths visited after it. A visited file gives
/// nothing; otherwise its inline modules and the namespaces of the files it
/// declares come first, in the order of its items, and its own namespace last.
/// `fuel` bounds the depth of file nesting.
pub open spec fn file_namespaces(
    srcs: Seq<(Seq<char>, FileModel)>,
    path: Seq<char>,
    prefix: Seq<char>,
    is_public: bool,
    visited: Seq<Seq<char>>,
    fuel: nat,
) -> (Result<Seq<RawView>, Seq<char>>, Seq<Seq<char>>)
    decreases fuel, 0nat, 0int,
{
    if visited.contains(path) {
        (Ok(Seq::empty()), visited)
    } else {
        match lookup_last(srcs, path) {
            None => (Err(read_failure_text(path, not_found_text())), visited),
            Some(Err(e)) => (Err(e), visited),
            Some(Ok((_, items))) => if fuel == 0 {
                (Ok(Seq::empty()), visited)
            } else {
                match scan_file_items(srcs, path, prefix, is_public, items, items.len() as int, visited.push(path), (fuel - 1) as nat) {
                    (Ok((spaces, defs, refs)), v) => (Ok(spaces.push((prefix, defs, refs, is_public))), v),
                    (Err(e), v) => (Err(e), v),
                }
            },
        }
    }
}

/// The namespaces, definitions and references found among the first `k`
/// items of the file at `path`, and the paths visited after them.
pub open spec fn scan_file_items(
    srcs: Seq<(Seq<char>, FileModel)>,
    path: Seq<char>,
    prefix: Seq<char>,
    is_public: bool,
    items: Seq<SymbolTree>,
    k: int,
    visited: Seq<Seq<char>>,
    fuel: nat,
) -> (Result<(Seq<RawView>, Seq<(Seq<char>, Seq<char>)>, Seq<(Seq<char>, Seq<char>)>), Seq<char>>, Seq<Seq<char>>)
    decreases fuel, 1nat, k,
{
    if k <= 0 || k > items.len() {
        (Ok((Seq::empty(), Seq::empty(), Seq::empty())), visited)
    } else {
        match scan_file_items(srcs, path, prefix, is_public, items, k - 1, visited, fuel) {
            (Err(e), v) => (Err(e), v),
            (Ok((spaces, defs, refs)), v) => match items[k - 1] {
                SymbolTree::Symbol(n, s) => (Ok((spaces, defs.push((n, s)), refs)), v),
                SymbolTree::Module(n, content, _) => (
                    Ok((spaces.push((child_path(prefix, n), definitions_of(content), Seq::empty(), is_public)), defs, refs)),
                    v,
                ),
                SymbolTree::Declaration(n, module_is_public) => match module_file(srcs, path, n) {
                    Err(_) => (Ok((spaces, defs, refs)), v),
                    Ok(file) => match file_namespaces(srcs, file, child_path(prefix, n), module_is_public, v, fuel) {
                        (Ok(child), v2) => (Ok((spaces + child, defs, refs)), v2),
                        (Err(e), v2) => (Err(e), v2),
                    },
                },
                SymbolTree::Reexport(n, source_path) => (Ok((spaces, defs, refs.push((n, reexport_source(prefix, source_path))))), v),
            },
        }
    }
}

/// The namespaces of a crate, from its entry point, over its parsed files.
pub open spec fn crate_namespaces(srcs: Seq<(Seq<char>, FileModel)>, entry_point: Seq<char>) -> Result<Seq<RawView>, Seq<char>> {
    file_namespaces(srcs, entry_point, Seq::empty(), true, Seq::empty(), (srcs.len() + 1) as nat).0
}

proof fn lemma_scan_file_err(
    srcs: Seq<(Seq<char>, FileModel)>,
    path: Seq<char>,
    prefix: Seq<char>,
    is_public: bool,
    items: Seq<SymbolTree>,
    k: int,
    n: int,
    visited: Seq<Seq<char>>,
    fuel: nat,
)
    requires
        0 <= k <= n <= items.len(),
        scan_file_items(srcs, path, prefix, is_public, items, k, visited, fuel).0 is Err,
    ensures
        scan_file_items(srcs, path, prefix, is_public, items, n, visited, fuel)
            == scan_file_items(srcs, path, prefix, is_public, items, k, visited, fuel),
    decreases n - k,
{
    if k < n {
        lemma_scan_file_err(srcs, path, prefix, is_public, items, k, n - 1, visited, fuel);
    }
}

/// The path a re-export inside module `prefix` points at.
fn reexport_path(prefix: &str, source_path: &str) -> (r: String)
    ensures
        r@ == reexport_source(prefix@, source_path@),
{
    let cs = to_chars(source_path);
    if cs.len() >= 6 && cs[0] == 's' && cs[1] == 'e' && cs[2] == 'l' && cs[3] == 'f' && cs[4] == ':' && cs[5] == ':' {
        proof {
            reveal_strlit("self::");
            assert(cs@.subrange(0, 6) =~= "self::"@);
        }
        return string_from_chars(&cs, 6, cs.len());
    }
    proof {
        reveal_strlit("self::");
        if cs@.len() >= 6 {
            assert(cs@.subrange(0, 6) != "self::"@ ) by {
                if cs@.subrange(0, 6) == "self::"@ {
                    assert(cs@.subrange(0, 6)[0] == cs@[0]);
                    assert(cs@.subrange(0, 6)[1] == cs@[1]);
                    assert(cs@.subrange(0, 6)[2] == cs@[2]);
                    assert(cs@.subrange(0, 6)[3] == cs@[3]);
                    assert(cs@.subrange(0, 6)[4] == cs@[4]);
                    assert(cs@.subrange(0, 6)[5] == cs@[5]);
                }
            }
        }
    }
    qualified(prefix, source_path)
}

/// Collects the namespaces of the file at `file_path` and of the files it
/// declares, depth first, skipping files already visited.
fn collect_symbols_recursive(
    srcs: &Vec<ParsedSource>,
    file_path: &str,
    namespace_prefix: &str,
    is_public: bool,
    visited: &mut Vec<String>,
) -> (r: Result<Vec<RawNamespace>, LaibraryError>)
    ensures
        r is Err ==> r matches Err(LaibraryError::Parse(_)),
        count_unvisited(sources_model(srcs@), views(final(visited)@))
            <= count_unvisited(sources_model(srcs@), views(old(visited)@)),
        forall|fuel: nat| fuel > count_unvisited(sources_model(srcs@), views(old(visited)@)) ==>
            #[trigger] file_namespaces(sources_model(srcs@), file_path@, namespace_prefix@, is_public, views(old(visited)@), fuel)
                == (raw_result(r), views(final(visited)@)),
    decreases count_unvisited(sources_model(srcs@), views(old(visited)@)),
{
    let ghost m = sources_model(srcs@);
    let ghost v0 = views(visited@);
    let ghost path = file_path@;
    let ghost prefix = namespace_prefix@;
    if crate::lookup::contains_str(visited, file_path) {
        let none: Vec<RawNamespace> = Vec::new();
        assert(raw_views(none@) =~= Seq::<RawView>::empty());
        return Ok(none);
    }
    let idx = match crate::lookup::find_last(srcs, file_path) {
        Some(i) => i,
        None => {
            proof {
                assert forall|j: int| 0 <= j < m.len() implies m[j].0 != path by {
                    assert(m[j].0 == srcs@[j].0@);
                }
                lemma_lookup_none(m, path);
            }
            return Err(read_failure(file_path, "No such file or directory (os error 2)"));
        },
    };
    proof {
        lemma_lookup_at(m, path, idx as int);
    }
    let file = match &srcs[idx].1 {
        Ok(file) => file,
        Err(e) => {
            return Err(LaibraryError::Parse(error_message(e)));
        },
    };
    let ghost items = symbol_trees(file.symbols@);
    proof { lemma_tree_views_index(file.symbols@, file.symbols@.len() as int); }
    visited.push(String::from_str(file_path));
    let ghost v1 = views(visited@);
    proof {
        assert(v1 =~= v0.push(path));
        lemma_count_visit(m, v0, path);
    }
    let mut namespaces: Vec<RawNamespace> = Vec::new();
    let mut definitions: Vec<Symbol> = Vec::new();
    let mut references: Vec<(String, String)> = Vec::new();
    let n = file.symbols.len();
    let mut k: usize = 0;
    proof {
        assert(raw_views(namespaces@) =~= Seq::<RawView>::empty());
        assert(definitions@.map_values(|s: Symbol| s@) =~= Seq::<(Seq<char>, Seq<char>)>::empty());
        assert(pair_views(references@) =~= Seq::<(Seq<char>, Seq<char>)>::empty());
    }
    while k < n
        invariant
            m == sources_model(srcs@),
            path == file_path@,
            prefix == namespace_prefix@,
            n == file.symbols@.len(),
            k <= n,
            items == symbol_trees(file.symbols@),
            items.len() == n,
            forall|i: int| 0 <= i < n ==> #[trigger] items[i] == file.symbols@[i].view(),
            !v0.contains(path),
            v0 == views(old(visited)@),
            lookup_last(m, path) == Some(Ok::<_, Seq<char>>((opt_view(file.doc_comment), items))),
            v1 == v0.push(path),
            count_unvisited(m, views(visited@)) <= count_unvisited(m, v1),
            count_unvisited(m, v1) < count_unvisited(m, v0),
            forall|f: nat| f > count_unvisited(m, v1) ==>
                #[trigger] scan_file_items(m, path, prefix, is_public, items, k as int, v1, f)
                    == (Ok::<_, Seq<char>>((
                        raw_views(namespaces@),
                        definitions@.map_values(|s: Symbol| s@),
                        pair_views(references@),
                    )), views(visited@)),
        decreases n - k,
    {
        let item = &file.symbols[k];
        let ghost before_ns = raw_views(namespaces@);
        let ghost before_defs = definitions@.map_values(|s: Symbol| s@);
        let ghost before_refs = pair_views(references@);
        let ghost vk = views(visited@);
        let ghost kk = k as int;
        assert(items[kk] == file.symbols@[kk].view());
        match item {
            RustSymbol::Symbol { symbol } => {
                definitions.push(symbol.duplicate());
                assert(definitions@.map_values(|s: Symbol| s@) =~= before_defs.push(symbol@));
            },
            RustSymbol::Module { name, content, doc_comment: _ } => {
                let x = RawNamespace {
                    name: qualified(namespace_prefix, name.as_str()),
                    definitions: definitions_in(content),
                    references: Vec::new(),
                    is_public,
                };
                assert(pair_views(x.references@) =~= Seq::<(Seq<char>, Seq<char>)>::empty());
                namespaces.push(x);
                assert(raw_views(namespaces@) =~= before_ns.push(x.view()));
            },
            RustSymbol::ModuleDeclaration { name, is_public: module_is_public } => {
                match resolve_module_path(srcs, file_path, name.as_str()) {
                    Err(_) => {},
                    Ok(declared_file) => {
                        let module_namespace = qualified(namespace_prefix, name.as_str());
                        match collect_symbols_recursive(srcs, declared_file.as_str(), module_namespace.as_str(), *module_is_public, visited) {
                            Ok(mut child) => {
                                let ghost c = raw_views(child@);
                                namespaces.append(&mut child);
                                assert(raw_views(namespaces@) =~= before_ns + c);
                                proof {
                                    assert forall|f: nat| f > count_unvisited(m, v1) implies
                                        #[trigger] scan_file_items(m, path, prefix, is_public, items, kk + 1, v1, f)
                                            == (Ok::<_, Seq<char>>((before_ns + c, before_defs, before_refs)), views(visited@)) by {
                                        assert(scan_file_items(m, path, prefix, is_public, items, kk, v1, f)
                                            == (Ok::<_, Seq<char>>((before_ns, before_defs, before_refs)), vk));
                                        assert(file_namespaces(m, declared_file@, module_namespace@, *module_is_public, vk, f)
                                            == (Ok::<_, Seq<char>>(c), views(visited@)));
                                    }
                                }
                            },
                            Err(e) => {
                                proof {
                                    assert forall|f: nat| f > count_unvisited(m, v1) implies
                                        #[trigger] scan_file_items(m, path, prefix, is_public, items, kk + 1, v1, f)
                                            == (Err::<(Seq<RawView>, Seq<(Seq<char>, Seq<char>)>, Seq<(Seq<char>, Seq<char>)>), Seq<char>>(error_text(e)), views(visited@)) by {
                                        assert(scan_file_items(m, path, prefix, is_public, items, kk, v1, f)
                                            == (Ok::<_, Seq<char>>((before_ns, before_defs, before_refs)), vk));
                                        assert(file_namespaces(m, declared_file@, module_namespace@, *module_is_public, vk, f)
                                            == (Err::<Seq<RawView>, Seq<char>>(error_text(e)), views(visited@)));
                                    }
                                    assert forall|f: nat| f > count_unvisited(m, v1) implies
                                        #[trigger] scan_file_items(m, path, prefix, is_public, items, n as int, v1, f)
                                            == (Err::<(Seq<RawView>, Seq<(Seq<char>, Seq<char>)>, Seq<(Seq<char>, Seq<char>)>), Seq<char>>(error_text(e)), views(visited@)) by {
                                        assert(scan_file_items(m, path, prefix, is_public, items, kk + 1, v1, f).0 is Err);
                                        lemma_scan_file_err(m, path, prefix, is_public, items, kk + 1, n as int, v1, f);
                                    }
                                    assert forall|fuel: nat| fuel > count_unvisited(m, v0) implies
                                        #[trigger] file_namespaces(m, path, prefix, is_public, v0, fuel)
                                            == (raw_result(Err::<Vec<RawNamespace>, LaibraryError>(e)), views(visited@)) by {
                                        assert(scan_file_items(m, path, prefix, is_public, items, n as int, v1, (fuel - 1) as nat).0 is Err);
                                    }
                                }
                                return Err(e);
                            },
                        }
                    },
                }
            },
            RustSymbol::SymbolReexport { name, source_path } => {
                references.push((name.clone(), reexport_path(namespace_prefix, source_path.as_str())));
                assert(pair_views(references@) =~= before_refs.push((references@.last().0@, references@.last().1@)));
            },
        }
        proof {
            assert forall|f: nat| f > count_unvisited(m, v1) implies
                #[trigger] scan_file_items(m, path, prefix, is_public, items, kk + 1, v1, f)
                    == (Ok::<_, Seq<char>>((
                        raw_views(namespaces@),
                        definitions@.map_values(|s: Symbol| s@),
                        pair_views(references@),
                    )), views(visited@)) by {
                assert(scan_file_items(m, path, prefix, is_public, items, kk, v1, f)
                    == (Ok::<_, Seq<char>>((before_ns, before_defs, before_refs)), vk));
            }
        }
        k = k + 1;
    }
    let ghost final_ns = raw_views(namespaces@);
    let ghost final_defs = definitions@.map_values(|s: Symbol| s@);
    let ghost final_refs = pair_views(references@);
    let ghost final_visited = views(visited@);
    let current_namespace = RawNamespace {
        name: String::from_str(namespace_prefix),
        definitions,
        references,
        is_public,
    };
    namespaces.push(current_namespace);
    assert(raw_views(namespaces@) =~= final_ns.push(current_namespace.view()));
    proof {
        assert forall|fuel: nat| fuel > count_unvisited(m, v0) implies
            #[trigger] file_namespaces(m, path, prefix, is_public, v0, fuel)
                == (Ok::<_, Seq<char>>(raw_views(namespaces@)), final_visited) by {
            let f = (fuel - 1) as nat;
            assert(f > count_unvisited(m, v1));
            assert(scan_file_items(m, path, prefix, is_public, items, n as int, v1, f)
                == (Ok::<_, Seq<char>>((final_ns, final_defs, final_refs)), final_visited));
        }
    }
    Ok(namespaces)
}

/// The namespaces of a crate over its parsed files, from `entry_point`: the
/// entry point's namespace is named by the empty path and is public.
pub fn collect_namespaces(srcs: &Vec<ParsedSource>, entry_point: &str) -> (r: Result<Vec<RawNamespace>, LaibraryError>)
    ensures
        raw_result(r) == crate_namespaces(sources_model(srcs@), entry_point@),
        r is Err ==> r matches Err(LaibraryError::Parse(_)),
{
    let mut visited: Vec<String> = Vec::new();
    proof {
        lemma_count_bound(sources_model(srcs@), views(visited@));
        assert(views(visited@) =~= Seq::<Seq<char>>::empty());
    }
    proof { reveal_strlit(""); }
    let ghost m = sources_model(srcs@);
    let ghost v = views(visited@);
    let r = collect_symbols_recursive(srcs, entry_point, "", true, &mut visited);
    proof {
        assert(m.len() == srcs@.len());
        assert(""@ =~= Seq::<char>::empty());
        let fuel = (m.len() + 1) as nat;
        assert(fuel > count_unvisited(m, v));
        assert(file_namespaces(m, entry_point@, ""@, true, v, fuel).0 == raw_result(r));
    }
    r
}

/// Traverses the source files of a Rust crate from its entry point and
/// collects the symbols and symbol references (re-exports) of each module.
///
/// `sources` holds the crate's files as they were read, the entry point
/// among them; the namespaces are those `collect_namespaces` finds over the
/// parsed files.
pub fn collect_symbols(
    entry_point: &str,
    sources: &Vec<SourceText>,
    parser: &mut tree_sitter::Parser,
) -> (r: Result<Vec<RawNamespace>, LaibraryError>)
    ensures
        exists|parsed: Seq<ParsedSource>| parsed_from(parsed, sources@)
            && raw_result(r) == crate_namespaces(sources_model(parsed), entry_point@),
        r is Err ==> r matches Err(LaibraryError::Parse(_)),
        crate::ts::parser_ready(*old(parser)) ==> exists|parsed: Seq<ParsedSource>|
            rust_parsed_from(parsed, sources@)
            && raw_result(r) == crate_namespaces(sources_model(parsed), entry_point@),
{
    let parsed = parse_sources(sources, parser);
    let r = collect_namespaces(&parsed, entry_point);
    assert(parsed_from(parsed@, sources@));
    assert(crate::ts::parser_ready(*old(parser)) ==> rust_parsed_from(parsed@, sources@));
    r
}

} // verus!

verus! {

/// Whenever the namespaces of a crate are collected, the last of them is the
/// entry point's own namespace: named by the empty path and public.
pub proof fn lemma_entry_namespace_last(srcs: Seq<(Seq<char>, FileModel)>, entry_point: Seq<char>)
    ensures
        crate_namespaces(srcs, entry_point) matches Ok(v) ==> v.len() > 0 && v.last().0 == Seq::<char>::empty()
            && v.last().3,
{
    let visited = Seq::<Seq<char>>::empty();
    assert(!visited.contains(entry_point));
}

/// The file-level definitions and references of a scan are those of all the
/// items scanned, in order: each symbol is a definition, and each re-export a
/// reference, by name, to its source path under the module's prefix; the
/// namespaces found for fewer items are a prefix of those found for more.
pub proof fn lemma_scan_file_items_keeps_all(
    srcs: Seq<(Seq<char>, FileModel)>,
    path: Seq<char>,
    prefix: Seq<char>,
    is_public: bool,
    items: Seq<SymbolTree>,
    j: int,
    k: int,
    visited: Seq<Seq<char>>,
    fuel: nat,
)
    requires
        0 <= j <= k <= items.len(),
        scan_file_items(srcs, path, prefix, is_public, items, k, visited, fuel).0 is Ok,
    ensures
        ({
            let (mods, defs, refs) = scan_file_items(srcs, path, prefix, is_public, items, k, visited, fuel).0->Ok_0;
            &&& defs == definitions_of(items.take(k))
            &&& refs == items.take(k).filter_map(|t: SymbolTree| match t {
                SymbolTree::Reexport(n, sp) => Some((n, reexport_source(prefix, sp))),
                _ => None,
            })
            &&& scan_file_items(srcs, path, prefix, is_public, items, j, visited, fuel).0 is Ok
            &&& scan_file_items(srcs, path, prefix, is_public, items, j, visited, fuel).0->Ok_0.0.len() <= mods.len()
            &&& mods.subrange(0, scan_file_items(srcs, path, prefix, is_public, items, j, visited, fuel).0->Ok_0.0.len() as int)
                == scan_file_items(srcs, path, prefix, is_public, items, j, visited, fuel).0->Ok_0.0
        }),
    decreases k,
{
    let rf = |t: SymbolTree| match t {
        SymbolTree::Reexport(n, sp) => Some((n, reexport_source(prefix, sp))),
        _ => None,
    };
    if k == 0 {
        assert(items.take(0) =~= Seq::<SymbolTree>::empty());
        let mods = scan_file_items(srcs, path, prefix, is_public, items, 0, visited, fuel).0->Ok_0.0;
        assert(mods.subrange(0, mods.len() as int) =~= mods);
    } else {
        let prev = scan_file_items(srcs, path, prefix, is_public, items, k - 1, visited, fuel);
        assert(prev.0 is Ok);
        lemma_scan_file_items_keeps_all(srcs, path, prefix, is_public, items, if j < k { j } else { k - 1 }, k - 1, visited, fuel);
        let t = items.take(k);
        assert(t.drop_last() =~= items.take(k - 1));
        assert(t.last() == items[k - 1]);
        crate::languages::rust::api::symbol_collection::lemma_definitions_of_are_the_symbols(t);
        crate::languages::rust::api::symbol_collection::lemma_definitions_of_are_the_symbols(items.take(k - 1));
        let (pm, pd, pr) = prev.0->Ok_0;
        let (m, d, r) = scan_file_items(srcs, path, prefix, is_public, items, k, visited, fuel).0->Ok_0;
        assert(t.filter_map(rf) == match rf(t.last()) {
            Some(x) => t.drop_last().filter_map(rf) + seq![x],
            None => t.drop_last().filter_map(rf),
        });
        let sd = |x: SymbolTree| crate::languages::rust::api::symbol_collection::symbol_definition(x);
        assert(t.filter_map(sd) == match sd(t.last()) {
            Some(x) => t.drop_last().filter_map(sd) + seq![x],
            None => t.drop_last().filter_map(sd),
        });
        match items[k - 1] {
            SymbolTree::Symbol(n, sy) => {
                assert(d =~= pd.push((n, sy)));
                assert(r == pr);
                assert(m == pm);
            },
            SymbolTree::Reexport(rn, sp) => {
                assert(r =~= pr.push((rn, reexport_source(prefix, sp))));
                assert(d == pd);
                assert(m == pm);
            },
            SymbolTree::Module(n, content, doc) => {
                assert(d == pd);
                assert(r == pr);
                assert(m.subrange(0, pm.len() as int) =~= pm);
            },
            SymbolTree::Declaration(n, module_is_public) => {
                assert(d == pd);
                assert(r == pr);
                assert(m.subrange(0, pm.len() as int) =~= pm);
            },
        }
        assert(pm.len() <= m.len());
        if j < k {
            let a = scan_file_items(srcs, path, prefix, is_public, items, j, visited, fuel).0->Ok_0.0;
            assert(a.len() <= pm.len());
            assert(m.subrange(0, a.len() as int) =~= pm.subrange(0, a.len() as int));
        } else {
            assert(m.subrange(0, m.len() as int) =~= m);
        }
    }
}

} // verus!
