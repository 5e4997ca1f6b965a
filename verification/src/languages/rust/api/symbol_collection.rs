//! The definitions, re-exports and doc comment of each module of a crate,
//! found by following module declarations from the entry point.

use vstd::prelude::*;
use vstd::string::StringSliceAdditionalSpecFns;
use crate::error::LaibraryError;
use crate::languages::rust::api::parsing::{parse_outcome, parse_rust_file, rust_file_outcome};
use crate::languages::rust::api::types::{
    lemma_tree_views_index, symbol_trees, RustFile, RustSymbol, SymbolTree,
};
use crate::languages::rust::extraction::child_path;
use crate::lookup::{count_unvisited, lemma_count_bound, lemma_count_visit, lemma_lookup_at, lemma_lookup_none, lookup_last};
use crate::paths::{join_path, opt_view, parent_path, path_join, path_parent};
use crate::strings::views;
use crate::syntax::SyntaxNode;
use crate::types::Symbol;

verus! {

/// A module's definitions and re-exported paths, before resolution.
#[derive(Debug, Clone)]
pub struct Module {
    pub name: String,
    pub definitions: Vec<Symbol>,
    pub references: Vec<String>,
    pub is_public: bool,
    pub doc_comment: Option<String>,
}

/// A module as plain values: name, definitions, references, visibility and doc comment.
pub type ModuleView = (Seq<char>, Seq<(Seq<char>, Seq<char>)>, Seq<Seq<char>>, bool, Option<Seq<char>>);

impl Module {
    pub open spec fn view(self) -> ModuleView {
        (
            self.name@,
            self.definitions@.map_values(|s: Symbol| s@),
            views(self.references@),
            self.is_public,
            opt_view(self.doc_comment),
        )
    }
}

/// The views of a sequence of modules.
pub open spec fn module_views(v: Seq<Module>) -> Seq<ModuleView> {
    v.map_values(|m: Module| m.view())
}

/// A source file as it was read: its path, and its text or the message of the
/// error met reading it.
pub type SourceText = (String, Result<String, String>);

/// A source file as parsed: its path, and its items or the error met reading
/// or parsing it.
pub type ParsedSource = (String, Result<RustFile, LaibraryError>);

/// A parsed file as plain values.
pub type FileModel = Result<(Option<Seq<char>>, Seq<SymbolTree>), Seq<char>>;

/// The message an error carries.
pub open spec fn error_text(e: LaibraryError) -> Seq<char> {
    match e {
        LaibraryError::Parse(m) => m@,
        LaibraryError::UnsupportedLanguage(m) => m@,
        LaibraryError::InvalidPath(m) => m@,
    }
}

/// A parse outcome as plain values.
pub open spec fn file_model(r: Result<RustFile, LaibraryError>) -> FileModel {
    match r {
        Ok(f) => Ok(f.view()),
        Err(e) => Err(error_text(e)),
    }
}

/// Parsed sources as plain values, keyed by path.
pub open spec fn sources_model(s: Seq<ParsedSource>) -> Seq<(Seq<char>, FileModel)> {
    s.map_values(|e: ParsedSource| (e.0@, file_model(e.1)))
}

/// The outcome of a collection as plain values.
pub open spec fn collect_result(r: Result<Vec<Module>, LaibraryError>) -> Result<Seq<ModuleView>, Seq<char>> {
    match r {
        Ok(v) => Ok(module_views(v@)),
        Err(e) => Err(error_text(e)),
    }
}

/// The message for a file that could not be read.
pub open spec fn read_failure_text(path: Seq<char>, cause: Seq<char>) -> Seq<char> {
    "Failed to read file '"@ + path + "': "@ + cause
}

/// What the operating system reports for a file that is not there.
pub open spec fn not_found_text() -> Seq<char> {
    "No such file or directory (os error 2)"@
}

/// Whether the sources hold a file at `path`.
pub open spec fn has_source<V>(srcs: Seq<(Seq<char>, V)>, path: Seq<char>) -> bool {
    lookup_last(srcs, path) is Some
}

/// The file that declares module `name` from `current`: `name/mod.rs` beside
/// `current` when it is among the sources, else `name.rs` beside it, else an error.
pub open spec fn module_file<V>(srcs: Seq<(Seq<char>, V)>, current: Seq<char>, name: Seq<char>) -> Result<Seq<char>, Seq<char>> {
    match path_parent(current) {
        None => Err("Failed to get parent directory of "@ + current),
        Some(parent) => {
            let mod_rs = path_join(path_join(parent, name), "mod.rs"@);
            let rs = path_join(parent, name + ".rs"@);
            if has_source(srcs, mod_rs) {
                Ok(mod_rs)
            } else if has_source(srcs, rs) {
                Ok(rs)
            } else {
                Err("Could not find module "@ + name + " from "@ + current)
            }
        },
    }
}

/// The definitions among the items of an inline module.
pub open spec fn definitions_of(items: Seq<SymbolTree>) -> Seq<(Seq<char>, Seq<char>)>
    decreases items.len(),
{
    if items.len() == 0 {
        Seq::empty()
    } else {
        definitions_of(items.drop_last()) + match items.last() {
            SymbolTree::Symbol(n, s) => seq![(n, s)],
            _ => Seq::empty(),
        }
    }
}

/// The modules collected from the file at `path`, named `prefix`, with the
/// paths visited so far, and the paths visited after it. A visited file gives
/// nothing; otherwise its inline modules and the modules of the files it
/// declares come first, in the order of its items, and its own module last.
/// `fuel` bounds the depth of file nesting.
pub open spec fn file_modules(
    srcs: Seq<(Seq<char>, FileModel)>,
    path: Seq<char>,
    prefix: Seq<char>,
    is_public: bool,
    visited: Seq<Seq<char>>,
    fuel: nat,
) -> (Result<Seq<ModuleView>, Seq<char>>, Seq<Seq<char>>)
    decreases fuel, 0nat, 0int,
{
    if visited.contains(path) {
        (Ok(Seq::empty()), visited)
    } else {
        match lookup_last(srcs, path) {
            None => (Err(read_failure_text(path, not_found_text())), visited),
            Some(Err(e)) => (Err(e), visited),
            Some(Ok((doc, items))) => if fuel == 0 {
                (Ok(Seq::empty()), visited)
            } else {
                match scan_items(srcs, path, prefix, is_public, items, items.len() as int, visited.push(path), (fuel - 1) as nat) {
                    (Ok((mods, defs, refs)), v) => (Ok(mods.push((prefix, defs, refs, is_public, doc))), v),
                    (Err(e), v) => (Err(e), v),
                }
            },
        }
    }
}

/// The modules, definitions and references found among the first `k` items
/// of the file at `path`, and the paths visited after them.
pub open spec fn scan_items(
    srcs: Seq<(Seq<char>, FileModel)>,
    path: Seq<char>,
    prefix: Seq<char>,
    is_public: bool,
    items: Seq<SymbolTree>,
    k: int,
    visited: Seq<Seq<char>>,
    fuel: nat,
) -> (Result<(Seq<ModuleView>, Seq<(Seq<char>, Seq<char>)>, Seq<Seq<char>>), Seq<char>>, Seq<Seq<char>>)
    decreases fuel, 1nat, k,
{
    if k <= 0 || k > items.len() {
        (Ok((Seq::empty(), Seq::empty(), Seq::empty())), visited)
    } else {
        match scan_items(srcs, path, prefix, is_public, items, k - 1, visited, fuel) {
            (Err(e), v) => (Err(e), v),
            (Ok((mods, defs, refs)), v) => match items[k - 1] {
                SymbolTree::Symbol(n, s) => (Ok((mods, defs.push((n, s)), refs)), v),
                SymbolTree::Module(n, content, doc) => (
                    Ok((mods.push((child_path(prefix, n), definitions_of(content), Seq::empty(), is_public, doc)), defs, refs)),
                    v,
                ),
                SymbolTree::Declaration(n, module_is_public) => match module_file(srcs, path, n) {
                    Err(_) => (Ok((mods, defs, refs)), v),
                    Ok(file) => match file_modules(srcs, file, child_path(prefix, n), module_is_public, v, fuel) {
                        (Ok(child), v2) => (Ok((mods + child, defs, refs)), v2),
                        (Err(e), v2) => (Err(e), v2),
                    },
                },
                SymbolTree::Reexport(_, source_path) => (Ok((mods, defs, refs.push(child_path(prefix, source_path)))), v),
            },
        }
    }
}

/// The modules of a crate, from its entry point, over its parsed sources.
pub open spec fn crate_modules(srcs: Seq<(Seq<char>, FileModel)>, entry_point: Seq<char>) -> Result<Seq<ModuleView>, Seq<char>> {
    file_modules(srcs, entry_point, Seq::empty(), true, Seq::empty(), (srcs.len() + 1) as nat).0
}

proof fn lemma_scan_err(
    srcs: Seq<(Seq<char>, FileModel)>,
    path: Seq<char>,
    prefix: Seq<char>,
    is_public: bool,
    items: Seq<SymbolTree>,
    k: int,
    n: int,
    visited: Seq<Seq<char>>,
    fuel: nat,
)
    requires
        0 <= k <= n <= items.len(),
        scan_items(srcs, path, prefix, is_public, items, k, visited, fuel).0 is Err,
    ensures
        scan_items(srcs, path, prefix, is_public, items, n, visited, fuel)
            == scan_items(srcs, path, prefix, is_public, items, k, visited, fuel),
    decreases n - k,
{
    if k < n {
        lemma_scan_err(srcs, path, prefix, is_public, items, k, n - 1, visited, fuel);
    }
}


/// `name` under the module path `prefix`: the name alone at the root.
pub(crate) fn qualified(prefix: &str, name: &str) -> (r: String)
    ensures
        r@ == child_path(prefix@, name@),
{
    if prefix.is_empty() {
        return String::from_str(name);
    }
    let mut r = String::from_str(prefix);
    r.append("::");
    r.append(name);
    r
}

/// A copy of an optional string.
fn clone_text(o: &Option<String>) -> (r: Option<String>)
    ensures
        opt_view(r) == opt_view(*o),
{
    match o {
        Some(t) => Some(t.clone()),
        None => None,
    }
}

/// The message of an error, copied.
pub(crate) fn error_message(e: &LaibraryError) -> (m: String)
    ensures
        m@ == error_text(*e),
{
    match e {
        LaibraryError::Parse(m) => m.clone(),
        LaibraryError::UnsupportedLanguage(m) => m.clone(),
        LaibraryError::InvalidPath(m) => m.clone(),
    }
}

/// The error for a file that could not be read.
pub fn read_failure(path: &str, cause: &str) -> (e: LaibraryError)
    ensures
        e matches LaibraryError::Parse(m) && m@ == read_failure_text(path@, cause@),
{
    let mut m = String::from_str("Failed to read file '");
    m.append(path);
    m.append("': ");
    m.append(cause);
    LaibraryError::Parse(m)
}

/// Whether the sources hold a file at `path`.
fn source_exists(srcs: &Vec<ParsedSource>, path: &str) -> (b: bool)
    ensures
        b == has_source(sources_model(srcs@), path@),
{
    let ghost m = sources_model(srcs@);
    match crate::lookup::find_last(srcs, path) {
        Some(i) => {
            proof { lemma_lookup_at(m, path@, i as int); }
            true
        },
        None => {
            proof {
                assert forall|j: int| 0 <= j < m.len() implies m[j].0 != path@ by {
                    assert(m[j].0 == srcs@[j].0@);
                }
                lemma_lookup_none(m, path@);
            }
            false
        },
    }
}

/// The file that declares module `module_name` from `current_file`:
/// `module_name/mod.rs` beside it when present, else `module_name.rs`.
pub fn resolve_module_path(srcs: &Vec<ParsedSource>, current_file: &str, module_name: &str) -> (r: Result<String, LaibraryError>)
    ensures
        match module_file(sources_model(srcs@), current_file@, module_name@) {
            Ok(p) => r matches Ok(x) && x@ == p,
            Err(e) => r matches Err(LaibraryError::Parse(m)) && m@ == e,
        },
{
    let parent = match parent_path(current_file) {
        Some(p) => p,
        None => {
            let mut m = String::from_str("Failed to get parent directory of ");
            m.append(current_file);
            return Err(LaibraryError::Parse(m));
        },
    };
    let dir = join_path(parent.as_str(), module_name);
    let mod_rs_path = join_path(dir.as_str(), "mod.rs");
    if source_exists(srcs, mod_rs_path.as_str()) {
        return Ok(mod_rs_path);
    }
    let mut file_name = String::from_str(module_name);
    file_name.append(".rs");
    let rs_path = join_path(parent.as_str(), file_name.as_str());
    if source_exists(srcs, rs_path.as_str()) {
        return Ok(rs_path);
    }
    let mut m = String::from_str("Could not find module ");
    m.append(module_name);
    m.append(" from ");
    m.append(current_file);
    Err(LaibraryError::Parse(m))
}

/// The definitions among the items of an inline module.
pub(crate) fn definitions_in(items: &Vec<RustSymbol>) -> (r: Vec<Symbol>)
    ensures
        r@.map_values(|s: Symbol| s@) == definitions_of(symbol_trees(items@)),
{
    let ghost all = symbol_trees(items@);
    proof { lemma_tree_views_index(items@, items@.len() as int); }
    let mut r: Vec<Symbol> = Vec::new();
    let mut k: usize = 0;
    assert(all.subrange(0, 0) =~= Seq::<SymbolTree>::empty());
    assert(r@.map_values(|s: Symbol| s@) =~= Seq::<(Seq<char>, Seq<char>)>::empty());
    while k < items.len()
        invariant
            k <= items@.len(),
            all == symbol_trees(items@),
            all.len() == items@.len(),
            forall|i: int| 0 <= i < items@.len() ==> #[trigger] all[i] == items@[i].view(),
            r@.map_values(|s: Symbol| s@) == definitions_of(all.subrange(0, k as int)),
        decreases items@.len() - k,
    {
        let ghost before = r@;
        assert(all.subrange(0, k + 1).drop_last() =~= all.subrange(0, k as int));
        assert(all.subrange(0, k + 1).last() == items@[k as int].view());
        match &items[k] {
            RustSymbol::Symbol { symbol } => {
                r.push(symbol.duplicate());
                assert(r@.map_values(|s: Symbol| s@) =~= before.map_values(|s: Symbol| s@) + seq![symbol@]);
            },
            _ => {
                assert(r@.map_values(|s: Symbol| s@) =~= before.map_values(|s: Symbol| s@) + Seq::<(Seq<char>, Seq<char>)>::empty());
            },
        }
        k = k + 1;
    }
    assert(all.subrange(0, all.len() as int) =~= all);
    r
}


/// Collects the modules of the file at `file_path` and of the files it
/// declares, depth first, skipping files already visited.
fn collect_file(
    srcs: &Vec<ParsedSource>,
    file_path: &str,
    prefix: &str,
    is_public: bool,
    visited: &mut Vec<String>,
) -> (r: Result<Vec<Module>, LaibraryError>)
    ensures
        r is Err ==> r matches Err(LaibraryError::Parse(_)),
        count_unvisited(sources_model(srcs@), views(final(visited)@))
            <= count_unvisited(sources_model(srcs@), views(old(visited)@)),
        forall|fuel: nat| fuel > count_unvisited(sources_model(srcs@), views(old(visited)@)) ==>
            #[trigger] file_modules(sources_model(srcs@), file_path@, prefix@, is_public, views(old(visited)@), fuel)
                == (collect_result(r), views(final(visited)@)),
    decreases count_unvisited(sources_model(srcs@), views(old(visited)@)),
{
    let ghost m = sources_model(srcs@);
    let ghost v0 = views(visited@);
    let ghost path = file_path@;
    if crate::lookup::contains_str(visited, file_path) {
        let none: Vec<Module> = Vec::new();
        assert(module_views(none@) =~= Seq::<ModuleView>::empty());
        return Ok(none);
    }
    let idx = match crate::lookup::find_last(srcs, file_path) {
        Some(i) => i,
        None => {
            proof {
                assert forall|j: int| 0 <= j < m.len() implies m[j].0 != path by {
                    assert(m[j].0 == srcs@[j].0@);
                }
                lemma_lookup_none(m, path);
            }
            return Err(read_failure(file_path, "No such file or directory (os error 2)"));
        },
    };
    proof {
        lemma_lookup_at(m, path, idx as int);
    }
    let file = match &srcs[idx].1 {
        Ok(file) => file,
        Err(e) => {
            return Err(LaibraryError::Parse(error_message(e)));
        },
    };
    let ghost items = symbol_trees(file.symbols@);
    proof { lemma_tree_views_index(file.symbols@, file.symbols@.len() as int); }
    visited.push(String::from_str(file_path));
    let ghost v1 = views(visited@);
    proof {
        assert(v1 =~= v0.push(path));
        lemma_count_visit(m, v0, path);
    }
    let mut namespaces: Vec<Module> = Vec::new();
    let mut definitions: Vec<Symbol> = Vec::new();
    let mut references: Vec<String> = Vec::new();
    let n = file.symbols.len();
    let mut k: usize = 0;
    proof {
        assert(module_views(namespaces@) =~= Seq::<ModuleView>::empty());
        assert(definitions@.map_values(|s: Symbol| s@) =~= Seq::<(Seq<char>, Seq<char>)>::empty());
        assert(views(references@) =~= Seq::<Seq<char>>::empty());
    }
    while k < n
        invariant
            m == sources_model(srcs@),
            path == file_path@,
            n == file.symbols@.len(),
            k <= n,
            items == symbol_trees(file.symbols@),
            items.len() == n,
            forall|i: int| 0 <= i < n ==> #[trigger] items[i] == file.symbols@[i].view(),
            !v0.contains(path),
            v0 == views(old(visited)@),
            lookup_last(m, path) == Some(Ok::<_, Seq<char>>((opt_view(file.doc_comment), items))),
            v1 == v0.push(path),
            count_unvisited(m, views(visited@)) <= count_unvisited(m, v1),
            count_unvisited(m, v1) < count_unvisited(m, v0),
            forall|f: nat| f > count_unvisited(m, v1) ==>
                #[trigger] scan_items(m, path, prefix@, is_public, items, k as int, v1, f)
                    == (Ok::<_, Seq<char>>((
                        module_views(namespaces@),
                        definitions@.map_values(|s: Symbol| s@),
                        views(references@),
                    )), views(visited@)),
        decreases n - k,
    {
        let item = &file.symbols[k];
        let ghost before_ns = module_views(namespaces@);
        let ghost before_defs = definitions@.map_values(|s: Symbol| s@);
        let ghost before_refs = views(references@);
        let ghost vk = views(visited@);
        let ghost kk = k as int;
        assert(items[kk] == file.symbols@[kk].view());
        match item {
            RustSymbol::Symbol { symbol } => {
                definitions.push(symbol.duplicate());
                assert(definitions@.map_values(|s: Symbol| s@) =~= before_defs.push(symbol@));
            },
            RustSymbol::Module { name, content, doc_comment } => {
                let x = Module {
                    name: qualified(prefix, name.as_str()),
                    definitions: definitions_in(content),
                    references: Vec::new(),
                    is_public,
                    doc_comment: clone_text(doc_comment),
                };
                assert(views(x.references@) =~= Seq::<Seq<char>>::empty());
                namespaces.push(x);
                assert(module_views(namespaces@) =~= before_ns.push(x.view()));
            },
            RustSymbol::ModuleDeclaration { name, is_public: module_is_public } => {
                match resolve_module_path(srcs, file_path, name.as_str()) {
                    Err(_) => {},
                    Ok(declared_file) => {
                        let child_prefix = qualified(prefix, name.as_str());
                        match collect_file(srcs, declared_file.as_str(), child_prefix.as_str(), *module_is_public, visited) {
                            Ok(mut child) => {
                                let ghost c = module_views(child@);
                                namespaces.append(&mut child);
                                assert(module_views(namespaces@) =~= before_ns + c);
                                proof {
                                    assert forall|f: nat| f > count_unvisited(m, v1) implies
                                        #[trigger] scan_items(m, path, prefix@, is_public, items, kk + 1, v1, f)
                                            == (Ok::<_, Seq<char>>((before_ns + c, before_defs, before_refs)), views(visited@)) by {
                                        assert(scan_items(m, path, prefix@, is_public, items, kk, v1, f)
                                            == (Ok::<_, Seq<char>>((before_ns, before_defs, before_refs)), vk));
                                        assert(file_modules(m, declared_file@, child_prefix@, *module_is_public, vk, f)
                                            == (Ok::<_, Seq<char>>(c), views(visited@)));
                                    }
                                }
                            },
                            Err(e) => {
                                proof {
                                    assert forall|f: nat| f > count_unvisited(m, v1) implies
                                        #[trigger] scan_items(m, path, prefix@, is_public, items, kk + 1, v1, f)
                                            == (Err::<(Seq<ModuleView>, Seq<(Seq<char>, Seq<char>)>, Seq<Seq<char>>), Seq<char>>(error_text(e)), views(visited@)) by {
                                        assert(scan_items(m, path, prefix@, is_public, items, kk, v1, f)
                                            == (Ok::<_, Seq<char>>((before_ns, before_defs, before_refs)), vk));
                                        assert(file_modules(m, declared_file@, child_prefix@, *module_is_public, vk, f)
                                            == (Err::<Seq<ModuleView>, Seq<char>>(error_text(e)), views(visited@)));
                                    }
                                    assert forall|f: nat| f > count_unvisited(m, v1) implies
                                        #[trigger] scan_items(m, path, prefix@, is_public, items, n as int, v1, f)
                                            == (Err::<(Seq<ModuleView>, Seq<(Seq<char>, Seq<char>)>, Seq<Seq<char>>), Seq<char>>(error_text(e)), views(visited@)) by {
                                        assert(scan_items(m, path, prefix@, is_public, items, kk + 1, v1, f).0 is Err);
                                        lemma_scan_err(m, path, prefix@, is_public, items, kk + 1, n as int, v1, f);
                                    }
                                    assert forall|fuel: nat| fuel > count_unvisited(m, v0) implies
                                        #[trigger] file_modules(m, path, prefix@, is_public, v0, fuel)
                                            == (collect_result(Err::<Vec<Module>, LaibraryError>(e)), views(visited@)) by {
                                        assert(scan_items(m, path, prefix@, is_public, items, n as int, v1, (fuel - 1) as nat).0 is Err);
                                    }
                                }
                                return Err(e);
                            },
                        }
                    },
                }
            },
            RustSymbol::SymbolReexport { name: _, source_path } => {
                references.push(qualified(prefix, source_path.as_str()));
                assert(views(references@) =~= before_refs.push(references@.last()@));
            },
        }
        proof {
            assert forall|f: nat| f > count_unvisited(m, v1) implies
                #[trigger] scan_items(m, path, prefix@, is_public, items, kk + 1, v1, f)
                    == (Ok::<_, Seq<char>>((
                        module_views(namespaces@),
                        definitions@.map_values(|s: Symbol| s@),
                        views(references@),
                    )), views(visited@)) by {
                assert(scan_items(m, path, prefix@, is_public, items, kk, v1, f)
                    == (Ok::<_, Seq<char>>((before_ns, before_defs, before_refs)), vk));
            }
        }
        k = k + 1;
    }
    let ghost final_ns = module_views(namespaces@);
    let ghost final_defs = definitions@.map_values(|s: Symbol| s@);
    let ghost final_refs = views(references@);
    let ghost final_visited = views(visited@);
    let x = Module {
        name: String::from_str(prefix),
        definitions,
        references,
        is_public,
        doc_comment: clone_text(&file.doc_comment),
    };
    namespaces.push(x);
    assert(module_views(namespaces@) =~= final_ns.push(x.view()));
    proof {
        assert forall|fuel: nat| fuel > count_unvisited(m, v0) implies
            #[trigger] file_modules(m, path, prefix@, is_public, v0, fuel)
                == (Ok::<_, Seq<char>>(module_views(namespaces@)), final_visited) by {
            let f = (fuel - 1) as nat;
            assert(f > count_unvisited(m, v1));
            assert(scan_items(m, path, prefix@, is_public, items, n as int, v1, f)
                == (Ok::<_, Seq<char>>((final_ns, final_defs, final_refs)), final_visited));
        }
    }
    Ok(namespaces)
}

/// The modules of a crate over its parsed sources, from `entry_point`: the
/// entry point's module is named by the empty path and is public.
pub fn collect_modules(srcs: &Vec<ParsedSource>, entry_point: &str) -> (r: Result<Vec<Module>, LaibraryError>)
    ensures
        collect_result(r) == crate_modules(sources_model(srcs@), entry_point@),
        r is Err ==> r matches Err(LaibraryError::Parse(_)),
{
    let mut visited: Vec<String> = Vec::new();
    proof {
        lemma_count_bound(sources_model(srcs@), views(visited@));
        assert(views(visited@) =~= Seq::<Seq<char>>::empty());
    }
    proof { reveal_strlit(""); }
    let ghost m = sources_model(srcs@);
    let ghost v = views(visited@);
    let r = collect_file(srcs, entry_point, "", true, &mut visited);
    proof {
        assert(m.len() == srcs@.len());
        assert(""@ =~= Seq::<char>::empty());
        let fuel = (m.len() + 1) as nat;
        assert(fuel > count_unvisited(m, v));
        assert(file_modules(m, entry_point@, ""@, true, v, fuel).0 == collect_result(r));
    }
    r
}


/// Whether `parsed` is what parsing `texts` may give, entry by entry: the
/// same paths, a read failure for a file that could not be read, and a parse
/// outcome of the text of each other file.
pub open spec fn parsed_from(parsed: Seq<ParsedSource>, texts: Seq<SourceText>) -> bool {
    &&& parsed.len() == texts.len()
    &&& forall|i: int| 0 <= i < texts.len() ==> {
        &&& (#[trigger] parsed[i]).0@ == texts[i].0@
        &&& match texts[i].1 {
            Err(cause) => parsed[i].1 matches Err(LaibraryError::Parse(m)) && m@ == read_failure_text(texts[i].0@, cause@),
            Ok(content) => parse_outcome(parsed[i].1, vstd::utf8::encode_utf8(content@)),
        }
    }
}

/// Whether `parsed` is what parsing `texts` with a parser ready for the Rust
/// grammar gives, entry by entry: the same paths, a read failure for a file
/// that could not be read, and the reading of the Rust parse of each other
/// file's text.
pub open spec fn rust_parsed_from(parsed: Seq<ParsedSource>, texts: Seq<SourceText>) -> bool {
    &&& parsed.len() == texts.len()
    &&& forall|i: int| 0 <= i < texts.len() ==> {
        &&& (#[trigger] parsed[i]).0@ == texts[i].0@
        &&& match texts[i].1 {
            Err(cause) => parsed[i].1 matches Err(LaibraryError::Parse(m)) && m@ == read_failure_text(texts[i].0@, cause@),
            Ok(content) => rust_file_outcome(parsed[i].1, content@),
        }
    }
}

/// Parses each source text that could be read.
pub fn parse_sources(texts: &Vec<SourceText>, parser: &mut tree_sitter::Parser) -> (r: Vec<ParsedSource>)
    ensures
        parsed_from(r@, texts@),
        crate::ts::parser_plain(*final(parser)) == crate::ts::parser_plain(*old(parser)),
        crate::ts::parser_ready(*final(parser)) == crate::ts::parser_ready(*old(parser)),
        crate::ts::parser_ready(*old(parser)) ==> rust_parsed_from(r@, texts@),
{
    let mut parsed: Vec<ParsedSource> = Vec::new();
    let mut i: usize = 0;
    while i < texts.len()
        invariant
            i <= texts@.len(),
            parsed@.len() == i,
            forall|j: int| 0 <= j < i ==> {
                &&& (#[trigger] parsed@[j]).0@ == texts@[j].0@
                &&& match texts@[j].1 {
                    Err(cause) => parsed@[j].1 matches Err(LaibraryError::Parse(m))
                        && m@ == read_failure_text(texts@[j].0@, cause@),
                    Ok(content) => parse_outcome(parsed@[j].1, vstd::utf8::encode_utf8(content@)),
                }
            },
            crate::ts::parser_plain(*parser) == crate::ts::parser_plain(*old(parser)),
            crate::ts::parser_ready(*parser) == crate::ts::parser_ready(*old(parser)),
            crate::ts::parser_ready(*old(parser)) ==> forall|j: int| 0 <= j < i ==> match texts@[j].1 {
                Err(_) => true,
                Ok(content) => rust_file_outcome((#[trigger] parsed@[j]).1, content@),
            },
        decreases texts@.len() - i,
    {
        let (path, text) = &texts[i];
        let outcome = match text {
            Err(cause) => Err(read_failure(path.as_str(), cause.as_str())),
            Ok(content) => parse_rust_file(content.as_str(), parser),
        };
        parsed.push((path.clone(), outcome));
        i = i + 1;
    }
    parsed
}

/// Traverses the source files of a Rust crate from its entry point and
/// collects the symbols and symbol references (re-exports) of each module.
///
/// `sources` holds the crate's files as they were read, the entry point
/// among them; the modules are those `collect_modules` finds over the parsed
/// files.
pub fn collect_symbols(
    entry_point: &str,
    sources: &Vec<SourceText>,
    parser: &mut tree_sitter::Parser,
) -> (r: Result<Vec<Module>, LaibraryError>)
    ensures
        exists|parsed: Seq<ParsedSource>| parsed_from(parsed, sources@)
            && collect_result(r) == crate_modules(sources_model(parsed), entry_point@),
        r is Err ==> r matches Err(LaibraryError::Parse(_)),
        crate::ts::parser_ready(*old(parser)) ==> exists|parsed: Seq<ParsedSource>|
            rust_parsed_from(parsed, sources@)
            && collect_result(r) == crate_modules(sources_model(parsed), entry_point@),
{
    let parsed = parse_sources(sources, parser);
    let r = collect_modules(&parsed, entry_point);
    assert(parsed_from(parsed@, sources@));
    assert(crate::ts::parser_ready(*old(parser)) ==> rust_parsed_from(parsed@, sources@));
    r
}

} // verus!

verus! {

/// Whenever the modules of a crate are collected, the last of them is the
/// entry point's own module: named by the empty path and public.
pub proof fn lemma_entry_module_last(srcs: Seq<(Seq<char>, FileModel)>, entry_point: Seq<char>)
    ensures
        crate_modules(srcs, entry_point) matches Ok(v) ==> v.len() > 0 && v.last().0 == Seq::<char>::empty()
            && v.last().3,
{
    let visited = Seq::<Seq<char>>::empty();
    assert(!visited.contains(entry_point));
}

/// The definitions of items laid end to end are those of each part, in order.
pub proof fn lemma_definitions_of_append(a: Seq<SymbolTree>, b: Seq<SymbolTree>)
    ensures
        definitions_of(a + b) == definitions_of(a) + definitions_of(b),
    decreases b.len(),
{
    if b.len() == 0 {
        assert(a + b =~= a);
        assert(definitions_of(a) + definitions_of(b) =~= definitions_of(a));
    } else {
        lemma_definitions_of_append(a, b.drop_last());
        assert((a + b).drop_last() =~= a + b.drop_last());
        assert((a + b).last() == b.last());
        assert(definitions_of(a) + definitions_of(b) =~= (definitions_of(a) + definitions_of(b.drop_last()))
            + match b.last() {
                SymbolTree::Symbol(n, s) => seq![(n, s)],
                _ => Seq::empty(),
            });
    }
}

/// Every symbol among the items is a definition, and the definitions are the
/// symbols, one each, in order: a lone symbol gives itself, any other lone
/// item nothing, and item `i` gives its definitions between those of the
/// items before it and those of the items after it.
pub proof fn lemma_definitions_of_symbols(items: Seq<SymbolTree>, i: int)
    requires
        0 <= i < items.len(),
    ensures
        definitions_of(items) == definitions_of(items.take(i)) + definitions_of(seq![items[i]])
            + definitions_of(items.skip(i + 1)),
        definitions_of(seq![items[i]]) == match items[i] {
            SymbolTree::Symbol(n, s) => seq![(n, s)],
            _ => Seq::<(Seq<char>, Seq<char>)>::empty(),
        },
        items[i] matches SymbolTree::Symbol(n, s) ==> definitions_of(items).contains((n, s)),
{
    let one = seq![items[i]];
    assert(one.drop_last() =~= Seq::<SymbolTree>::empty());
    assert(definitions_of(one.drop_last()) =~= Seq::<(Seq<char>, Seq<char>)>::empty());
    assert(items =~= items.take(i) + one + items.skip(i + 1));
    lemma_definitions_of_append(items.take(i) + one, items.skip(i + 1));
    lemma_definitions_of_append(items.take(i), one);
    if let SymbolTree::Symbol(n, s) = items[i] {
        let d = definitions_of(items);
        let pre = definitions_of(items.take(i));
        assert(definitions_of(one) =~= seq![(n, s)]);
        assert(d[pre.len() as int] == (n, s));
    }
}

/// The definition an item gives: its name and source for a symbol, nothing
/// for any other item.
pub open spec fn symbol_definition(t: SymbolTree) -> Option<(Seq<char>, Seq<char>)> {
    match t {
        SymbolTree::Symbol(n, s) => Some((n, s)),
        _ => None,
    }
}

/// The definitions among items are exactly their symbols, one each, in order.
pub proof fn lemma_definitions_of_are_the_symbols(items: Seq<SymbolTree>)
    ensures
        definitions_of(items) == items.filter_map(|t: SymbolTree| symbol_definition(t)),
    decreases items.len(),
{
    if items.len() > 0 {
        lemma_definitions_of_are_the_symbols(items.drop_last());
    }
}

/// The file-level definitions and references of a scan are those of all the
/// items scanned, in order: each symbol is a definition, and each re-export a
/// reference to its source path under the module's prefix; the modules found
/// for fewer items are a prefix of those found for more.
pub proof fn lemma_scan_items_keeps_all(
    srcs: Seq<(Seq<char>, FileModel)>,
    path: Seq<char>,
    prefix: Seq<char>,
    is_public: bool,
    items: Seq<SymbolTree>,
    j: int,
    k: int,
    visited: Seq<Seq<char>>,
    fuel: nat,
)
    requires
        0 <= j <= k <= items.len(),
        scan_items(srcs, path, prefix, is_public, items, k, visited, fuel).0 is Ok,
    ensures
        ({
            let (mods, defs, refs) = scan_items(srcs, path, prefix, is_public, items, k, visited, fuel).0->Ok_0;
            &&& defs == definitions_of(items.take(k))
            &&& refs == items.take(k).filter_map(|t: SymbolTree| match t {
                SymbolTree::Reexport(_, sp) => Some(child_path(prefix, sp)),
                _ => None,
            })
            &&& scan_items(srcs, path, prefix, is_public, items, j, visited, fuel).0 is Ok
            &&& scan_items(srcs, path, prefix, is_public, items, j, visited, fuel).0->Ok_0.0.len() <= mods.len()
            &&& mods.subrange(0, scan_items(srcs, path, prefix, is_public, items, j, visited, fuel).0->Ok_0.0.len() as int)
                == scan_items(srcs, path, prefix, is_public, items, j, visited, fuel).0->Ok_0.0
        }),
    decreases k,
{
    let rf = |t: SymbolTree| match t {
        SymbolTree::Reexport(_, sp) => Some(child_path(prefix, sp)),
        _ => None,
    };
    if k == 0 {
        assert(items.take(0) =~= Seq::<SymbolTree>::empty());
        let mods = scan_items(srcs, path, prefix, is_public, items, 0, visited, fuel).0->Ok_0.0;
        assert(mods.subrange(0, mods.len() as int) =~= mods);
    } else {
        let prev = scan_items(srcs, path, prefix, is_public, items, k - 1, visited, fuel);
        assert(prev.0 is Ok);
        lemma_scan_items_keeps_all(srcs, path, prefix, is_public, items, if j < k { j } else { k - 1 }, k - 1, visited, fuel);
        let t = items.take(k);
        assert(t.drop_last() =~= items.take(k - 1));
        assert(t.last() == items[k - 1]);
        lemma_definitions_of_are_the_symbols(t);
        lemma_definitions_of_are_the_symbols(items.take(k - 1));
        let (pm, pd, pr) = prev.0->Ok_0;
        let (m, d, r) = scan_items(srcs, path, prefix, is_public, items, k, visited, fuel).0->Ok_0;
        assert(t.filter_map(rf) == match rf(t.last()) {
            Some(x) => t.drop_last().filter_map(rf) + seq![x],
            None => t.drop_last().filter_map(rf),
        });
        let sd = |x: SymbolTree| symbol_definition(x);
        assert(t.filter_map(sd) == match sd(t.last()) {
            Some(x) => t.drop_last().filter_map(sd) + seq![x],
            None => t.drop_last().filter_map(sd),
        });
        match items[k - 1] {
            SymbolTree::Symbol(n, sy) => {
                assert(d =~= pd.push((n, sy)));
                assert(r == pr);
                assert(m == pm);
            },
            SymbolTree::Reexport(_, sp) => {
                assert(r =~= pr.push(child_path(prefix, sp)));
                assert(d == pd);
                assert(m == pm);
            },
            SymbolTree::Module(n, content, doc) => {
                assert(d == pd);
                assert(r == pr);
                assert(m.subrange(0, pm.len() as int) =~= pm);
            },
            SymbolTree::Declaration(n, module_is_public) => {
                assert(d == pd);
                assert(r == pr);
                assert(m.subrange(0, pm.len() as int) =~= pm);
            },
        }
        assert(pm.len() <= m.len());
        if j < k {
            let a = scan_items(srcs, path, prefix, is_public, items, j, visited, fuel).0->Ok_0.0;
            assert(a.len() <= pm.len());
            assert(m.subrange(0, a.len() as int) =~= pm.subrange(0, a.len() as int));
        } else {
            assert(m.subrange(0, m.len() as int) =~= m);
        }
    }
}

} // verus!
