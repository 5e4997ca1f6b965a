//! Resolution of re-exported paths to the definitions they name, and of the
//! modules each definition is visible in.

use vstd::prelude::*;
use crate::error::LaibraryError;
use crate::languages::rust::api::symbol_collection::Module;
use crate::lookup::{
    lemma_map_insert_get, map_get,
    contains_str, count_unvisited, find_key, find_last, key_index, lemma_count_visit, lemma_key_index_range,
    lemma_lookup_at, lemma_lookup_none, lookup_last, map_insert, StringMap,
};
use crate::strings::{split_on_str, split_str, views};
use crate::types::Symbol;

verus! {

/// A definition and the modules it is visible in.
#[derive(Debug, Clone)]
pub struct ResolvedSymbol {
    pub symbol: Symbol,
    pub modules: Vec<String>,
}

/// The resolved definitions and the doc comments of the public modules.
#[derive(Debug)]
pub struct SymbolResolution {
    pub symbols: Vec<ResolvedSymbol>,
    pub doc_comments: StringMap,
}

/// A resolved symbol as plain values.
pub type ResolvedView = ((Seq<char>, Seq<char>), Seq<Seq<char>>);

impl ResolvedSymbol {
    pub open spec fn view(self) -> ResolvedView {
        (self.symbol@, views(self.modules@))
    }
}

/// The path under which a module's symbol is defined.
pub open spec fn symbol_path(name: Seq<char>, module: Seq<char>) -> Seq<char> {
    if module.len() == 0 {
        name
    } else {
        module + "::"@ + name
    }
}

/// The last segment of a `::`-separated path.
pub open spec fn last_segment(p: Seq<char>) -> Seq<char> {
    split_str(p, "::"@).last()
}

/// The map from symbol paths to definitions after the definitions of the
/// first `j` entries of `defs` (all in module `module`) are added to `m`.
pub open spec fn add_definitions(
    m: Seq<(Seq<char>, ResolvedView)>,
    module: Seq<char>,
    defs: Seq<Symbol>,
    j: int,
) -> Seq<(Seq<char>, ResolvedView)>
    decreases j,
{
    if j <= 0 || j > defs.len() {
        m
    } else {
        let d = defs[j - 1];
        map_insert(add_definitions(m, module, defs, j - 1), symbol_path(d.name@, module), (d@, seq![module]))
    }
}

/// The definitions of the first `i` modules, keyed by symbol path; a later
/// definition of a path replaces an earlier one.
pub open spec fn definitions_map(mods: Seq<Module>, i: int) -> Seq<(Seq<char>, ResolvedView)>
    decreases i,
{
    if i <= 0 || i > mods.len() {
        Seq::empty()
    } else {
        let md = mods[i - 1];
        add_definitions(definitions_map(mods, i - 1), md.name@, md.definitions@, md.definitions@.len() as int)
    }
}

/// The re-exports of one module: each re-exported symbol's name, and the path it
/// would be defined at in that module.
pub open spec fn module_reference_log(md: Module) -> Seq<(Seq<char>, Seq<char>)> {
    md.references@.map_values(|sp: String| (last_segment(sp@), symbol_path(last_segment(sp@), md.name@)))
}

/// The re-exports of the first `i` modules.
pub open spec fn reference_log(mods: Seq<Module>, i: int) -> Seq<(Seq<char>, Seq<char>)>
    decreases i,
{
    if i <= 0 || i > mods.len() {
        Seq::empty()
    } else {
        reference_log(mods, i - 1) + module_reference_log(mods[i - 1])
    }
}

/// Whether a module is public: the root and the modules marked public.
pub open spec fn is_public_module(md: Module) -> bool {
    md.name@.len() == 0 || md.is_public
}

/// The names of the public modules among the first `i`, in order.
pub open spec fn public_names(mods: Seq<Module>, i: int) -> Seq<Seq<char>>
    decreases i,
{
    if i <= 0 || i > mods.len() {
        Seq::empty()
    } else if is_public_module(mods[i - 1]) {
        public_names(mods, i - 1).push(mods[i - 1].name@)
    } else {
        public_names(mods, i - 1)
    }
}

/// The module names of `ms` that are public, in order.
pub open spec fn keep_public(ms: Seq<Seq<char>>, pubs: Seq<Seq<char>>) -> Seq<Seq<char>>
    decreases ms.len(),
{
    if ms.len() == 0 {
        Seq::empty()
    } else if pubs.contains(ms.last()) {
        keep_public(ms.drop_last(), pubs).push(ms.last())
    } else {
        keep_public(ms.drop_last(), pubs)
    }
}

/// The message for a re-export chain that returns to a path it passed.
pub open spec fn circular_message(path: Seq<char>) -> Seq<char> {
    "Circular reference detected while resolving '"@ + path + "'"@
}

/// The message for a path that is neither defined nor re-exported.
pub open spec fn unresolved_message(path: Seq<char>) -> Seq<char> {
    "Could not resolve symbol reference '"@ + path + "'"@
}

/// Follows re-exports from `path` until a defined path; an error when the
/// chain returns to a path it passed or reaches a path with neither.
pub open spec fn resolves(
    path: Seq<char>,
    refs: Seq<(Seq<char>, Seq<char>)>,
    defs: Seq<(Seq<char>, ResolvedView)>,
    visited: Seq<Seq<char>>,
) -> Result<(), Seq<char>>
    decreases count_unvisited(refs, visited),
{
    if visited.contains(path) {
        Err(circular_message(path))
    } else if key_index(defs, path) >= 0 {
        Ok(())
    } else {
        match lookup_last(refs, path) {
            Some(next) => {
                proof {
                    lemma_count_visit(refs, visited, path);
                }
                resolves(next, refs, defs, visited.push(path))
            },
            None => Err(unresolved_message(path)),
        }
    }
}

/// After a re-export of `path` from `module` resolves: the definition at
/// `path`, if any, is visible in its public modules and in `module`.
pub open spec fn mark_visible(
    m: Seq<(Seq<char>, ResolvedView)>,
    path: Seq<char>,
    module: Seq<char>,
    pubs: Seq<Seq<char>>,
) -> Seq<(Seq<char>, ResolvedView)> {
    let i = key_index(m, path);
    if 0 <= i < m.len() {
        let (sym, ms) = m[i].1;
        m.update(i, (path, (sym, keep_public(ms, pubs).push(module))))
    } else {
        m
    }
}

/// The map after the first `k` re-exports of `md` are resolved.
pub open spec fn apply_references(
    m: Seq<(Seq<char>, ResolvedView)>,
    md: Module,
    k: int,
    refs: Seq<(Seq<char>, Seq<char>)>,
    pubs: Seq<Seq<char>>,
) -> Result<Seq<(Seq<char>, ResolvedView)>, Seq<char>>
    decreases k,
{
    if k <= 0 || k > md.references@.len() {
        Ok(m)
    } else {
        match apply_references(m, md, k - 1, refs, pubs) {
            Err(e) => Err(e),
            Ok(m2) => {
                let sp = md.references@[k - 1]@;
                match resolves(sp, refs, m2, Seq::empty()) {
                    Err(e) => Err(e),
                    Ok(()) => Ok(mark_visible(m2, sp, md.name@, pubs)),
                }
            },
        }
    }
}

/// The map after the re-exports of the public modules among the first `i`
/// are resolved, in order.
pub open spec fn resolve_modules(mods: Seq<Module>, i: int) -> Result<Seq<(Seq<char>, ResolvedView)>, Seq<char>>
    decreases i,
{
    if i <= 0 || i > mods.len() {
        Ok(definitions_map(mods, mods.len() as int))
    } else {
        match resolve_modules(mods, i - 1) {
            Err(e) => Err(e),
            Ok(m) => if is_public_module(mods[i - 1]) {
                apply_references(
                    m,
                    mods[i - 1],
                    mods[i - 1].references@.len() as int,
                    reference_log(mods, mods.len() as int),
                    public_names(mods, mods.len() as int),
                )
            } else {
                Ok(m)
            },
        }
    }
}

/// The doc comments of the public modules among the first `i`, by module name.
pub open spec fn doc_comment_map(mods: Seq<Module>, i: int) -> Seq<(Seq<char>, Seq<char>)>
    decreases i,
{
    if i <= 0 || i > mods.len() {
        Seq::empty()
    } else {
        let md = mods[i - 1];
        let before = doc_comment_map(mods, i - 1);
        if is_public_module(md) && md.doc_comment is Some {
            map_insert(before, md.name@, md.doc_comment->0@)
        } else {
            before
        }
    }
}

} // verus!

verus! {

/// The views of the entries of an executable definitions map.
pub open spec fn map_view(m: Seq<(String, ResolvedSymbol)>) -> Seq<(Seq<char>, ResolvedView)> {
    m.map_values(|e: (String, ResolvedSymbol)| (e.0@, e.1@))
}

/// The views of a sequence of resolved symbols.
pub open spec fn resolved_views(v: Seq<ResolvedSymbol>) -> Seq<ResolvedView> {
    v.map_values(|r: ResolvedSymbol| r@)
}

/// The views of an executable re-export log.
pub open spec fn ref_view(log: Seq<(String, String)>) -> Seq<(Seq<char>, Seq<char>)> {
    log.map_values(|e: (String, String)| (e.0@, e.1@))
}

/// The path under which a module's symbol is defined.
fn get_symbol_path(symbol_name: &str, module: &Module) -> (p: String)
    ensures
        p@ == symbol_path(symbol_name@, module.name@),
{
    if module.name.as_str().is_empty() {
        String::from_str(symbol_name)
    } else {
        let mut p = module.name.clone();
        p.append("::");
        p.append(symbol_name);
        p
    }
}

fn key_position(m: &Vec<(String, ResolvedSymbol)>, k: &str) -> (r: Option<usize>)
    ensures
        match r {
            Some(i) => i < m@.len() && i == key_index(map_view(m@), k@),
            None => key_index(map_view(m@), k@) == -1,
        },
{
    let ghost ks = m@.map_values(|e: (String, ResolvedSymbol)| (e.0@, e.1));
    proof {
        assert forall|j: int| 0 <= j < ks.len() implies ks[j].0 == map_view(m@)[j].0 by {}
        crate::lookup::lemma_key_index_same(ks, map_view(m@), k@, 0);
    }
    find_key(m, k)
}

fn insert_definition(m: &mut Vec<(String, ResolvedSymbol)>, key: String, value: ResolvedSymbol)
    ensures
        map_view(final(m)@) == map_insert(map_view(old(m)@), key@, value@),
{
    let ghost before = map_view(m@);
    match key_position(m, key.as_str()) {
        Some(i) => {
            m.set(i, (key, value));
            assert(map_view(m@) =~= before.update(i as int, (key@, value@)));
        },
        None => {
            m.push((key, value));
            assert(map_view(m@) =~= before.push((key@, value@)));
        },
    }
}

fn last_path_segment(p: &String) -> (r: String)
    ensures
        r@ == last_segment(p@),
{
    proof { reveal_strlit("::"); }
    let parts = split_on_str(p.as_str(), "::");
    proof { crate::strings::lemma_split_str_nonempty(p@, "::"@); }
    parts[parts.len() - 1].clone()
}

fn quote_message(prefix: &str, path: &str) -> (m: String)
    ensures
        m@ == prefix@ + path@ + "'"@,
{
    let mut m = String::from_str(prefix);
    m.append(path);
    m.append("'");
    m
}

fn resolve_reference(
    path: &str,
    refs: &Vec<(String, String)>,
    defs: &Vec<(String, ResolvedSymbol)>,
    visited: &mut Vec<String>,
) -> (r: Result<(), LaibraryError>)
    ensures
        match resolves(path@, ref_view(refs@), map_view(defs@), views(old(visited)@)) {
            Ok(()) => r is Ok,
            Err(e) => r matches Err(LaibraryError::Parse(m)) && m@ == e,
        },
    decreases count_unvisited(ref_view(refs@), views(old(visited)@)),
{
    let ghost rl = ref_view(refs@);
    let ghost vis = views(visited@);
    if contains_str(visited, path) {
        return Err(LaibraryError::Parse(quote_message("Circular reference detected while resolving '", path)));
    }
    visited.push(String::from_str(path));
    assert(views(visited@) =~= vis.push(path@));
    if key_position(defs, path).is_some() {
        return Ok(());
    }
    match find_last(refs, path) {
        Some(i) => {
            proof {
                lemma_lookup_at(rl, path@, i as int);
                lemma_count_visit(rl, vis, path@);
            }
            resolve_reference(refs[i].1.as_str(), refs, defs, visited)
        },
        None => {
            proof { lemma_lookup_none(rl, path@); }
            Err(LaibraryError::Parse(quote_message("Could not resolve symbol reference '", path)))
        },
    }
}

fn keep_public_modules(ms: &Vec<String>, pubs: &Vec<String>) -> (r: Vec<String>)
    ensures
        views(r@) == keep_public(views(ms@), views(pubs@)),
{
    let ghost all = views(ms@);
    let mut r: Vec<String> = Vec::new();
    let mut i: usize = 0;
    while i < ms.len()
        invariant
            all == views(ms@),
            i <= ms@.len(),
            views(r@) == keep_public(all.subrange(0, i as int), views(pubs@)),
        decreases ms@.len() - i,
    {
        assert(all.subrange(0, i + 1).drop_last() =~= all.subrange(0, i as int));
        if contains_str(pubs, ms[i].as_str()) {
            let ghost before = views(r@);
            r.push(ms[i].clone());
            assert(views(r@) =~= before.push(all[i as int]));
        }
        i = i + 1;
    }
    assert(all.subrange(0, all.len() as int) =~= all);
    r
}

proof fn lemma_apply_err(m: Seq<(Seq<char>, ResolvedView)>, md: Module, refs: Seq<(Seq<char>, Seq<char>)>, pubs: Seq<Seq<char>>, k: int, n: int)
    requires
        0 <= k <= n <= md.references@.len(),
        apply_references(m, md, k, refs, pubs) is Err,
    ensures
        apply_references(m, md, n, refs, pubs) == apply_references(m, md, k, refs, pubs),
    decreases n - k,
{
    if k < n {
        lemma_apply_err(m, md, refs, pubs, k, n - 1);
    }
}

proof fn lemma_modules_err(mods: Seq<Module>, i: int, n: int)
    requires
        0 <= i <= n <= mods.len(),
        resolve_modules(mods, i) is Err,
    ensures
        resolve_modules(mods, n) == resolve_modules(mods, i),
    decreases n - i,
{
    if i < n {
        lemma_modules_err(mods, i, n - 1);
    }
}

} // verus!

verus! {

/// Resolves the re-exports of the public modules.
///
/// Every definition is keyed by its symbol path and first visible in its own
/// module (a later definition of a path replaces an earlier one). Then, for
/// each public module (the root or one marked public) in order, each of its
/// re-exported paths is followed through the re-exports until a defined path;
/// the definition found at the re-exported path, if any, becomes visible in
/// its public modules and in the re-exporting module. The first path that
/// cannot be followed to a definition, or whose chain returns to a path it
/// passed, makes the result an error. The doc comments of the public modules
/// are kept by module name.
pub fn resolve_symbols(modules: &[Module]) -> (r: Result<SymbolResolution, LaibraryError>)
    ensures
        match resolve_modules(modules@, modules@.len() as int) {
            Ok(m) => r matches Ok(res) && resolved_views(res.symbols@)
                == m.map_values(|e: (Seq<char>, ResolvedView)| e.1)
                && res.doc_comments@ == doc_comment_map(modules@, modules@.len() as int),
            Err(e) => r matches Err(LaibraryError::Parse(msg)) && msg@ == e,
        },
{
    let ghost mods = modules@;
    let n = modules.len();
    let mut defs: Vec<(String, ResolvedSymbol)> = Vec::new();
    let mut refs: Vec<(String, String)> = Vec::new();
    let mut i: usize = 0;
    assert(map_view(defs@) =~= Seq::<(Seq<char>, ResolvedView)>::empty());
    assert(ref_view(refs@) =~= Seq::<(Seq<char>, Seq<char>)>::empty());
    while i < n
        invariant
            mods == modules@,
            n == mods.len(),
            i <= n,
            map_view(defs@) == definitions_map(mods, i as int),
            ref_view(refs@) == reference_log(mods, i as int),
        decreases n - i,
    {
        let module = &modules[i];
        let ghost base = map_view(defs@);
        let mut j: usize = 0;
        while j < module.definitions.len()
            invariant
                i < n,
                n == mods.len(),
                *module == mods[i as int],
                j <= module.definitions@.len(),
                map_view(defs@) == add_definitions(base, module.name@, module.definitions@, j as int),
            decreases module.definitions@.len() - j,
        {
            let symbol = &module.definitions[j];
            let key = get_symbol_path(symbol.name.as_str(), module);
            let modules_visible = vec![module.name.clone()];
            assert(views(modules_visible@) =~= seq![module.name@]);
            insert_definition(&mut defs, key, ResolvedSymbol { symbol: symbol.duplicate(), modules: modules_visible });
            j = j + 1;
        }
        let ghost ref_base = ref_view(refs@);
        let mut k: usize = 0;
        while k < module.references.len()
            invariant
                i < n,
                n == mods.len(),
                *module == mods[i as int],
                k <= module.references@.len(),
                ref_view(refs@) == ref_base + module_reference_log(*module).subrange(0, k as int),
            decreases module.references@.len() - k,
        {
            let ghost before = ref_view(refs@);
            let symbol_name = last_path_segment(&module.references[k]);
            let path = get_symbol_path(symbol_name.as_str(), module);
            refs.push((symbol_name, path));
            assert(ref_view(refs@) =~= before.push(module_reference_log(*module)[k as int]));
            assert(module_reference_log(*module).subrange(0, k + 1) =~= module_reference_log(*module).subrange(0, k as int).push(module_reference_log(*module)[k as int]));
            k = k + 1;
        }
        assert(module_reference_log(*module).subrange(0, module.references@.len() as int) =~= module_reference_log(*module));
        i = i + 1;
    }

    let mut pubs: Vec<String> = Vec::new();
    let mut i: usize = 0;
    assert(views(pubs@) =~= Seq::<Seq<char>>::empty());
    while i < n
        invariant
            mods == modules@,
            n == mods.len(),
            i <= n,
            views(pubs@) == public_names(mods, i as int),
        decreases n - i,
    {
        if modules[i].name.as_str().is_empty() || modules[i].is_public {
            let ghost before = views(pubs@);
            pubs.push(modules[i].name.clone());
            assert(views(pubs@) =~= before.push(mods[i as int].name@));
        }
        i = i + 1;
    }

    let ghost rl = ref_view(refs@);
    let ghost pl = views(pubs@);
    let mut i: usize = 0;
    while i < n
        invariant
            mods == modules@,
            n == mods.len(),
            i <= n,
            rl == ref_view(refs@),
            rl == reference_log(mods, n as int),
            pl == views(pubs@),
            pl == public_names(mods, n as int),
            resolve_modules(mods, i as int) == Ok::<_, Seq<char>>(map_view(defs@)),
        decreases n - i,
    {
        let module = &modules[i];
        if module.name.as_str().is_empty() || module.is_public {
            let ghost m0 = map_view(defs@);
            let mut k: usize = 0;
            while k < module.references.len()
                invariant
                    mods == modules@,
                    n == mods.len(),
                    i < n,
                    *module == mods[i as int],
                    is_public_module(*module),
                    rl == ref_view(refs@),
                    rl == reference_log(mods, n as int),
                    pl == views(pubs@),
                    pl == public_names(mods, n as int),
                    resolve_modules(mods, i as int) == Ok::<_, Seq<char>>(m0),
                    k <= module.references@.len(),
                    apply_references(m0, *module, k as int, rl, pl) == Ok::<_, Seq<char>>(map_view(defs@)),
                decreases module.references@.len() - k,
            {
                let source_path = &module.references[k];
                let mut visited: Vec<String> = Vec::new();
                assert(views(visited@) =~= Seq::<Seq<char>>::empty());
                match resolve_reference(source_path.as_str(), &refs, &defs, &mut visited) {
                    Ok(()) => {
                        let ghost before = map_view(defs@);
                        match key_position(&defs, source_path.as_str()) {
                            Some(idx) => {
                                let mut visible = keep_public_modules(&defs[idx].1.modules, &pubs);
                                let ghost kept = views(visible@);
                                visible.push(module.name.clone());
                                assert(views(visible@) =~= kept.push(module.name@));
                                let entry = (defs[idx].0.clone(), ResolvedSymbol { symbol: defs[idx].1.symbol.duplicate(), modules: visible });
                                proof { lemma_key_index_range(before, source_path@, 0); }
                                defs.set(idx, entry);
                                assert(map_view(defs@) =~= mark_visible(before, source_path@, module.name@, pl));
                            },
                            None => {
                                assert(map_view(defs@) =~= mark_visible(before, source_path@, module.name@, pl));
                            },
                        }
                    },
                    Err(e) => {
                        proof {
                            let pe = resolves(source_path@, rl, map_view(defs@), Seq::empty())->Err_0;
                            assert(apply_references(m0, *module, k + 1, rl, pl) == Err::<Seq<(Seq<char>, ResolvedView)>, Seq<char>>(pe));
                            lemma_apply_err(m0, *module, rl, pl, k + 1, module.references@.len() as int);
                            assert(resolve_modules(mods, (i + 1) as int) == Err::<Seq<(Seq<char>, ResolvedView)>, Seq<char>>(pe));
                            lemma_modules_err(mods, i + 1, n as int);
                        }
                        return Err(e);
                    },
                }
                k = k + 1;
            }
        }
        i = i + 1;
    }

    let mut doc_comments = StringMap::new();
    let mut i: usize = 0;
    while i < n
        invariant
            mods == modules@,
            n == mods.len(),
            i <= n,
            doc_comments@ == doc_comment_map(mods, i as int),
        decreases n - i,
    {
        let module = &modules[i];
        if module.name.as_str().is_empty() || module.is_public {
            match &module.doc_comment {
                Some(doc) => doc_comments.insert(module.name.clone(), doc.clone()),
                None => {},
            }
        }
        i = i + 1;
    }

    let ghost final_map = map_view(defs@);
    let mut symbols: Vec<ResolvedSymbol> = Vec::new();
    let mut i: usize = 0;
    while i < defs.len()
        invariant
            final_map == map_view(defs@),
            i <= defs@.len(),
            resolved_views(symbols@) == final_map.subrange(0, i as int).map_values(|e: (Seq<char>, ResolvedView)| e.1),
        decreases defs@.len() - i,
    {
        let ghost before = resolved_views(symbols@);
        symbols.push(ResolvedSymbol { symbol: defs[i].1.symbol.duplicate(), modules: crate::strings::clone_strings(&defs[i].1.modules) });
        assert(resolved_views(symbols@) =~= before.push(final_map[i as int].1));
        assert(final_map.subrange(0, i + 1).map_values(|e: (Seq<char>, ResolvedView)| e.1) =~= final_map.subrange(0, i as int).map_values(|e: (Seq<char>, ResolvedView)| e.1).push(final_map[i as int].1));
        i = i + 1;
    }
    assert(final_map.subrange(0, final_map.len() as int) =~= final_map);
    Ok(SymbolResolution { symbols, doc_comments })
}

} // verus!

verus! {

/// Two maps with the same paths and symbols in the same order.
pub open spec fn same_symbols(a: Seq<(Seq<char>, ResolvedView)>, b: Seq<(Seq<char>, ResolvedView)>) -> bool {
    &&& a.len() == b.len()
    &&& forall|t: int| 0 <= t < a.len() ==> (#[trigger] a[t]).0 == b[t].0 && a[t].1.0 == b[t].1.0
}

proof fn lemma_apply_references_same(
    m: Seq<(Seq<char>, ResolvedView)>,
    md: Module,
    k: int,
    refs: Seq<(Seq<char>, Seq<char>)>,
    pubs: Seq<Seq<char>>,
)
    ensures
        apply_references(m, md, k, refs, pubs) matches Ok(m2) ==> same_symbols(m2, m),
    decreases k,
{
    if 0 < k <= md.references@.len() {
        lemma_apply_references_same(m, md, k - 1, refs, pubs);
        if let Ok(m2) = apply_references(m, md, k - 1, refs, pubs) {
            let sp = md.references@[k - 1]@;
            let i = key_index(m2, sp);
            lemma_key_index_range(m2, sp, 0);
            let m3 = mark_visible(m2, sp, md.name@, pubs);
            assert(same_symbols(m3, m2)) by {
                if 0 <= i < m2.len() {
                    assert forall|t: int| 0 <= t < m3.len() implies (#[trigger] m3[t]).0 == m2[t].0 && m3[t].1.0 == m2[t].1.0 by {
                        if t == i {
                        } else {
                            assert(m3[t] == m2[t]);
                        }
                    }
                }
            }
        }
    }
}

/// Resolving re-exports only changes where symbols are visible: the resolved
/// map holds the same symbol paths and symbols, in the same order, as the map
/// of the definitions.
pub proof fn lemma_resolution_keeps_definitions(mods: Seq<Module>, i: int)
    ensures
        resolve_modules(mods, i) matches Ok(m) ==> same_symbols(m, definitions_map(mods, mods.len() as int)),
    decreases i,
{
    if 0 < i <= mods.len() {
        lemma_resolution_keeps_definitions(mods, i - 1);
        if let Ok(m) = resolve_modules(mods, i - 1) {
            if is_public_module(mods[i - 1]) {
                lemma_apply_references_same(m, mods[i - 1], mods[i - 1].references@.len() as int,
                    reference_log(mods, mods.len() as int), public_names(mods, mods.len() as int));
            }
        }
    }
}

/// A path that is not defined and is re-exported as itself is reported as a
/// circular reference.
pub proof fn lemma_self_reexport_is_circular(
    path: Seq<char>,
    refs: Seq<(Seq<char>, Seq<char>)>,
    defs: Seq<(Seq<char>, ResolvedView)>,
)
    requires
        key_index(defs, path) < 0,
        lookup_last(refs, path) == Some(path),
    ensures
        resolves(path, refs, defs, Seq::empty()) == Err::<(), Seq<char>>(circular_message(path)),
{
    let v = Seq::<Seq<char>>::empty();
    assert(!v.contains(path));
    assert(v.push(path)[0] == path);
    assert(v.push(path).contains(path));
    assert(resolves(path, refs, defs, v.push(path)) == Err::<(), Seq<char>>(circular_message(path)));
}

/// The names of the modules are pairwise distinct.
pub open spec fn distinct_module_names(mods: Seq<Module>) -> bool {
    forall|a: int, b: int| 0 <= a < b < mods.len() ==> mods[a].name@ != mods[b].name@
}

/// Whether a module has the doc comment `doc`.
pub open spec fn has_doc(md: Module, doc: Seq<char>) -> bool {
    md.doc_comment matches Some(d) && d@ == doc
}

/// Whether some public module among the first `i` is named `name` and has the
/// doc comment `doc`.
pub open spec fn documents(mods: Seq<Module>, i: int, name: Seq<char>, doc: Seq<char>) -> bool {
    exists|j: int| 0 <= j < i && #[trigger] mods[j].name@ == name && is_public_module(mods[j])
        && has_doc(mods[j], doc)
}

/// With distinct module names, the doc comments of a resolution map each public
/// module that has a doc comment, and only those, to that doc comment.
pub proof fn lemma_doc_comments_of_public_modules(mods: Seq<Module>, i: int, name: Seq<char>)
    requires
        distinct_module_names(mods),
        0 <= i <= mods.len(),
    ensures
        match map_get(doc_comment_map(mods, i), name) {
            Some(doc) => documents(mods, i, name, doc),
            None => forall|doc: Seq<char>| !#[trigger] documents(mods, i, name, doc),
        },
    decreases i,
{
    if i > 0 {
        lemma_doc_comments_of_public_modules(mods, i - 1, name);
        let md = mods[i - 1];
        let before = doc_comment_map(mods, i - 1);
        assert forall|doc: Seq<char>| #[trigger] documents(mods, i, name, doc) implies
            (documents(mods, i - 1, name, doc) || (md.name@ == name && is_public_module(md) && has_doc(md, doc))) by {
            let j = choose|j: int| 0 <= j < i && #[trigger] mods[j].name@ == name && is_public_module(mods[j])
                && has_doc(mods[j], doc);
            if j < i - 1 {
                assert(mods[j].name@ == name);
            }
        }
        assert forall|doc: Seq<char>| #[trigger] documents(mods, i - 1, name, doc) implies documents(mods, i, name, doc) by {
            let j = choose|j: int| 0 <= j < i - 1 && #[trigger] mods[j].name@ == name && is_public_module(mods[j])
                && has_doc(mods[j], doc);
            assert(mods[j].name@ == name);
        }
        if md.name@ == name {
            assert forall|doc: Seq<char>| !#[trigger] documents(mods, i - 1, name, doc) by {
                if documents(mods, i - 1, name, doc) {
                    let j = choose|j: int| 0 <= j < i - 1 && #[trigger] mods[j].name@ == name && is_public_module(mods[j])
                        && has_doc(mods[j], doc);
                    assert(mods[j].name@ != mods[i - 1].name@);
                }
            }
        }
        if is_public_module(md) && md.doc_comment is Some {
            let d0 = md.doc_comment->0@;
            lemma_map_insert_get(before, md.name@, d0, name);
            if md.name@ == name {
                assert(has_doc(md, d0));
                assert(mods[i - 1].name@ == name);
                assert(documents(mods, i, name, d0));
            }
        } else {
            assert forall|doc: Seq<char>| !has_doc(md, doc) || !is_public_module(md) by {}
        }
    }
}

/// The public modules of a list are exactly those of its modules that are
/// public, in their order: a filter of the list by membership in `pubs`.
pub proof fn lemma_keep_public_is_filter(ms: Seq<Seq<char>>, pubs: Seq<Seq<char>>)
    ensures
        keep_public(ms, pubs) == ms.filter(|m: Seq<char>| pubs.contains(m)),
    decreases ms.len(),
{
    reveal(Seq::filter);
    if ms.len() > 0 {
        lemma_keep_public_is_filter(ms.drop_last(), pubs);
    }
}

/// A module stays listed among the public modules exactly when it was listed
/// and is public; so a re-export keeps every public module a symbol was
/// already visible in.
pub proof fn lemma_keep_public_members(ms: Seq<Seq<char>>, pubs: Seq<Seq<char>>, m: Seq<char>)
    ensures
        keep_public(ms, pubs).contains(m) <==> (ms.contains(m) && pubs.contains(m)),
        keep_public(ms, pubs).len() <= ms.len(),
    decreases ms.len(),
{
    if ms.len() > 0 {
        let init = ms.drop_last();
        lemma_keep_public_members(init, pubs, m);
        let k = keep_public(init, pubs);
        assert(ms =~= init.push(ms.last()));
        if ms.contains(m) {
            let i = choose|i: int| 0 <= i < ms.len() && ms[i] == m;
            if i < ms.len() - 1 {
                assert(init[i] == m);
            }
        }
        if init.contains(m) {
            let i = choose|i: int| 0 <= i < init.len() && init[i] == m;
            assert(ms[i] == m);
        }
        if pubs.contains(ms.last()) {
            let r = k.push(ms.last());
            if k.contains(m) {
                let i = choose|i: int| 0 <= i < k.len() && k[i] == m;
                assert(r[i] == m);
            }
            if r.contains(m) {
                let i = choose|i: int| 0 <= i < r.len() && r[i] == m;
                if i < k.len() {
                    assert(k[i] == m);
                }
            }
            assert(r[k.len() as int] == ms.last());
        }
    }
}

/// The public modules are exactly the root and the modules marked public,
/// one name each, in order.
pub proof fn lemma_public_names_are_the_public_modules(mods: Seq<Module>, i: int)
    requires
        0 <= i <= mods.len(),
    ensures
        public_names(mods, i) == mods.take(i).filter_map(|md: Module|
            if is_public_module(md) { Some(md.name@) } else { None }),
    decreases i,
{
    let f = |md: Module| if is_public_module(md) { Some(md.name@) } else { None };
    if i == 0 {
        assert(mods.take(0) =~= Seq::<Module>::empty());
    } else {
        lemma_public_names_are_the_public_modules(mods, i - 1);
        let t = mods.take(i);
        assert(t.drop_last() =~= mods.take(i - 1));
        assert(t.last() == mods[i - 1]);
        assert(t.filter_map(f) == match f(t.last()) {
            Some(x) => t.drop_last().filter_map(f) + seq![x],
            None => t.drop_last().filter_map(f),
        });
        if is_public_module(mods[i - 1]) {
            assert(t.drop_last().filter_map(f) + seq![mods[i - 1].name@] =~= t.drop_last().filter_map(f).push(mods[i - 1].name@));
        }
    }
}

/// The re-exports of more modules only extend the log: the log of the first
/// `j` modules is a prefix of that of the first `k`, and module `j`'s own
/// re-exports follow it right away.
pub proof fn lemma_reference_log_extends(mods: Seq<Module>, j: int, k: int)
    requires
        0 <= j < k <= mods.len(),
    ensures
        reference_log(mods, j).len() + module_reference_log(mods[j]).len() <= reference_log(mods, k).len(),
        reference_log(mods, k).subrange(0, reference_log(mods, j).len() as int) == reference_log(mods, j),
        reference_log(mods, k).subrange(
            reference_log(mods, j).len() as int,
            (reference_log(mods, j).len() + module_reference_log(mods[j]).len()) as int,
        ) == module_reference_log(mods[j]),
    decreases k - j,
{
    let a = reference_log(mods, j);
    let m = module_reference_log(mods[j]);
    let c = reference_log(mods, k);
    if k == j + 1 {
        assert(c == a + m);
        assert(c.subrange(0, a.len() as int) =~= a);
        assert(c.subrange(a.len() as int, (a.len() + m.len()) as int) =~= m);
    } else {
        lemma_reference_log_extends(mods, j, k - 1);
        let b = reference_log(mods, k - 1);
        assert(c == b + module_reference_log(mods[k - 1]));
        assert(c.subrange(0, a.len() as int) =~= b.subrange(0, a.len() as int));
        assert(c.subrange(a.len() as int, (a.len() + m.len()) as int) =~= b.subrange(a.len() as int, (a.len() + m.len()) as int));
    }
}

/// After a re-export of `path` from `module` resolves, the definition at
/// `path` is visible in exactly the public modules it was visible in before,
/// and in `module`; no other entry changes.
pub proof fn lemma_mark_visible_modules(
    m: Seq<(Seq<char>, ResolvedView)>,
    path: Seq<char>,
    module: Seq<char>,
    pubs: Seq<Seq<char>>,
    x: Seq<char>,
)
    ensures
        mark_visible(m, path, module, pubs).len() == m.len(),
        forall|i: int| 0 <= i < m.len() && i != key_index(m, path) ==> #[trigger] mark_visible(m, path, module, pubs)[i] == m[i],
        0 <= key_index(m, path) < m.len() ==> {
            let i = key_index(m, path);
            let e = mark_visible(m, path, module, pubs)[i];
            &&& e.0 == path
            &&& e.1.0 == m[i].1.0
            &&& (e.1.1.contains(x) <==> ((m[i].1.1.contains(x) && pubs.contains(x)) || x == module))
            &&& e.1.1.last() == module
        },
{
    let i = key_index(m, path);
    if 0 <= i < m.len() {
        let ms = m[i].1.1;
        let k = keep_public(ms, pubs);
        lemma_keep_public_members(ms, pubs, x);
        let r = k.push(module);
        if r.contains(x) {
            let t = choose|t: int| 0 <= t < r.len() && r[t] == x;
            if t < k.len() {
                assert(k[t] == x);
            }
        }
        if k.contains(x) {
            let t = choose|t: int| 0 <= t < k.len() && k[t] == x;
            assert(r[t] == x);
        }
        if x == module {
            assert(r[k.len() as int] == x);
        }
    }
}

/// Whether definition `t` of module `j` is defined at `q`.
pub open spec fn defines_at(mods: Seq<Module>, j: int, t: int, q: Seq<char>) -> bool {
    &&& 0 <= j < mods.len()
    &&& 0 <= t < mods[j].definitions@.len()
    &&& symbol_path(mods[j].definitions@[t].name@, mods[j].name@) == q
}

proof fn lemma_add_definitions_get(
    m: Seq<(Seq<char>, ResolvedView)>,
    module: Seq<char>,
    defs: Seq<Symbol>,
    j: int,
    q: Seq<char>,
)
    requires
        0 <= j <= defs.len(),
    ensures
        (forall|t: int| 0 <= t < j ==> symbol_path(#[trigger] defs[t].name@, module) != q)
            ==> map_get(add_definitions(m, module, defs, j), q) == map_get(m, q),
        forall|t: int| 0 <= t < j && symbol_path(#[trigger] defs[t].name@, module) == q
            && (forall|u: int| t < u < j ==> symbol_path(#[trigger] defs[u].name@, module) != q)
            ==> map_get(add_definitions(m, module, defs, j), q) == Some((defs[t]@, seq![module])),
    decreases j,
{
    if j > 0 {
        lemma_add_definitions_get(m, module, defs, j - 1, q);
        let d = defs[j - 1];
        crate::lookup::lemma_map_insert_get(add_definitions(m, module, defs, j - 1), symbol_path(d.name@, module),
            (d@, seq![module]), q);
        assert forall|t: int| 0 <= t < j && symbol_path(#[trigger] defs[t].name@, module) == q
            && (forall|u: int| t < u < j ==> symbol_path(#[trigger] defs[u].name@, module) != q)
            implies map_get(add_definitions(m, module, defs, j), q) == Some((defs[t]@, seq![module])) by {
            if t < j - 1 {
                assert(symbol_path(defs[j - 1].name@, module) != q);
            }
        }
    }
}

/// Every defined symbol path is in the definitions, holding its latest
/// definition (the last one in module order, then in definition order), and
/// no other path is.
pub proof fn lemma_definitions_map_latest(mods: Seq<Module>, i: int, q: Seq<char>)
    requires
        0 <= i <= mods.len(),
    ensures
        (forall|j: int, t: int| 0 <= j < i ==> !#[trigger] defines_at(mods, j, t, q))
            ==> map_get(definitions_map(mods, i), q) is None,
        forall|j: int, t: int| 0 <= j < i && #[trigger] defines_at(mods, j, t, q)
            && (forall|j2: int, t2: int| j <= j2 < i && #[trigger] defines_at(mods, j2, t2, q) ==> j2 == j && t2 <= t)
            ==> map_get(definitions_map(mods, i), q) == Some((mods[j].definitions@[t]@, seq![mods[j].name@])),
    decreases i,
{
    if i > 0 {
        lemma_definitions_map_latest(mods, i - 1, q);
        let md = mods[i - 1];
        let defs = md.definitions@;
        let prev = definitions_map(mods, i - 1);
        lemma_add_definitions_get(prev, md.name@, defs, defs.len() as int, q);
        if forall|j: int, t: int| 0 <= j < i ==> !#[trigger] defines_at(mods, j, t, q) {
            assert forall|t: int| 0 <= t < defs.len() implies symbol_path(#[trigger] defs[t].name@, md.name@) != q by {
                assert(!defines_at(mods, i - 1, t, q));
            }
            assert(map_get(prev, q) is None);
        }
        assert forall|j: int, t: int| 0 <= j < i && #[trigger] defines_at(mods, j, t, q)
            && (forall|j2: int, t2: int| j <= j2 < i && #[trigger] defines_at(mods, j2, t2, q) ==> j2 == j && t2 <= t)
            implies map_get(definitions_map(mods, i), q) == Some((mods[j].definitions@[t]@, seq![mods[j].name@])) by {
            if j == i - 1 {
                assert forall|u: int| t < u < defs.len() implies symbol_path(#[trigger] defs[u].name@, md.name@) != q by {
                    if symbol_path(defs[u].name@, md.name@) == q {
                        assert(defines_at(mods, i - 1, u, q));
                    }
                }
            } else {
                assert forall|u: int| 0 <= u < defs.len() implies symbol_path(#[trigger] defs[u].name@, md.name@) != q by {
                    if symbol_path(defs[u].name@, md.name@) == q {
                        assert(defines_at(mods, i - 1, u, q));
                    }
                }
                assert forall|j2: int, t2: int| j <= j2 < i - 1 && #[trigger] defines_at(mods, j2, t2, q)
                    implies j2 == j && t2 <= t by {
                    assert(j <= j2 < i);
                }
            }
        }
    }
}

} // verus!
