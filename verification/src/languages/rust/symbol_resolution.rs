//! Resolution of re-exported names to the symbols they refer to.

use vstd::prelude::*;
use crate::error::LaibraryError;
use crate::languages::rust::symbol_collection::RawNamespace;
use crate::lookup::{
    contains_str, count_unvisited, find_last, lemma_count_visit, lemma_lookup_at, lemma_lookup_none, lookup_last,
};
use crate::strings::{split_on_str, split_str, views};
use crate::types::Symbol;

verus! {

/// A symbol and the module path, as its segments, it is visible at.
#[derive(Debug, Clone)]
pub struct ResolvedSymbol {
    pub symbol: Symbol,
    pub modules: Vec<String>,
}

/// A resolved symbol as plain values.
pub type ResolvedView = ((Seq<char>, Seq<char>), Seq<Seq<char>>);

impl ResolvedSymbol {
    pub open spec fn view(self) -> ResolvedView {
        (self.symbol@, views(self.modules@))
    }
}

/// The views of a sequence of resolved symbols.
pub open spec fn resolved_views(v: Seq<ResolvedSymbol>) -> Seq<ResolvedView> {
    v.map_values(|r: ResolvedSymbol| r@)
}

/// A name qualified by the namespace it is found in.
pub open spec fn qualified(ns: Seq<char>, name: Seq<char>) -> Seq<char> {
    if ns.len() == 0 {
        name
    } else {
        ns + "::"@ + name
    }
}

/// The definitions of a namespace, each under its qualified name.
pub open spec fn definitions_log(ns: RawNamespace) -> Seq<(Seq<char>, (Seq<char>, Seq<char>))> {
    ns.definitions@.map_values(|d: Symbol| (qualified(ns.name@, d.name@), d@))
}

/// The re-exports of a namespace, each under its qualified name.
pub open spec fn references_log(ns: RawNamespace) -> Seq<(Seq<char>, Seq<char>)> {
    ns.references@.map_values(|r: (String, String)| (qualified(ns.name@, r.0@), r.1@))
}

/// All definitions, namespace by namespace.
pub open spec fn symbol_log(raws: Seq<RawNamespace>) -> Seq<(Seq<char>, (Seq<char>, Seq<char>))>
    decreases raws.len(),
{
    if raws.len() == 0 {
        Seq::empty()
    } else {
        symbol_log(raws.drop_last()) + definitions_log(raws.last())
    }
}

/// All re-exports, namespace by namespace.
pub open spec fn reference_log(raws: Seq<RawNamespace>) -> Seq<(Seq<char>, Seq<char>)>
    decreases raws.len(),
{
    if raws.len() == 0 {
        Seq::empty()
    } else {
        reference_log(raws.drop_last()) + references_log(raws.last())
    }
}

/// The message for a re-export chain that returns to a path it passed.
pub open spec fn circular_message(path: Seq<char>) -> Seq<char> {
    "Circular reference detected while resolving '"@ + path + "'"@
}

/// The message for a path that is neither defined nor re-exported.
pub open spec fn unresolved_message(path: Seq<char>) -> Seq<char> {
    "Could not resolve symbol reference '"@ + path + "'"@
}

/// Follows re-exports from `path` until a definition: the symbol defined at
/// the end of the chain, or the error met on the way.
pub open spec fn resolve_path(
    path: Seq<char>,
    refs: Seq<(Seq<char>, Seq<char>)>,
    syms: Seq<(Seq<char>, (Seq<char>, Seq<char>))>,
    visited: Seq<Seq<char>>,
) -> Result<(Seq<char>, Seq<char>), Seq<char>>
    decreases count_unvisited(refs, visited),
{
    if visited.contains(path) {
        Err(circular_message(path))
    } else {
        match lookup_last(syms, path) {
            Some(s) => Ok(s),
            None => match lookup_last(refs, path) {
                Some(next) => {
                    proof {
                        lemma_count_visit(refs, visited, path);
                    }
                    resolve_path(next, refs, syms, visited.push(path))
                },
                None => Err(unresolved_message(path)),
            },
        }
    }
}

/// The module path segments of a namespace name.
pub open spec fn module_segments(name: Seq<char>) -> Seq<Seq<char>> {
    if name.len() == 0 {
        Seq::empty()
    } else {
        split_str(name, "::"@)
    }
}

/// Whether a namespace's symbols are collected: the root always, another one
/// when some namespace of the same name is public.
pub open spec fn is_collected(raws: Seq<RawNamespace>, name: Seq<char>) -> bool {
    name.len() == 0 || exists|j: int| 0 <= j < raws.len() && raws[j].name@ == name && raws[j].is_public
}

/// The symbols the first `k` re-exports of `ns` resolve to.
pub open spec fn resolved_references(
    ns: RawNamespace,
    k: int,
    refs: Seq<(Seq<char>, Seq<char>)>,
    syms: Seq<(Seq<char>, (Seq<char>, Seq<char>))>,
) -> Result<Seq<ResolvedView>, Seq<char>>
    decreases k,
{
    if k <= 0 || k > ns.references@.len() {
        Ok(Seq::empty())
    } else {
        match resolved_references(ns, k - 1, refs, syms) {
            Err(e) => Err(e),
            Ok(acc) => {
                let r = ns.references@[k - 1];
                match resolve_path(r.1@, refs, syms, Seq::empty()) {
                    Ok(s) => Ok(acc.push(((r.0@, s.1), module_segments(ns.name@)))),
                    Err(e) => Err(e),
                }
            },
        }
    }
}

/// The symbols a namespace contributes: its definitions, then its resolved re-exports.
pub open spec fn namespace_result(
    ns: RawNamespace,
    refs: Seq<(Seq<char>, Seq<char>)>,
    syms: Seq<(Seq<char>, (Seq<char>, Seq<char>))>,
) -> Result<Seq<ResolvedView>, Seq<char>> {
    let defs = ns.definitions@.map_values(|d: Symbol| (d@, module_segments(ns.name@)));
    match resolved_references(ns, ns.references@.len() as int, refs, syms) {
        Ok(more) => Ok(defs + more),
        Err(e) => Err(e),
    }
}

/// The symbols of the first `i` namespaces that are collected.
pub open spec fn resolution_of(raws: Seq<RawNamespace>, i: int) -> Result<Seq<ResolvedView>, Seq<char>>
    decreases i,
{
    if i <= 0 || i > raws.len() {
        Ok(Seq::empty())
    } else {
        match resolution_of(raws, i - 1) {
            Err(e) => Err(e),
            Ok(acc) => if !is_collected(raws, raws[i - 1].name@) {
                Ok(acc)
            } else {
                match namespace_result(raws[i - 1], reference_log(raws), symbol_log(raws)) {
                    Ok(more) => Ok(acc + more),
                    Err(e) => Err(e),
                }
            },
        }
    }
}

} // verus!

verus! {

/// The views of an executable re-export log.
pub open spec fn ref_entries(log: Seq<(String, String)>) -> Seq<(Seq<char>, Seq<char>)> {
    log.map_values(|e: (String, String)| (e.0@, e.1@))
}

/// The views of an executable definition log.
pub open spec fn sym_entries(log: Seq<(String, Symbol)>) -> Seq<(Seq<char>, (Seq<char>, Seq<char>))> {
    log.map_values(|e: (String, Symbol)| (e.0@, e.1@))
}

fn quote_message(prefix: &str, path: &str) -> (m: String)
    ensures
        m@ == prefix@ + path@ + "'"@,
{
    let mut m = String::from_str(prefix);
    m.append(path);
    m.append("'");
    m
}

fn resolve_reference(
    path: &str,
    refs: &Vec<(String, String)>,
    syms: &Vec<(String, Symbol)>,
    visited: &mut Vec<String>,
) -> (r: Result<Symbol, LaibraryError>)
    ensures
        match resolve_path(path@, ref_entries(refs@), sym_entries(syms@), views(old(visited)@)) {
            Ok(s) => r matches Ok(x) && x@ == s,
            Err(e) => r matches Err(LaibraryError::Parse(m)) && m@ == e,
        },
    decreases count_unvisited(ref_entries(refs@), views(old(visited)@)),
{
    let ghost rl = ref_entries(refs@);
    let ghost sl = sym_entries(syms@);
    let ghost vis = views(visited@);
    if contains_str(visited, path) {
        return Err(LaibraryError::Parse(quote_message("Circular reference detected while resolving '", path)));
    }
    visited.push(String::from_str(path));
    assert(views(visited@) =~= vis.push(path@));
    match find_last(syms, path) {
        Some(i) => {
            proof { lemma_lookup_at(sl, path@, i as int); }
            Ok(syms[i].1.duplicate())
        },
        None => {
            proof { lemma_lookup_none(sl, path@); }
            match find_last(refs, path) {
                Some(i) => {
                    proof {
                        lemma_lookup_at(rl, path@, i as int);
                        lemma_count_visit(rl, vis, path@);
                    }
                    resolve_reference(refs[i].1.as_str(), refs, syms, visited)
                },
                None => {
                    proof { lemma_lookup_none(rl, path@); }
                    Err(LaibraryError::Parse(quote_message("Could not resolve symbol reference '", path)))
                },
            }
        },
    }
}

} // verus!

verus! {

/// A name qualified by the namespace it is found in.
fn qualify(ns: &String, name: &String) -> (q: String)
    ensures
        q@ == qualified(ns@, name@),
{
    if ns.as_str().is_empty() {
        name.clone()
    } else {
        let mut q = ns.clone();
        q.append("::");
        q.append(name.as_str());
        q
    }
}

/// The module path segments of a namespace name.
fn segments_of(name: &String) -> (r: Vec<String>)
    ensures
        views(r@) == module_segments(name@),
{
    if name.as_str().is_empty() {
        Vec::new()
    } else {
        proof { reveal_strlit("::"); }
        split_on_str(name.as_str(), "::")
    }
}

fn collected(raws: &[RawNamespace], name: &String) -> (b: bool)
    ensures
        b == is_collected(raws@, name@),
{
    if name.as_str().is_empty() {
        return true;
    }
    let mut j: usize = 0;
    while j < raws.len()
        invariant
            j <= raws@.len(),
            name@.len() > 0,
            forall|t: int| 0 <= t < j ==> !(raws@[t].name@ == name@ && raws@[t].is_public),
        decreases raws@.len() - j,
    {
        if raws[j].is_public && raws[j].name == *name {
            return true;
        }
        j = j + 1;
    }
    false
}

proof fn lemma_logs_step(raws: Seq<RawNamespace>, i: int)
    requires
        0 <= i < raws.len(),
    ensures
        symbol_log(raws.subrange(0, i + 1)) == symbol_log(raws.subrange(0, i)) + definitions_log(raws[i]),
        reference_log(raws.subrange(0, i + 1)) == reference_log(raws.subrange(0, i)) + references_log(raws[i]),
{
    assert(raws.subrange(0, i + 1).drop_last() =~= raws.subrange(0, i));
}

proof fn lemma_references_err(ns: RawNamespace, refs: Seq<(Seq<char>, Seq<char>)>, syms: Seq<(Seq<char>, (Seq<char>, Seq<char>))>, k: int, n: int)
    requires
        0 <= k <= n <= ns.references@.len(),
        resolved_references(ns, k, refs, syms) is Err,
    ensures
        resolved_references(ns, n, refs, syms) == resolved_references(ns, k, refs, syms),
    decreases n - k,
{
    if k < n {
        lemma_references_err(ns, refs, syms, k, n - 1);
    }
}

proof fn lemma_resolution_err(raws: Seq<RawNamespace>, i: int, n: int)
    requires
        0 <= i <= n <= raws.len(),
        resolution_of(raws, i) is Err,
    ensures
        resolution_of(raws, n) == resolution_of(raws, i),
    decreases n - i,
{
    if i < n {
        lemma_resolution_err(raws, i, n - 1);
    }
}

/// Resolves each collected namespace's re-exports to the symbols they name.
///
/// The root namespace and the namespaces that share a name with a public one
/// are collected, in order: first their definitions, then their re-exports,
/// each re-export as the symbol found at the end of its chain under the
/// re-exported name, all with the namespace's path segments. The first
/// re-export that cannot be resolved, or whose chain returns to itself, makes
/// the result an error.
pub fn resolve_symbols(raw_namespaces: &[RawNamespace]) -> (r: Result<Vec<ResolvedSymbol>, LaibraryError>)
    ensures
        match resolution_of(raw_namespaces@, raw_namespaces@.len() as int) {
            Ok(v) => r matches Ok(x) && resolved_views(x@) == v,
            Err(e) => r matches Err(LaibraryError::Parse(m)) && m@ == e,
        },
{
    let ghost raws = raw_namespaces@;
    let mut syms: Vec<(String, Symbol)> = Vec::new();
    let mut refs: Vec<(String, String)> = Vec::new();
    let mut i: usize = 0;
    assert(raws.subrange(0, 0) =~= Seq::<RawNamespace>::empty());
    assert(sym_entries(syms@) =~= symbol_log(raws.subrange(0, 0)));
    assert(ref_entries(refs@) =~= reference_log(raws.subrange(0, 0)));
    while i < raw_namespaces.len()
        invariant
            raws == raw_namespaces@,
            i <= raws.len(),
            sym_entries(syms@) == symbol_log(raws.subrange(0, i as int)),
            ref_entries(refs@) == reference_log(raws.subrange(0, i as int)),
        decreases raws.len() - i,
    {
        let namespace = &raw_namespaces[i];
        let ghost sym_base = sym_entries(syms@);
        let ghost ref_base = ref_entries(refs@);
        let mut j: usize = 0;
        while j < namespace.definitions.len()
            invariant
                i < raws.len(),
                *namespace == raws[i as int],
                j <= namespace.definitions@.len(),
                sym_entries(syms@) == sym_base + definitions_log(*namespace).subrange(0, j as int),
            decreases namespace.definitions@.len() - j,
        {
            let ghost before = sym_entries(syms@);
            let symbol = &namespace.definitions[j];
            syms.push((qualify(&namespace.name, &symbol.name), symbol.duplicate()));
            assert(sym_entries(syms@) =~= before.push(definitions_log(*namespace)[j as int]));
            assert(definitions_log(*namespace).subrange(0, j + 1) =~= definitions_log(*namespace).subrange(0, j as int).push(definitions_log(*namespace)[j as int]));
            j = j + 1;
        }
        let mut k: usize = 0;
        while k < namespace.references.len()
            invariant
                i < raws.len(),
                *namespace == raws[i as int],
                k <= namespace.references@.len(),
                ref_entries(refs@) == ref_base + references_log(*namespace).subrange(0, k as int),
            decreases namespace.references@.len() - k,
        {
            let ghost before = ref_entries(refs@);
            let reference = &namespace.references[k];
            refs.push((qualify(&namespace.name, &reference.0), reference.1.clone()));
            assert(ref_entries(refs@) =~= before.push(references_log(*namespace)[k as int]));
            assert(references_log(*namespace).subrange(0, k + 1) =~= references_log(*namespace).subrange(0, k as int).push(references_log(*namespace)[k as int]));
            k = k + 1;
        }
        proof {
            lemma_logs_step(raws, i as int);
            assert(definitions_log(*namespace).subrange(0, namespace.definitions@.len() as int) =~= definitions_log(*namespace));
            assert(references_log(*namespace).subrange(0, namespace.references@.len() as int) =~= references_log(*namespace));
        }
        i = i + 1;
    }
    assert(raws.subrange(0, raws.len() as int) =~= raws);
    let ghost rl = reference_log(raws);
    let ghost sl = symbol_log(raws);

    let mut resolved: Vec<ResolvedSymbol> = Vec::new();
    let mut i: usize = 0;
    assert(resolved_views(resolved@) =~= Seq::<ResolvedView>::empty());
    while i < raw_namespaces.len()
        invariant
            raws == raw_namespaces@,
            i <= raws.len(),
            rl == ref_entries(refs@),
            sl == sym_entries(syms@),
            rl == reference_log(raws),
            sl == symbol_log(raws),
            resolution_of(raws, i as int) == Ok::<_, Seq<char>>(resolved_views(resolved@)),
        decreases raws.len() - i,
    {
        let namespace = &raw_namespaces[i];
        if collected(raw_namespaces, &namespace.name) {
            let ghost base = resolved_views(resolved@);
            let modules = segments_of(&namespace.name);
            let ghost defs = namespace.definitions@.map_values(|d: Symbol| (d@, module_segments(namespace.name@)));
            let mut j: usize = 0;
            while j < namespace.definitions.len()
                invariant
                    i < raws.len(),
                *namespace == raws[i as int],
                    views(modules@) == module_segments(namespace.name@),
                    defs == namespace.definitions@.map_values(|d: Symbol| (d@, module_segments(namespace.name@))),
                    j <= namespace.definitions@.len(),
                    resolved_views(resolved@) == base + defs.subrange(0, j as int),
                decreases namespace.definitions@.len() - j,
            {
                let ghost before = resolved_views(resolved@);
                resolved.push(ResolvedSymbol { symbol: namespace.definitions[j].duplicate(), modules: crate::strings::clone_strings(&modules) });
                assert(resolved_views(resolved@) =~= before.push(defs[j as int]));
                assert(defs.subrange(0, j + 1) =~= defs.subrange(0, j as int).push(defs[j as int]));
                j = j + 1;
            }
            assert(defs.subrange(0, defs.len() as int) =~= defs);
            let ghost with_defs = resolved_views(resolved@);
            let mut k: usize = 0;
            assert(resolved_references(*namespace, 0, rl, sl) == Ok::<_, Seq<char>>(Seq::<ResolvedView>::empty()));
            assert(with_defs =~= base + defs + Seq::<ResolvedView>::empty());
            while k < namespace.references.len()
                invariant
                    i < raws.len(),
                *namespace == raws[i as int],
                    rl == ref_entries(refs@),
                    sl == sym_entries(syms@),
                    rl == reference_log(raws),
                    sl == symbol_log(raws),
                    views(modules@) == module_segments(namespace.name@),
                    k <= namespace.references@.len(),
                    raws == raw_namespaces@,
                    resolution_of(raws, i as int) == Ok::<_, Seq<char>>(base),
                    is_collected(raws, namespace.name@),
                    resolved_references(*namespace, k as int, rl, sl) matches Ok(acc)
                        && resolved_views(resolved@) == base + defs + acc,
                decreases namespace.references@.len() - k,
            {
                let reference = &namespace.references[k];
                let mut visited: Vec<String> = Vec::new();
                assert(views(visited@) =~= Seq::<Seq<char>>::empty());
                match resolve_reference(reference.1.as_str(), &refs, &syms, &mut visited) {
                    Ok(symbol) => {
                        let ghost before = resolved_views(resolved@);
                        resolved.push(ResolvedSymbol {
                            symbol: Symbol { name: reference.0.clone(), source_code: symbol.source_code },
                            modules: crate::strings::clone_strings(&modules),
                        });
                        proof {
                            let acc = resolved_references(*namespace, k as int, rl, sl)->Ok_0;
                            let item = ((reference.0@, symbol@.1), module_segments(namespace.name@));
                            assert(resolved_views(resolved@) =~= before.push(item));
                            assert(resolved_views(resolved@) =~= base + defs + acc.push(item));
                        }
                    },
                    Err(e) => {
                        proof {
                            assert(resolved_references(*namespace, k + 1, rl, sl) is Err);
                            lemma_references_err(*namespace, rl, sl, k + 1, namespace.references@.len() as int);
                            assert(namespace_result(*namespace, rl, sl) is Err);
                            assert(raws[i as int] == *namespace);
                            assert(is_collected(raws, raws[i as int].name@));
                            assert(namespace_result(raws[i as int], reference_log(raws), symbol_log(raws)) is Err);
                            assert(resolution_of(raws, (i + 1) as int) is Err);
                            lemma_resolution_err(raws, i + 1, raws.len() as int);
                            let pe = resolve_path(reference.1@, rl, sl, Seq::empty())->Err_0;
                            assert(resolved_references(*namespace, k + 1, rl, sl) == Err::<Seq<ResolvedView>, Seq<char>>(pe));
                            assert(namespace_result(*namespace, rl, sl) == Err::<Seq<ResolvedView>, Seq<char>>(pe));
                            assert(resolution_of(raws, (i + 1) as int) == Err::<Seq<ResolvedView>, Seq<char>>(pe));
                        }
                        return Err(e);
                    },
                }
                k = k + 1;
            }
            proof {
                let acc = resolved_references(*namespace, namespace.references@.len() as int, rl, sl)->Ok_0;
                assert(raws.subrange(0, i as int) =~= raws.subrange(0, i as int));
                assert(base + defs + acc =~= base + (defs + acc));
            }
        }
        i = i + 1;
    }
    Ok(resolved)
}

} // verus!

verus! {

/// Following re-exports only ever ends at a definition: whenever `path`
/// resolves, the symbol it resolves to is one of the definitions.
pub proof fn lemma_resolves_to_definition(
    path: Seq<char>,
    refs: Seq<(Seq<char>, Seq<char>)>,
    syms: Seq<(Seq<char>, (Seq<char>, Seq<char>))>,
    visited: Seq<Seq<char>>,
)
    ensures
        resolve_path(path, refs, syms, visited) matches Ok(s) ==> exists|k: int| 0 <= k < syms.len() && syms[k].1 == s,
    decreases count_unvisited(refs, visited),
{
    if !visited.contains(path) {
        match lookup_last(syms, path) {
            Some(s) => {
                lemma_lookup_last_member(syms, path);
            },
            None => match lookup_last(refs, path) {
                Some(next) => {
                    lemma_count_visit(refs, visited, path);
                    lemma_resolves_to_definition(next, refs, syms, visited.push(path));
                },
                None => {},
            },
        }
    }
}

/// The value `lookup_last` finds is the value of an entry.
proof fn lemma_lookup_last_member<V>(log: Seq<(Seq<char>, V)>, k: Seq<char>)
    ensures
        lookup_last(log, k) matches Some(v) ==> exists|i: int| 0 <= i < log.len() && log[i].1 == v,
    decreases log.len(),
{
    if log.len() > 0 && log.last().0 != k {
        lemma_lookup_last_member(log.drop_last(), k);
        if let Some(v) = lookup_last(log.drop_last(), k) {
            let i = choose|i: int| 0 <= i < log.drop_last().len() && log.drop_last()[i].1 == v;
            assert(log[i].1 == v);
        }
    } else if log.len() > 0 {
        assert(log[log.len() - 1].1 == log.last().1);
    }
}

/// A path that is re-exported as itself and not defined is reported as a
/// circular reference.
pub proof fn lemma_self_reexport_is_circular(
    path: Seq<char>,
    refs: Seq<(Seq<char>, Seq<char>)>,
    syms: Seq<(Seq<char>, (Seq<char>, Seq<char>))>,
)
    requires
        lookup_last(syms, path) is None,
        lookup_last(refs, path) == Some(path),
    ensures
        resolve_path(path, refs, syms, Seq::empty()) == Err::<(Seq<char>, Seq<char>), Seq<char>>(circular_message(path)),
{
    let v = Seq::<Seq<char>>::empty();
    assert(!v.contains(path));
    assert(v.push(path)[0] == path);
    assert(v.push(path).contains(path));
    assert(resolve_path(path, refs, syms, v.push(path)) == Err::<(Seq<char>, Seq<char>), Seq<char>>(circular_message(path)));
}

/// Each definition of namespace `j` is in the definition log.
proof fn lemma_definition_logged(raws: Seq<RawNamespace>, j: int, d: int)
    requires
        0 <= j < raws.len(),
        0 <= d < raws[j].definitions@.len(),
    ensures
        exists|k: int| 0 <= k < symbol_log(raws).len() && symbol_log(raws)[k].1 == raws[j].definitions@[d]@,
    decreases raws.len(),
{
    let front = symbol_log(raws.drop_last());
    let last = definitions_log(raws.last());
    assert(symbol_log(raws) == front + last);
    if j == raws.len() - 1 {
        let k = front.len() + d;
        assert(symbol_log(raws)[k] == last[d]);
    } else {
        lemma_definition_logged(raws.drop_last(), j, d);
        let k = choose|k: int| 0 <= k < front.len() && front[k].1 == raws.drop_last()[j].definitions@[d]@;
        assert(symbol_log(raws)[k] == front[k]);
    }
}

/// The symbols the first `k` re-exports of a namespace resolve to carry the
/// source codes of definitions.
proof fn lemma_references_defined(
    ns: RawNamespace,
    k: int,
    refs: Seq<(Seq<char>, Seq<char>)>,
    syms: Seq<(Seq<char>, (Seq<char>, Seq<char>))>,
)
    ensures
        resolved_references(ns, k, refs, syms) matches Ok(v) ==> forall|t: int| 0 <= t < v.len()
            ==> exists|x: int| 0 <= x < syms.len() && (#[trigger] v[t]).0.1 == syms[x].1.1,
    decreases k,
{
    if 0 < k <= ns.references@.len() {
        lemma_references_defined(ns, k - 1, refs, syms);
        let r = ns.references@[k - 1];
        lemma_resolves_to_definition(r.1@, refs, syms, Seq::empty());
        if let Ok(acc) = resolved_references(ns, k - 1, refs, syms) {
            if let Ok(s) = resolve_path(r.1@, refs, syms, Seq::empty()) {
                let v = acc.push(((r.0@, s.1), module_segments(ns.name@)));
                assert forall|t: int| 0 <= t < v.len() implies exists|x: int| 0 <= x < syms.len()
                    && (#[trigger] v[t]).0.1 == syms[x].1.1 by {
                    if t < acc.len() {
                        assert(v[t] == acc[t]);
                    } else {
                        let x = choose|x: int| 0 <= x < syms.len() && syms[x].1 == s;
                        assert(v[t].0.1 == syms[x].1.1);
                    }
                }
            }
        }
    }
}

/// The symbols namespace `j` contributes carry the source codes of definitions.
proof fn lemma_namespace_result_defined(raws: Seq<RawNamespace>, j: int)
    requires
        0 <= j < raws.len(),
    ensures
        namespace_result(raws[j], reference_log(raws), symbol_log(raws)) matches Ok(v) ==> forall|t: int| 0 <= t < v.len()
            ==> exists|k: int| 0 <= k < symbol_log(raws).len() && (#[trigger] v[t]).0.1 == symbol_log(raws)[k].1.1,
{
    let ns = raws[j];
    let defs = ns.definitions@.map_values(|d: Symbol| (d@, module_segments(ns.name@)));
    lemma_references_defined(ns, ns.references@.len() as int, reference_log(raws), symbol_log(raws));
    if let Ok(more) = resolved_references(ns, ns.references@.len() as int, reference_log(raws), symbol_log(raws)) {
        let v = defs + more;
        assert forall|t: int| 0 <= t < v.len() implies exists|k: int| 0 <= k < symbol_log(raws).len()
            && (#[trigger] v[t]).0.1 == symbol_log(raws)[k].1.1 by {
            if t < defs.len() {
                lemma_definition_logged(raws, j, t);
                assert(v[t] == defs[t]);
            } else {
                assert(v[t] == more[t - defs.len()]);
            }
        }
    }
}

/// Every symbol the resolution yields carries the source code of one of the
/// definitions of the namespaces: re-exports never make up code.
pub proof fn lemma_resolution_sources_are_defined(raws: Seq<RawNamespace>, i: int)
    ensures
        resolution_of(raws, i) matches Ok(v) ==> forall|t: int| 0 <= t < v.len()
            ==> exists|k: int| 0 <= k < symbol_log(raws).len() && (#[trigger] v[t]).0.1 == symbol_log(raws)[k].1.1,
    decreases i,
{
    if 0 < i <= raws.len() {
        lemma_resolution_sources_are_defined(raws, i - 1);
        if let Ok(acc) = resolution_of(raws, i - 1) {
            if is_collected(raws, raws[i - 1].name@) {
                lemma_namespace_result_defined(raws, i - 1);
                if let Ok(more) = namespace_result(raws[i - 1], reference_log(raws), symbol_log(raws)) {
                    let v = acc + more;
                    assert forall|t: int| 0 <= t < v.len() implies exists|k: int| 0 <= k < symbol_log(raws).len()
                        && (#[trigger] v[t]).0.1 == symbol_log(raws)[k].1.1 by {
                        if t < acc.len() {
                            assert(v[t] == acc[t]);
                        } else {
                            assert(v[t] == more[t - acc.len()]);
                        }
                    }
                }
            }
        }
    }
}

} // verus!

verus! {

/// The symbol a re-export of `ns` contributes when its path resolves: the
/// re-exported name with the source code of the definition the path leads to.
pub open spec fn resolved_reference(
    ns: RawNamespace,
    r: (String, String),
    refs: Seq<(Seq<char>, Seq<char>)>,
    syms: Seq<(Seq<char>, (Seq<char>, Seq<char>))>,
) -> ResolvedView {
    ((r.0@, resolve_path(r.1@, refs, syms, Seq::empty())->Ok_0.1), module_segments(ns.name@))
}

/// What a namespace contributes when all its re-exports resolve: its
/// definitions, then its re-exports, each at the namespace's module path.
pub open spec fn namespace_symbols(
    ns: RawNamespace,
    refs: Seq<(Seq<char>, Seq<char>)>,
    syms: Seq<(Seq<char>, (Seq<char>, Seq<char>))>,
) -> Seq<ResolvedView> {
    ns.definitions@.map_values(|d: Symbol| (d@, module_segments(ns.name@)))
        + ns.references@.map_values(|r: (String, String)| resolved_reference(ns, r, refs, syms))
}

/// The contributions of the collected namespaces among the first `i`,
/// concatenated in order.
pub open spec fn collected_symbols(raws: Seq<RawNamespace>, i: int) -> Seq<ResolvedView>
    decreases i,
{
    if i <= 0 || i > raws.len() {
        Seq::empty()
    } else {
        collected_symbols(raws, i - 1) + if is_collected(raws, raws[i - 1].name@) {
            namespace_symbols(raws[i - 1], reference_log(raws), symbol_log(raws))
        } else {
            Seq::<ResolvedView>::empty()
        }
    }
}

/// Whether re-export `k` of namespace `i` is collected and fails to resolve:
/// its walk reaches a path neither defined nor re-exported, or a path it
/// passed before.
pub open spec fn reference_fails(raws: Seq<RawNamespace>, i: int, k: int) -> bool {
    &&& 0 <= i < raws.len()
    &&& 0 <= k < raws[i].references@.len()
    &&& is_collected(raws, raws[i].name@)
    &&& resolve_path(raws[i].references@[k].1@, reference_log(raws), symbol_log(raws), Seq::empty()) is Err
}

proof fn lemma_resolved_references_law(
    ns: RawNamespace,
    k: int,
    refs: Seq<(Seq<char>, Seq<char>)>,
    syms: Seq<(Seq<char>, (Seq<char>, Seq<char>))>,
)
    requires
        0 <= k <= ns.references@.len(),
    ensures
        resolved_references(ns, k, refs, syms) is Err <==> exists|t: int| 0 <= t < k
            && (#[trigger] resolve_path(ns.references@[t].1@, refs, syms, Seq::empty())) is Err,
        resolved_references(ns, k, refs, syms) matches Ok(acc) ==> acc
            == ns.references@.subrange(0, k).map_values(|r: (String, String)| resolved_reference(ns, r, refs, syms)),
    decreases k,
{
    if k > 0 {
        lemma_resolved_references_law(ns, k - 1, refs, syms);
        let r = ns.references@[k - 1];
        if let Ok(acc) = resolved_references(ns, k - 1, refs, syms) {
            assert(ns.references@.subrange(0, k).map_values(|r: (String, String)| resolved_reference(ns, r, refs, syms))
                =~= ns.references@.subrange(0, k - 1).map_values(|r: (String, String)| resolved_reference(ns, r, refs, syms))
                    .push(resolved_reference(ns, r, refs, syms)));
        } else {
            let t = choose|t: int| 0 <= t < k - 1
                && (#[trigger] resolve_path(ns.references@[t].1@, refs, syms, Seq::empty())) is Err;
            assert(0 <= t < k);
        }
    } else {
        assert(ns.references@.subrange(0, 0).map_values(|r: (String, String)| resolved_reference(ns, r, refs, syms))
            =~= Seq::<ResolvedView>::empty());
    }
}

proof fn lemma_resolution_law(raws: Seq<RawNamespace>, i: int)
    requires
        0 <= i <= raws.len(),
    ensures
        resolution_of(raws, i) is Err <==> exists|j: int, k: int| 0 <= j < i && #[trigger] reference_fails(raws, j, k),
        resolution_of(raws, i) matches Ok(v) ==> v == collected_symbols(raws, i),
    decreases i,
{
    if i > 0 {
        lemma_resolution_law(raws, i - 1);
        let ns = raws[i - 1];
        let refs = reference_log(raws);
        let syms = symbol_log(raws);
        let n = ns.references@.len() as int;
        lemma_resolved_references_law(ns, n, refs, syms);
        assert(ns.references@.subrange(0, n) =~= ns.references@);
        if exists|j: int, k: int| 0 <= j < i - 1 && #[trigger] reference_fails(raws, j, k) {
            let (j, k) = choose|j: int, k: int| 0 <= j < i - 1 && #[trigger] reference_fails(raws, j, k);
            assert(0 <= j < i && reference_fails(raws, j, k));
        } else if is_collected(raws, ns.name@) && resolved_references(ns, n, refs, syms) is Err {
            let t = choose|t: int| 0 <= t < n
                && (#[trigger] resolve_path(ns.references@[t].1@, refs, syms, Seq::empty())) is Err;
            assert(reference_fails(raws, i - 1, t));
        } else {
            assert forall|j: int, k: int| 0 <= j < i && #[trigger] reference_fails(raws, j, k) implies false by {
                if j == i - 1 {
                    assert(resolve_path(ns.references@[k].1@, refs, syms, Seq::empty()) is Err);
                }
            }
        }
    }
}

/// `resolve_symbols` fails exactly when the walk of some re-export of a
/// collected namespace reaches a path that is neither defined nor re-exported,
/// or returns to a path it passed; otherwise its result is each collected
/// namespace's definitions and resolved re-exports, namespace by namespace.
pub proof fn lemma_resolution_characterised(raws: Seq<RawNamespace>)
    ensures
        resolution_of(raws, raws.len() as int) is Err <==> exists|j: int, k: int| #[trigger] reference_fails(raws, j, k),
        resolution_of(raws, raws.len() as int) matches Ok(v) ==> v == collected_symbols(raws, raws.len() as int),
{
    lemma_resolution_law(raws, raws.len() as int);
}

/// The definitions of more namespaces only extend the log: the log of the
/// first `j` namespaces is a prefix of the whole log, and namespace `j`'s
/// definitions follow it right away.
pub proof fn lemma_symbol_log_extends(raws: Seq<RawNamespace>, j: int)
    requires
        0 <= j < raws.len(),
    ensures
        symbol_log(raws.take(j)).len() + definitions_log(raws[j]).len() <= symbol_log(raws).len(),
        symbol_log(raws).subrange(0, symbol_log(raws.take(j)).len() as int) == symbol_log(raws.take(j)),
        symbol_log(raws).subrange(symbol_log(raws.take(j)).len() as int,
            (symbol_log(raws.take(j)).len() + definitions_log(raws[j]).len()) as int) == definitions_log(raws[j]),
    decreases raws.len(),
{
    let a = symbol_log(raws.take(j));
    let m = definitions_log(raws[j]);
    let c = symbol_log(raws);
    let init = raws.drop_last();
    if j == raws.len() - 1 {
        assert(raws.take(j) =~= init);
        assert(c == a + m);
        assert(c.subrange(0, a.len() as int) =~= a);
        assert(c.subrange(a.len() as int, (a.len() + m.len()) as int) =~= m);
    } else {
        lemma_symbol_log_extends(init, j);
        assert(init.take(j) =~= raws.take(j));
        assert(init[j] == raws[j]);
        let b = symbol_log(init);
        assert(c == b + definitions_log(raws.last()));
        assert(c.subrange(0, a.len() as int) =~= b.subrange(0, a.len() as int));
        assert(c.subrange(a.len() as int, (a.len() + m.len()) as int) =~= b.subrange(a.len() as int, (a.len() + m.len()) as int));
    }
}

/// The re-exports of more namespaces only extend the log: the log of the
/// first `j` namespaces is a prefix of the whole log, and namespace `j`'s
/// re-exports follow it right away.
pub proof fn lemma_reference_log_extends(raws: Seq<RawNamespace>, j: int)
    requires
        0 <= j < raws.len(),
    ensures
        reference_log(raws.take(j)).len() + references_log(raws[j]).len() <= reference_log(raws).len(),
        reference_log(raws).subrange(0, reference_log(raws.take(j)).len() as int) == reference_log(raws.take(j)),
        reference_log(raws).subrange(reference_log(raws.take(j)).len() as int,
            (reference_log(raws.take(j)).len() + references_log(raws[j]).len()) as int) == references_log(raws[j]),
    decreases raws.len(),
{
    let a = reference_log(raws.take(j));
    let m = references_log(raws[j]);
    let c = reference_log(raws);
    let init = raws.drop_last();
    if j == raws.len() - 1 {
        assert(raws.take(j) =~= init);
        assert(c == a + m);
        assert(c.subrange(0, a.len() as int) =~= a);
        assert(c.subrange(a.len() as int, (a.len() + m.len()) as int) =~= m);
    } else {
        lemma_reference_log_extends(init, j);
        assert(init.take(j) =~= raws.take(j));
        assert(init[j] == raws[j]);
        let b = reference_log(init);
        assert(c == b + references_log(raws.last()));
        assert(c.subrange(0, a.len() as int) =~= b.subrange(0, a.len() as int));
        assert(c.subrange(a.len() as int, (a.len() + m.len()) as int) =~= b.subrange(a.len() as int, (a.len() + m.len()) as int));
    }
}

/// The symbols of more namespaces only extend the collection: those of the
/// first `j` namespaces are a prefix of those of the first `k`, and a
/// collected namespace `j` contributes all its symbols right after them.
pub proof fn lemma_collected_symbols_extends(raws: Seq<RawNamespace>, j: int, k: int)
    requires
        0 <= j < k <= raws.len(),
    ensures
        ({
            let a = collected_symbols(raws, j);
            let c = collected_symbols(raws, k);
            let m = if is_collected(raws, raws[j].name@) {
                namespace_symbols(raws[j], reference_log(raws), symbol_log(raws))
            } else {
                Seq::<ResolvedView>::empty()
            };
            &&& a.len() + m.len() <= c.len()
            &&& c.subrange(0, a.len() as int) == a
            &&& c.subrange(a.len() as int, (a.len() + m.len()) as int) == m
        }),
    decreases k - j,
{
    let a = collected_symbols(raws, j);
    let c = collected_symbols(raws, k);
    let m = if is_collected(raws, raws[j].name@) {
        namespace_symbols(raws[j], reference_log(raws), symbol_log(raws))
    } else {
        Seq::<ResolvedView>::empty()
    };
    if k == j + 1 {
        assert(c == a + m);
        assert(c.subrange(0, a.len() as int) =~= a);
        assert(c.subrange(a.len() as int, (a.len() + m.len()) as int) =~= m);
    } else {
        lemma_collected_symbols_extends(raws, j, k - 1);
        let b = collected_symbols(raws, k - 1);
        assert(c.subrange(0, a.len() as int) =~= b.subrange(0, a.len() as int));
        assert(c.subrange(a.len() as int, (a.len() + m.len()) as int) =~= b.subrange(a.len() as int, (a.len() + m.len()) as int));
    }
}

} // verus!
