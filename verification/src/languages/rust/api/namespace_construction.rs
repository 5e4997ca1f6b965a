//! Grouping of resolved symbols into the crate's namespaces.

use vstd::prelude::*;
use crate::languages::rust::api::symbol_resolution::{ResolvedView, SymbolResolution, resolved_views};
use crate::lookup::{key_index, key_index_from, lemma_key_index_range, lemma_key_index_same};
use crate::types::{clone_symbols, Namespace, Symbol};

verus! {

/// A namespace under construction: its symbols and doc comment, keyed by name.
pub type Entry = (Seq<char>, (Seq<(Seq<char>, Seq<char>)>, Option<Seq<char>>));

/// The doc comment recorded for a module path.
pub open spec fn doc_for(docs: Seq<(Seq<char>, Seq<char>)>, k: Seq<char>) -> Option<Seq<char>> {
    let i = key_index(docs, k);
    if 0 <= i < docs.len() {
        Some(docs[i].1)
    } else {
        None
    }
}

/// The namespace name of a module path within the crate.
pub open spec fn namespace_name(crate_name: Seq<char>, module: Seq<char>) -> Seq<char> {
    if module.len() == 0 {
        crate_name
    } else {
        crate_name + "::"@ + module
    }
}

/// Adds `sym` to the namespace of `module`, creating that namespace (with the
/// module's doc comment) when it does not exist yet.
pub open spec fn place(
    m: Seq<Entry>,
    crate_name: Seq<char>,
    docs: Seq<(Seq<char>, Seq<char>)>,
    sym: (Seq<char>, Seq<char>),
    module: Seq<char>,
) -> Seq<Entry> {
    let name = namespace_name(crate_name, module);
    let i = key_index(m, name);
    if 0 <= i < m.len() {
        m.update(i, (name, (m[i].1.0.push(sym), m[i].1.1)))
    } else {
        m.push((name, (seq![sym], doc_for(docs, module))))
    }
}

/// Places a resolved symbol in the namespaces of its first `j` modules.
pub open spec fn place_in_modules(
    m: Seq<Entry>,
    crate_name: Seq<char>,
    docs: Seq<(Seq<char>, Seq<char>)>,
    rs: ResolvedView,
    j: int,
) -> Seq<Entry>
    decreases j,
{
    if j <= 0 || j > rs.1.len() {
        m
    } else {
        place(place_in_modules(m, crate_name, docs, rs, j - 1), crate_name, docs, rs.0, rs.1[j - 1])
    }
}

/// The namespaces after the first `i` resolved symbols are placed, starting
/// from the crate's root namespace.
pub open spec fn construction(
    syms: Seq<ResolvedView>,
    crate_name: Seq<char>,
    docs: Seq<(Seq<char>, Seq<char>)>,
    i: int,
) -> Seq<Entry>
    decreases i,
{
    if i <= 0 || i > syms.len() {
        seq![(crate_name, (Seq::empty(), doc_for(docs, Seq::empty())))]
    } else {
        place_in_modules(construction(syms, crate_name, docs, i - 1), crate_name, docs, syms[i - 1], syms[i - 1].1.len() as int)
    }
}

/// An entry as a namespace view.
pub open spec fn entry_namespace(e: Entry) -> (Seq<char>, Seq<(Seq<char>, Seq<char>)>, Option<Seq<char>>) {
    (e.0, e.1.0, e.1.1)
}

/// The views of a sequence of namespaces.
pub open spec fn namespace_views(v: Seq<Namespace>) -> Seq<(Seq<char>, Seq<(Seq<char>, Seq<char>)>, Option<Seq<char>>)> {
    v.map_values(|n: Namespace| n@)
}

fn namespace_position(m: &Vec<Namespace>, k: &String) -> (r: Option<usize>)
    ensures
        match r {
            Some(i) => i < m@.len() && i == key_index(namespace_views(m@).map_values(|e: (Seq<char>, Seq<(Seq<char>, Seq<char>)>, Option<Seq<char>>)| (e.0, (e.1, e.2))), k@),
            None => key_index(namespace_views(m@).map_values(|e: (Seq<char>, Seq<(Seq<char>, Seq<char>)>, Option<Seq<char>>)| (e.0, (e.1, e.2))), k@) == -1,
        },
{
    let ghost entries = namespace_views(m@).map_values(|e: (Seq<char>, Seq<(Seq<char>, Seq<char>)>, Option<Seq<char>>)| (e.0, (e.1, e.2)));
    let mut i: usize = 0;
    while i < m.len()
        invariant
            i <= m@.len(),
            entries == namespace_views(m@).map_values(|e: (Seq<char>, Seq<(Seq<char>, Seq<char>)>, Option<Seq<char>>)| (e.0, (e.1, e.2))),
            key_index(entries, k@) == crate::lookup::key_index_from(entries, k@, i as int),
        decreases m@.len() - i,
    {
        if m[i].name == *k {
            return Some(i);
        }
        i = i + 1;
    }
    None
}

} // verus!

verus! {

/// The namespaces as entries keyed by name.
pub open spec fn entries_of(v: Seq<Namespace>) -> Seq<Entry> {
    namespace_views(v).map_values(|e: (Seq<char>, Seq<(Seq<char>, Seq<char>)>, Option<Seq<char>>)| (e.0, (e.1, e.2)))
}

fn doc_comment_for(docs: &crate::lookup::StringMap, module: &str) -> (r: Option<String>)
    ensures
        crate::paths::opt_view(r) == doc_for(docs@, module@),
{
    match docs.get(module) {
        Some(d) => {
            proof { lemma_key_index_range(docs@, module@, 0); }
            Some(d.clone())
        },
        None => None,
    }
}

fn place_symbol(namespaces: &mut Vec<Namespace>, crate_name: &str, docs: &crate::lookup::StringMap, symbol: &Symbol, module: &String)
    ensures
        entries_of(final(namespaces)@) == place(entries_of(old(namespaces)@), crate_name@, docs@, symbol@, module@),
{
    let ghost before = entries_of(namespaces@);
    let name = if module.as_str().is_empty() {
        String::from_str(crate_name)
    } else {
        let mut n = String::from_str(crate_name);
        n.append("::");
        n.append(module.as_str());
        n
    };
    assert(name@ == namespace_name(crate_name@, module@));
    match namespace_position(namespaces, &name) {
        Some(idx) => {
            proof { lemma_key_index_range(before, name@, 0); }
            let mut symbols = clone_symbols(&namespaces[idx].symbols);
            let ghost old_syms = symbols@;
            symbols.push(symbol.duplicate());
            assert(symbols@.map_values(|s: Symbol| s@) =~= old_syms.map_values(|s: Symbol| s@).push(symbol@));
            assert(before[idx as int].1.0 == old_syms.map_values(|s: Symbol| s@));
            let doc_comment = match &namespaces[idx].doc_comment {
                Some(d) => Some(d.clone()),
                None => None,
            };
            let updated = Namespace { name, symbols, doc_comment };
            namespaces.set(idx, updated);
            assert(entries_of(namespaces@) =~= before.update(idx as int, (name@, (before[idx as int].1.0.push(symbol@), before[idx as int].1.1))));
        },
        None => {
            let doc_comment = doc_comment_for(docs, module.as_str());
            let symbols = vec![symbol.duplicate()];
            assert(symbols@.map_values(|s: Symbol| s@) =~= seq![symbol@]);
            namespaces.push(Namespace { name, symbols, doc_comment });
            assert(entries_of(namespaces@) =~= before.push((name@, (seq![symbol@], doc_for(docs@, module@)))));
        },
    }
}

/// Groups the resolved symbols into namespaces named after the crate and
/// their module paths: the root namespace (named `crate_name`) comes first,
/// then each namespace in the order its first symbol is met; each holds its
/// symbols in order and the doc comment of its module.
pub fn construct_namespaces(symbol_resolution: SymbolResolution, crate_name: &str) -> (r: Vec<Namespace>)
    ensures
        namespace_views(r@) == construction(
            resolved_views(symbol_resolution.symbols@),
            crate_name@,
            symbol_resolution.doc_comments@,
            symbol_resolution.symbols@.len() as int,
        ).map_values(|e: Entry| entry_namespace(e)),
{
    let ghost syms = resolved_views(symbol_resolution.symbols@);
    let docs = &symbol_resolution.doc_comments;
    let ghost dv = docs@;
    let root_doc = doc_comment_for(docs, "");
    proof { reveal_strlit(""); }
    assert(""@ =~= Seq::<char>::empty());
    let mut namespaces: Vec<Namespace> = Vec::new();
    let root_symbols: Vec<Symbol> = Vec::new();
    assert(root_symbols@.map_values(|s: Symbol| s@) =~= Seq::<(Seq<char>, Seq<char>)>::empty());
    namespaces.push(Namespace { name: String::from_str(crate_name), symbols: root_symbols, doc_comment: root_doc });
    assert(entries_of(namespaces@) =~= construction(syms, crate_name@, dv, 0));
    let n = symbol_resolution.symbols.len();
    let mut i: usize = 0;
    while i < n
        invariant
            n == symbol_resolution.symbols@.len(),
            syms == resolved_views(symbol_resolution.symbols@),
            dv == docs@,
            *docs == symbol_resolution.doc_comments,
            i <= n,
            entries_of(namespaces@) == construction(syms, crate_name@, dv, i as int),
        decreases n - i,
    {
        let resolved = &symbol_resolution.symbols[i];
        let ghost base = entries_of(namespaces@);
        let mut j: usize = 0;
        while j < resolved.modules.len()
            invariant
                i < n,
                n == symbol_resolution.symbols@.len(),
                syms == resolved_views(symbol_resolution.symbols@),
                *resolved == symbol_resolution.symbols@[i as int],
                dv == docs@,
                j <= resolved.modules@.len(),
                entries_of(namespaces@) == place_in_modules(base, crate_name@, dv, syms[i as int], j as int),
            decreases resolved.modules@.len() - j,
        {
            place_symbol(&mut namespaces, crate_name, docs, &resolved.symbol, &resolved.modules[j]);
            j = j + 1;
        }
        i = i + 1;
    }
    let ghost fin = entries_of(namespaces@);
    assert(namespace_views(namespaces@) =~= fin.map_values(|e: Entry| entry_namespace(e)));
    namespaces
}

} // verus!

verus! {

/// No two entries share a name.
pub open spec fn distinct_names(m: Seq<Entry>) -> bool {
    forall|i: int, j: int| 0 <= i < j < m.len() ==> m[i].0 != m[j].0
}

/// Some entry named `name` holds `sym`.
pub open spec fn holds_symbol(m: Seq<Entry>, name: Seq<char>, sym: (Seq<char>, Seq<char>)) -> bool {
    exists|i: int| 0 <= i < m.len() && m[i].0 == name && m[i].1.0.contains(sym)
}

proof fn lemma_place_keeps(
    m: Seq<Entry>,
    crate_name: Seq<char>,
    docs: Seq<(Seq<char>, Seq<char>)>,
    sym: (Seq<char>, Seq<char>),
    module: Seq<char>,
)
    ensures
        distinct_names(m) ==> distinct_names(place(m, crate_name, docs, sym, module)),
        m.len() > 0 ==> place(m, crate_name, docs, sym, module).len() > 0
            && place(m, crate_name, docs, sym, module)[0].0 == m[0].0,
        holds_symbol(place(m, crate_name, docs, sym, module), namespace_name(crate_name, module), sym),
        forall|name: Seq<char>, s: (Seq<char>, Seq<char>)| holds_symbol(m, name, s)
            ==> #[trigger] holds_symbol(place(m, crate_name, docs, sym, module), name, s),
{
    let name = namespace_name(crate_name, module);
    let i = key_index(m, name);
    lemma_key_index_range(m, name, 0);
    let p = place(m, crate_name, docs, sym, module);
    if 0 <= i < m.len() {
        assert(p[i].1.0 == m[i].1.0.push(sym));
        assert(p[i].1.0[m[i].1.0.len() as int] == sym);
        assert forall|nm: Seq<char>, s: (Seq<char>, Seq<char>)| holds_symbol(m, nm, s) implies #[trigger] holds_symbol(p, nm, s) by {
            let t = choose|t: int| 0 <= t < m.len() && m[t].0 == nm && m[t].1.0.contains(s);
            let u = choose|u: int| 0 <= u < m[t].1.0.len() && m[t].1.0[u] == s;
            if t == i {
                assert(p[t].1.0[u] == s);
            } else {
                assert(p[t] == m[t]);
            }
        }
    } else {
        assert(p[m.len() as int].1.0[0] == sym);
        assert forall|nm: Seq<char>, s: (Seq<char>, Seq<char>)| holds_symbol(m, nm, s) implies #[trigger] holds_symbol(p, nm, s) by {
            let t = choose|t: int| 0 <= t < m.len() && m[t].0 == nm && m[t].1.0.contains(s);
            assert(p[t] == m[t]);
        }
    }
}

proof fn lemma_place_in_modules_keeps(
    m: Seq<Entry>,
    crate_name: Seq<char>,
    docs: Seq<(Seq<char>, Seq<char>)>,
    rs: ResolvedView,
    j: int,
)
    ensures
        distinct_names(m) ==> distinct_names(place_in_modules(m, crate_name, docs, rs, j)),
        m.len() > 0 ==> place_in_modules(m, crate_name, docs, rs, j).len() > 0
            && place_in_modules(m, crate_name, docs, rs, j)[0].0 == m[0].0,
        j <= rs.1.len() ==> forall|t: int| 0 <= t < j ==> holds_symbol(place_in_modules(m, crate_name, docs, rs, j),
            namespace_name(crate_name, #[trigger] rs.1[t]), rs.0),
        forall|name: Seq<char>, s: (Seq<char>, Seq<char>)| holds_symbol(m, name, s)
            ==> #[trigger] holds_symbol(place_in_modules(m, crate_name, docs, rs, j), name, s),
    decreases j,
{
    if 0 < j <= rs.1.len() {
        let before = place_in_modules(m, crate_name, docs, rs, j - 1);
        lemma_place_in_modules_keeps(m, crate_name, docs, rs, j - 1);
        lemma_place_keeps(before, crate_name, docs, rs.0, rs.1[j - 1]);
    }
}

/// The namespaces a construction yields have distinct names, and the first
/// is the crate's root namespace.
pub proof fn lemma_construction_names(
    syms: Seq<ResolvedView>,
    crate_name: Seq<char>,
    docs: Seq<(Seq<char>, Seq<char>)>,
    i: int,
)
    ensures
        distinct_names(construction(syms, crate_name, docs, i)),
        construction(syms, crate_name, docs, i).len() > 0,
        construction(syms, crate_name, docs, i)[0].0 == crate_name,
    decreases i,
{
    if 0 < i <= syms.len() {
        lemma_construction_names(syms, crate_name, docs, i - 1);
        lemma_place_in_modules_keeps(construction(syms, crate_name, docs, i - 1), crate_name, docs, syms[i - 1],
            syms[i - 1].1.len() as int);
    }
}

/// Every resolved symbol is in the namespace of each of its modules.
pub proof fn lemma_construction_places_every_symbol(
    syms: Seq<ResolvedView>,
    crate_name: Seq<char>,
    docs: Seq<(Seq<char>, Seq<char>)>,
    i: int,
)
    requires
        0 <= i <= syms.len(),
    ensures
        forall|t: int, j: int| 0 <= t < i && 0 <= j < syms[t].1.len() ==> holds_symbol(
            construction(syms, crate_name, docs, i),
            namespace_name(crate_name, #[trigger] syms[t].1[j]),
            syms[t].0,
        ),
    decreases i,
{
    if i > 0 {
        lemma_construction_places_every_symbol(syms, crate_name, docs, i - 1);
        let before = construction(syms, crate_name, docs, i - 1);
        lemma_place_in_modules_keeps(before, crate_name, docs, syms[i - 1], syms[i - 1].1.len() as int);
    }
}

/// Every entry carries the doc comment recorded for a module path it is the
/// namespace of.
pub open spec fn docs_follow_modules(m: Seq<Entry>, crate_name: Seq<char>, docs: Seq<(Seq<char>, Seq<char>)>) -> bool {
    forall|i: int| 0 <= i < m.len() ==> exists|module: Seq<char>|
        #[trigger] namespace_name(crate_name, module) == (#[trigger] m[i]).0 && m[i].1.1 == doc_for(docs, module)
}

proof fn lemma_place_in_modules_docs(
    m: Seq<Entry>,
    crate_name: Seq<char>,
    docs: Seq<(Seq<char>, Seq<char>)>,
    rs: ResolvedView,
    j: int,
)
    requires
        docs_follow_modules(m, crate_name, docs),
    ensures
        docs_follow_modules(place_in_modules(m, crate_name, docs, rs, j), crate_name, docs),
    decreases j,
{
    if 0 < j <= rs.1.len() {
        lemma_place_in_modules_docs(m, crate_name, docs, rs, j - 1);
        let before = place_in_modules(m, crate_name, docs, rs, j - 1);
        let module = rs.1[j - 1];
        let name = namespace_name(crate_name, module);
        let k = key_index(before, name);
        lemma_key_index_range(before, name, 0);
        let after = place(before, crate_name, docs, rs.0, module);
        assert forall|i: int| 0 <= i < after.len() implies exists|md: Seq<char>|
            #[trigger] namespace_name(crate_name, md) == (#[trigger] after[i]).0 && after[i].1.1 == doc_for(docs, md) by {
            if 0 <= k < before.len() {
                assert(before[i].0 == after[i].0 && before[i].1.1 == after[i].1.1);
            } else if i < before.len() {
                assert(after[i] == before[i]);
            } else {
                assert(namespace_name(crate_name, module) == after[i].0);
            }
        }
    }
}

/// Each namespace a construction yields carries the doc comment recorded for
/// the module path it is the namespace of; the crate's root namespace stands
/// for the empty module path.
pub proof fn lemma_construction_docs(
    syms: Seq<ResolvedView>,
    crate_name: Seq<char>,
    docs: Seq<(Seq<char>, Seq<char>)>,
    i: int,
)
    ensures
        docs_follow_modules(construction(syms, crate_name, docs, i), crate_name, docs),
    decreases i,
{
    if 0 < i <= syms.len() {
        lemma_construction_docs(syms, crate_name, docs, i - 1);
        lemma_place_in_modules_docs(construction(syms, crate_name, docs, i - 1), crate_name, docs, syms[i - 1],
            syms[i - 1].1.len() as int);
    } else {
        let m = construction(syms, crate_name, docs, i);
        assert(namespace_name(crate_name, Seq::empty()) == m[0].0);
    }
}

/// Distinct module paths name distinct namespaces.
pub proof fn lemma_namespace_name_injective(crate_name: Seq<char>, a: Seq<char>, b: Seq<char>)
    ensures
        namespace_name(crate_name, a) == namespace_name(crate_name, b) ==> a == b,
{
    reveal_strlit("::");
    if namespace_name(crate_name, a) == namespace_name(crate_name, b) {
        if a.len() > 0 && b.len() > 0 {
            let x = crate_name + "::"@;
            assert((x + a).subrange(x.len() as int, (x + a).len() as int) =~= a);
            assert((x + b).subrange(x.len() as int, (x + b).len() as int) =~= b);
            assert(crate_name + "::"@ + a == x + a);
            assert(crate_name + "::"@ + b == x + b);
        } else if a.len() > 0 {
            assert((crate_name + "::"@ + a).len() > crate_name.len());
        } else if b.len() > 0 {
            assert((crate_name + "::"@ + b).len() > crate_name.len());
        }
    }
}

/// The symbol of `rs` once for each of its first `j` module paths whose
/// namespace is `name`.
pub open spec fn occurrences(rs: ResolvedView, crate_name: Seq<char>, name: Seq<char>, j: int) -> Seq<(Seq<char>, Seq<char>)>
    decreases j,
{
    if j <= 0 || j > rs.1.len() {
        Seq::empty()
    } else {
        occurrences(rs, crate_name, name, j - 1)
            + if namespace_name(crate_name, rs.1[j - 1]) == name { seq![rs.0] } else { Seq::empty() }
    }
}

/// The symbols of the namespace `name`: the symbols of the first `i` resolved
/// symbols in order, each once for each of its module paths named `name`.
pub open spec fn namespace_members(syms: Seq<ResolvedView>, crate_name: Seq<char>, name: Seq<char>, i: int) -> Seq<(Seq<char>, Seq<char>)>
    decreases i,
{
    if i <= 0 || i > syms.len() {
        Seq::empty()
    } else {
        namespace_members(syms, crate_name, name, i - 1) + occurrences(syms[i - 1], crate_name, name, syms[i - 1].1.len() as int)
    }
}

/// Whether the entries hold `expected` as the symbols of the namespace `name`:
/// an entry of that name holds exactly them, and exists exactly when it is the
/// crate's root or they are not empty.
pub open spec fn holds_members(m: Seq<Entry>, crate_name: Seq<char>, name: Seq<char>, expected: Seq<(Seq<char>, Seq<char>)>) -> bool {
    let k = key_index(m, name);
    if 0 <= k < m.len() {
        m[k].1.0 == expected && (name == crate_name || expected.len() > 0)
    } else {
        name != crate_name && expected.len() == 0
    }
}

proof fn lemma_place_members(
    m: Seq<Entry>,
    crate_name: Seq<char>,
    docs: Seq<(Seq<char>, Seq<char>)>,
    sym: (Seq<char>, Seq<char>),
    module: Seq<char>,
    name: Seq<char>,
    expected: Seq<(Seq<char>, Seq<char>)>,
)
    requires
        holds_members(m, crate_name, name, expected),
    ensures
        holds_members(place(m, crate_name, docs, sym, module), crate_name, name,
            expected + if namespace_name(crate_name, module) == name { seq![sym] } else { Seq::empty() }),
{
    let target = namespace_name(crate_name, module);
    let i = key_index(m, target);
    lemma_key_index_range(m, target, 0);
    lemma_key_index_range(m, name, 0);
    let after = place(m, crate_name, docs, sym, module);
    if 0 <= i < m.len() {
        assert forall|t: int| 0 <= t < after.len() implies after[t].0 == m[t].0 by {}
        lemma_key_index_same(after, m, name, 0);
        if target == name {
            assert(after[i].1.0 == m[i].1.0.push(sym));
            assert(expected.push(sym) =~= expected + seq![sym]);
        } else {
            let k = key_index(m, name);
            assert(expected + Seq::<(Seq<char>, Seq<char>)>::empty() =~= expected);
            if 0 <= k < m.len() {
                assert(after[k] == m[k]);
            }
        }
    } else {
        crate::lookup::lemma_key_index_push(m, (target, (seq![sym], doc_for(docs, module))), name, 0);
        let k = key_index(m, name);
        if target == name {
            assert(expected + seq![sym] =~= seq![sym]);
            assert(after[m.len() as int].1.0 == seq![sym]);
        } else {
            assert(expected + Seq::<(Seq<char>, Seq<char>)>::empty() =~= expected);
            if 0 <= k < m.len() {
                assert(after[k] == m[k]);
            }
        }
    }
}

proof fn lemma_place_in_modules_members(
    m: Seq<Entry>,
    crate_name: Seq<char>,
    docs: Seq<(Seq<char>, Seq<char>)>,
    rs: ResolvedView,
    j: int,
    name: Seq<char>,
    expected: Seq<(Seq<char>, Seq<char>)>,
)
    requires
        holds_members(m, crate_name, name, expected),
        0 <= j <= rs.1.len(),
    ensures
        holds_members(place_in_modules(m, crate_name, docs, rs, j), crate_name, name,
            expected + occurrences(rs, crate_name, name, j)),
    decreases j,
{
    if j == 0 {
        assert(expected + occurrences(rs, crate_name, name, 0) =~= expected);
    } else {
        lemma_place_in_modules_members(m, crate_name, docs, rs, j - 1, name, expected);
        let before = place_in_modules(m, crate_name, docs, rs, j - 1);
        lemma_place_members(before, crate_name, docs, rs.0, rs.1[j - 1], name, expected + occurrences(rs, crate_name, name, j - 1));
        let extra = if namespace_name(crate_name, rs.1[j - 1]) == name { seq![rs.0] } else { Seq::<(Seq<char>, Seq<char>)>::empty() };
        assert(expected + occurrences(rs, crate_name, name, j - 1) + extra
            =~= expected + occurrences(rs, crate_name, name, j));
    }
}

/// A construction yields one namespace per name that is the crate's root or
/// the namespace of some module path of a resolved symbol, and the namespace
/// named `name` holds the resolved symbols placed there, in order, each once
/// for each of its module paths that names it.
pub proof fn lemma_construction_members(
    syms: Seq<ResolvedView>,
    crate_name: Seq<char>,
    docs: Seq<(Seq<char>, Seq<char>)>,
    i: int,
    name: Seq<char>,
)
    requires
        0 <= i <= syms.len(),
    ensures
        holds_members(construction(syms, crate_name, docs, i), crate_name, name,
            namespace_members(syms, crate_name, name, i)),
    decreases i,
{
    if i == 0 {
        let m = construction(syms, crate_name, docs, 0);
        lemma_key_index_range(m, name, 0);
        if name != crate_name {
            assert(key_index_from(m, name, 1) == -1);
        }
    } else {
        lemma_construction_members(syms, crate_name, docs, i - 1, name);
        lemma_place_in_modules_members(construction(syms, crate_name, docs, i - 1), crate_name, docs, syms[i - 1],
            syms[i - 1].1.len() as int, name, namespace_members(syms, crate_name, name, i - 1));
    }
}

} // verus!
