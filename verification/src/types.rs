//! The namespaces and symbols that make up an extracted public API.

use vstd::prelude::*;
use crate::strings::str_eq;

verus! {

/// A public item: its name and the source code that presents it.
#[derive(Debug, Clone, PartialEq)]
pub struct Symbol {
    pub name: String,
    pub source_code: String,
}

/// A module path and the public symbols found in it.
#[derive(Debug)]
pub struct Namespace {
    pub name: String,
    pub symbols: Vec<Symbol>,
    pub doc_comment: Option<String>,
}

impl Symbol {
    /// The symbol as plain values: name and source code.
    pub open spec fn view(self) -> (Seq<char>, Seq<char>) {
        (self.name@, self.source_code@)
    }

    /// A field-by-field copy.
    pub fn duplicate(&self) -> (r: Symbol)
        ensures
            r == *self,
    {
        Symbol { name: self.name.clone(), source_code: self.source_code.clone() }
    }
}

/// The source codes of a sequence of symbols.
pub open spec fn sources(symbols: Seq<Symbol>) -> Seq<Seq<char>> {
    symbols.map_values(|s: Symbol| s.source_code@)
}

/// Whether `i` is the first position in `symbols` of a symbol named `name`.
pub open spec fn first_named(symbols: Seq<Symbol>, name: Seq<char>, i: int) -> bool {
    &&& 0 <= i < symbols.len()
    &&& symbols[i].name@ == name
    &&& forall|j: int| 0 <= j < i ==> symbols[j].name@ != name
}

impl Namespace {
    /// The namespace as plain values: name, symbols and doc comment.
    pub open spec fn view(self) -> (Seq<char>, Seq<(Seq<char>, Seq<char>)>, Option<Seq<char>>) {
        (self.name@, self.symbols@.map_values(|s: Symbol| s@), crate::paths::opt_view(self.doc_comment))
    }

    /// The first symbol of the namespace named `name`, if any.
    pub fn get_symbol(&self, name: &str) -> (found: Option<&Symbol>)
        ensures
            found is None <==> forall|i: int| 0 <= i < self.symbols@.len() ==> self.symbols@[i].name@ != name@,
            found matches Some(s) ==> exists|i: int| first_named(self.symbols@, name@, i) && self.symbols@[i] == *s,
    {
        let mut i: usize = 0;
        while i < self.symbols.len()
            invariant
                i <= self.symbols@.len(),
                forall|j: int| 0 <= j < i ==> self.symbols@[j].name@ != name@,
            decreases self.symbols@.len() - i,
        {
            if str_eq(self.symbols[i].name.as_str(), name) {
                assert(first_named(self.symbols@, name@, i as int));
                return Some(&self.symbols[i]);
            }
            i = i + 1;
        }
        None
    }
}

} // verus!

verus! {

/// Name, version, documentation and entry point of a package, from its manifest.
#[derive(Debug)]
pub struct PackageMetadata {
    pub name: String,
    pub version: String,
    pub documentation: String,
    pub entry_point: String,
}

/// A source file of a crate: its path and its text.
#[derive(Debug)]
pub struct SourceCode {
    pub path: String,
    pub content: String,
}

/// Source files as plain values: path and text.
pub open spec fn code_views(v: Seq<SourceCode>) -> Seq<(Seq<char>, Seq<char>)> {
    v.map_values(|f: SourceCode| (f.path@, f.content@))
}

/// A library's name, version, documentation and rendered API.
#[derive(Debug)]
pub struct LibraryInfo {
    pub name: String,
    pub version: String,
    pub documentation: String,
    pub api: String,
}

/// The source codes of `symbols` joined with `sep`.
pub fn join_sources(symbols: &Vec<Symbol>, sep: &str) -> (r: String)
    ensures
        r@ == crate::strings::join(sources(symbols@), sep@),
{
    let mut r = String::new();
    let mut i: usize = 0;
    while i < symbols.len()
        invariant
            i <= symbols@.len(),
            r@ == crate::strings::join(sources(symbols@.subrange(0, i as int)), sep@),
        decreases symbols@.len() - i,
    {
        if i > 0 {
            r.append(sep);
        }
        r.append(symbols[i].source_code.as_str());
        proof {
            let pre = sources(symbols@.subrange(0, i as int));
            let post = sources(symbols@.subrange(0, i + 1));
            assert(post.drop_last() =~= pre);
            if i == 0 {
                assert(post =~= seq![symbols@[0].source_code@]);
            }
        }
        i = i + 1;
    }
    assert(symbols@.subrange(0, symbols@.len() as int) =~= symbols@);
    r
}

} // verus!

verus! {

/// A copy of a vector of symbols.
pub fn clone_symbols(v: &Vec<Symbol>) -> (r: Vec<Symbol>)
    ensures
        r@ == v@,
{
    let mut r: Vec<Symbol> = Vec::new();
    let mut i: usize = 0;
    while i < v.len()
        invariant
            i <= v@.len(),
            r@ == v@.subrange(0, i as int),
        decreases v@.len() - i,
    {
        r.push(v[i].duplicate());
        assert(r@ =~= v@.subrange(0, i + 1));
        i = i + 1;
    }
    assert(v@.subrange(0, v@.len() as int) =~= v@);
    r
}

} // verus!

verus! {

/// A module of an API and the texts of its public members.
#[derive(Debug)]
pub struct Module {
    pub name: String,
    pub public_members: Vec<String>,
}

/// An API that can be listed module by module.
pub trait ApiRepresentation {
    /// Each module with the texts of its public members.
    fn modules(&self) -> Vec<Module>;
}

} // verus!

verus! {

/// Whether `i` is the first position in `namespaces` of a namespace named `name`.
pub open spec fn first_namespace_named(namespaces: Seq<Namespace>, name: Seq<char>, i: int) -> bool {
    &&& 0 <= i < namespaces.len()
    &&& namespaces[i].name@ == name
    &&& forall|j: int| 0 <= j < i ==> namespaces[j].name@ != name
}

/// The first namespace named `name`, if any.
pub fn get_namespace<'a>(name: &str, namespaces: &'a [Namespace]) -> (found: Option<&'a Namespace>)
    ensures
        found is None <==> forall|i: int| 0 <= i < namespaces@.len() ==> namespaces@[i].name@ != name@,
        found matches Some(n) ==> exists|i: int| first_namespace_named(namespaces@, name@, i) && namespaces@[i] == *n,
{
    let mut i: usize = 0;
    while i < namespaces.len()
        invariant
            i <= namespaces@.len(),
            forall|j: int| 0 <= j < i ==> namespaces@[j].name@ != name@,
        decreases namespaces@.len() - i,
    {
        if str_eq(namespaces[i].name.as_str(), name) {
            assert(first_namespace_named(namespaces@, name@, i as int));
            return Some(&namespaces[i]);
        }
        i = i + 1;
    }
    None
}

} // verus!
