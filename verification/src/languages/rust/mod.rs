//! Analysis of Rust crates.

pub mod analyser;
pub mod api;
pub mod extraction;
pub mod formatting;
pub mod impl_extractor;
pub mod impl_generator;
pub mod metadata;
pub mod parsing;
pub mod public_api;
pub mod public_members;
pub mod symbol_collection;
pub mod symbol_resolution;
pub mod types;

use vstd::prelude::*;
use crate::strings::views;
use crate::types::{ApiRepresentation, Module};
use public_members::{member_text, RustPublicMember};

pub use analyser::RustAnalyser;

verus! {

/// The public members of a Rust API, module by module, in the order the
/// modules were first met; no module path occurs twice.
#[derive(Debug, Clone, PartialEq)]
pub struct RustApi {
    pub modules: Vec<(String, Vec<RustPublicMember>)>,
}

/// The texts of a list of members.
pub open spec fn member_texts(ms: Seq<RustPublicMember>) -> Seq<Seq<char>> {
    ms.map_values(|m: RustPublicMember| member_text(m))
}

impl RustApi {
    /// Each module path with the texts of its members.
    pub open spec fn view(self) -> Seq<(Seq<char>, Seq<Seq<char>>)> {
        self.modules@.map_values(|e: (String, Vec<RustPublicMember>)| (e.0@, member_texts(e.1@)))
    }
}

/// The texts of a list of members, in order.
pub(crate) fn render_members(ms: &Vec<RustPublicMember>) -> (r: Vec<String>)
    ensures
        views(r@) == member_texts(ms@),
{
    let ghost all = member_texts(ms@);
    let mut r: Vec<String> = Vec::new();
    let mut i: usize = 0;
    while i < ms.len()
        invariant
            i <= ms@.len(),
            all == member_texts(ms@),
            views(r@) == all.subrange(0, i as int),
        decreases ms@.len() - i,
    {
        let ghost before = views(r@);
        let t = ms[i].to_string();
        r.push(t);
        assert(views(r@) =~= before.push(t@));
        assert(all.subrange(0, i + 1) =~= all.subrange(0, i as int).push(all[i as int]));
        i = i + 1;
    }
    assert(all.subrange(0, all.len() as int) =~= all);
    r
}

impl ApiRepresentation for RustApi {
    /// Each module with the texts of its public members, in the API's order.
    fn modules(&self) -> (r: Vec<Module>)
        ensures
            r@.map_values(|m: Module| (m.name@, views(m.public_members@))) == self.view(),
    {
        let ghost all = self.view();
        let mut r: Vec<Module> = Vec::new();
        let mut i: usize = 0;
        while i < self.modules.len()
            invariant
                i <= self.modules@.len(),
                all == self.view(),
                r@.map_values(|m: Module| (m.name@, views(m.public_members@))) == all.subrange(0, i as int),
            decreases self.modules@.len() - i,
        {
            let ghost before = r@.map_values(|m: Module| (m.name@, views(m.public_members@)));
            let (name, members) = &self.modules[i];
            let m = Module { name: name.clone(), public_members: render_members(members) };
            r.push(m);
            assert(r@.map_values(|m: Module| (m.name@, views(m.public_members@)))
                =~= before.push((m.name@, views(m.public_members@))));
            assert(all.subrange(0, i + 1) =~= all.subrange(0, i as int).push(all[i as int]));
            i = i + 1;
        }
        assert(all.subrange(0, all.len() as int) =~= all);
        r
    }
}

} // verus!
