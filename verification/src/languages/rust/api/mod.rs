//! Construction of a Rust crate's public API: collection of symbols,
//! resolution of re-exports and grouping into namespaces.


pub mod namespace_construction;
pub mod parsing;
pub mod symbol_collection;
pub mod symbol_resolution;
pub mod types;
