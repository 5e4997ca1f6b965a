# laibrary

laibrary gives AI coding assistants the public API and documentation of a
library: it reads a Rust crate's `Cargo.toml`, `README.md` and source files and
renders one document with the crate's name, version, documentation and public
items, namespace by namespace.

The library under `src/` is verified with Verus. Its functions work on what
was read from disk (texts, listings and read errors as plain values), so every
step from the source text to the rendered document carries a contract. What
tree-sitter and `toml` compute stays theirs: the contracts speak of the syntax
trees and TOML values they give. The Rust parse of a text is named in `ts`
(the kind, range, children and fields of each node, by its path from the
root), and a parser set to the Rust grammar yields the copy of that parse, so
the items read from a file are those of its Rust parse.

- `syntax` copies tree-sitter's parse into a plain syntax tree whose byte
  ranges are checked against the text; `ts` holds the calls into tree-sitter.
- `languages::rust::api` parses files into items, follows module declarations
  from the entry point, resolves re-exports and groups the symbols into
  namespaces; `formatting` renders them.
- `languages::rust::metadata` reads the package name, version and entry point
  from the manifest through the `toml` crate; the contracts tie them to the
  values `toml` reads from the manifest text.
- `parser`, `analysers` and `languages::rust::{extraction, impl_extractor,
  parsing, public_api, symbol_collection, symbol_resolution}` are the other
  extraction pipelines the crate offers.
- `text` is a text formatter: uppercase, lowercase and capitalised words,
  letter by letter on ASCII text and through std's Unicode case mappings
  otherwise.

`app/` is the command-line front end: it reads the crate from disk, calls the
library and prints the document.
