//! A parsed source file: its tree-sitter tree, a plain copy of that tree and
//! its source text.

use vstd::prelude::*;
use vstd::string::StringSliceAdditionalSpecFns;
use vstd::utf8::{decode_utf8, is_char_boundary};
use crate::error::ExtractionError;
use crate::syntax::{copy_tree, node_text, rust_copy, rust_parse_fits, SourceTree, SyntaxNode};
use crate::ts;
use crate::ts::{is_ascii_alnum, is_name_char, name_end, query_compiles, query_starts_safely};

verus! {

/// A source file parsed without syntax errors, with its parse tree and its text.
pub struct ParsedFile<'a> {
    root_tree: tree_sitter::Tree,
    syntax: SourceTree,
    source_code: &'a str,
}

impl<'a> ParsedFile<'a> {
    /// The bytes of the source text.
    pub closed spec fn source_bytes(&self) -> Seq<u8> {
        self.source_code.spec_bytes()
    }

    /// The source text.
    pub closed spec fn source_text(&self) -> Seq<char> {
        self.source_code@
    }

    /// The tree-sitter parse tree.
    pub closed spec fn tree(&self) -> tree_sitter::Tree {
        self.root_tree
    }

    /// The root of the plain copy of the parse tree.
    pub closed spec fn root(&self) -> SyntaxNode {
        self.syntax.root
    }

    /// The copy spans the text and holds no syntax error.
    #[verifier::type_invariant]
    closed spec fn well_formed(&self) -> bool {
        &&& self.syntax.root.wf(self.source_code.spec_bytes())
        &&& !self.syntax.has_error
    }

    /// Parses source code into a tree-sitter parse tree.
    ///
    /// Fails with "Failed to parse source file" when the parser yields no tree
    /// or a tree with a syntax error. With a parser ready for the Rust grammar,
    /// it succeeds exactly when the Rust parse of the text fits the text and
    /// holds no syntax error, and the copy it keeps is that of the Rust parse.
    pub fn parse(source_code: &'a str, parser: &mut tree_sitter::Parser) -> (r: Result<Self, ExtractionError>)
        ensures
            match r {
                Ok(f) => f.source_text() == source_code@ && f.source_bytes() == source_code.spec_bytes()
                    && f.root().wf(source_code.spec_bytes()),
                Err(e) => e matches ExtractionError::Malformed(m) && m@ == "Failed to parse source file"@,
            },
            ts::parser_plain(*final(parser)) == ts::parser_plain(*old(parser)),
            ts::parser_ready(*final(parser)) == ts::parser_ready(*old(parser)),
            ts::parser_ready(*old(parser)) ==> {
                &&& r is Ok <==> (rust_parse_fits(source_code@) && !ts::rust_has_error(source_code@, Seq::empty()))
                &&& r matches Ok(f) ==> rust_copy(f.root(), source_code@)
            },
    {
        let root_tree = match ts::parse_text(parser, source_code) {
            Some(t) => t,
            None => return Err(ExtractionError::Malformed(String::from_str("Failed to parse source file"))),
        };
        let syntax = match copy_tree(&root_tree, source_code) {
            Some(s) => s,
            None => return Err(ExtractionError::Malformed(String::from_str("Failed to parse source file"))),
        };
        if syntax.has_error {
            return Err(ExtractionError::Malformed(String::from_str("Failed to parse source file")));
        }
        Ok(ParsedFile { root_tree, syntax, source_code })
    }

    /// The root node of the parse tree.
    pub fn root_node(&self) -> (n: &SyntaxNode)
        ensures
            *n == self.root(),
            n.wf(self.source_bytes()),
    {
        proof { use_type_invariant(self); }
        &self.syntax.root
    }

    /// The text a node spans; fails with "Failed to render node" when its
    /// range does not start and end on character boundaries.
    pub fn render_node(&self, node: &SyntaxNode) -> (r: Result<String, ExtractionError>)
        requires
            node.start_byte <= node.end_byte <= self.source_bytes().len(),
        ensures
            match r {
                Ok(t) => is_char_boundary(self.source_bytes(), node.start_byte as int)
                    && is_char_boundary(self.source_bytes(), node.end_byte as int)
                    && t@ == node_text(self.source_bytes(), *node),
                Err(e) => {
                    &&& !(is_char_boundary(self.source_bytes(), node.start_byte as int)
                        && is_char_boundary(self.source_bytes(), node.end_byte as int))
                    &&& e matches ExtractionError::Malformed(m) && m@ == "Failed to render node"@
                },
            },
    {
        if self.source_code.is_char_boundary(node.start_byte) && self.source_code.is_char_boundary(node.end_byte) {
            let slice = crate::strings::byte_slice(self.source_code, node.start_byte, node.end_byte);
            Ok(String::from_str(slice))
        } else {
            Err(ExtractionError::Malformed(String::from_str("Failed to render node")))
        }
    }

    /// The source text between two byte offsets.
    pub fn render(&self, start: usize, end: usize) -> (r: String)
        requires
            start <= end <= self.source_bytes().len(),
            is_char_boundary(self.source_bytes(), start as int),
            is_char_boundary(self.source_bytes(), end as int),
        ensures
            r@ == decode_utf8(self.source_bytes().subrange(start as int, end as int)),
    {
        String::from_str(crate::strings::byte_slice(self.source_code, start, end))
    }

    /// Compiles a tree-sitter query in the language of the parse tree; fails
    /// with "Failed to create query" when tree-sitter refuses it, and before
    /// asking tree-sitter when the text starts with a name that is not a field
    /// of the grammar (or with a character outside ASCII), which tree-sitter
    /// would refuse too.
    pub fn make_query(&self, query: &str) -> (r: Result<tree_sitter::Query, ExtractionError>)
        ensures
            r is Ok == (query_starts_safely(self.tree(), query@) && query_compiles(self.tree(), query@)),
            r matches Err(e) ==> e matches ExtractionError::Malformed(m) && m@ == "Failed to create query"@,
    {
        let chars = crate::strings::to_chars(query);
        if chars.len() > 0 {
            let c = chars[0];
            if c >= '\u{80}' {
                return Err(ExtractionError::Malformed(String::from_str("Failed to create query")));
            }
            if is_ascii_alnum_char(c) || c == '-' {
                let n = name_end_of(&chars);
                if n < chars.len() && chars[n] >= '\u{80}' {
                    return Err(ExtractionError::Malformed(String::from_str("Failed to create query")));
                }
                let name = crate::strings::string_from_chars(&chars, 0, n);
                if !ts::tree_has_field(&self.root_tree, name.as_str()) {
                    return Err(ExtractionError::Malformed(String::from_str("Failed to create query")));
                }
            }
        }
        match ts::new_query(&self.root_tree, query) {
            Ok(q) => Ok(q),
            Err(_) => Err(ExtractionError::Malformed(String::from_str("Failed to create query"))),
        }
    }
}

/// Whether `c` is an ASCII letter or digit.
fn is_ascii_alnum_char(c: char) -> (b: bool)
    ensures
        b == is_ascii_alnum(c),
{
    ('a' <= c && c <= 'z') || ('A' <= c && c <= 'Z') || ('0' <= c && c <= '9')
}

/// The end of the run of name characters at the start of `chars`.
fn name_end_of(chars: &Vec<char>) -> (n: usize)
    ensures
        n == name_end(chars@, 0),
        n <= chars@.len(),
{
    let mut i: usize = 0;
    while i < chars.len() && (is_ascii_alnum_char(chars[i]) || chars[i] == '_' || chars[i] == '-'
        || chars[i] == '.' || chars[i] == '?' || chars[i] == '!')
        invariant
            i <= chars@.len(),
            name_end(chars@, 0) == name_end(chars@, i as int),
        decreases chars@.len() - i,
    {
        i = i + 1;
    }
    i
}

} // verus!
