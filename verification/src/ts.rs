//! The calls this library makes into tree-sitter and its Rust grammar.

use vstd::prelude::*;

verus! {

#[verifier::external_type_specification]
#[verifier::external_body]
pub struct ExParser(tree_sitter::Parser);

#[verifier::external_type_specification]
#[verifier::external_body]
pub struct ExTree(tree_sitter::Tree);

#[verifier::external_type_specification]
#[verifier::external_body]
pub struct ExLanguage(tree_sitter::Language);

#[verifier::external_type_specification]
#[verifier::external_body]
pub struct ExLanguageError(tree_sitter::LanguageError);

#[verifier::external_type_specification]
#[verifier::external_body]
pub struct ExQuery(tree_sitter::Query);

#[verifier::external_type_specification]
#[verifier::external_body]
pub struct ExQueryError(tree_sitter::QueryError);

#[verifier::external_type_specification]
#[verifier::external_body]
pub struct ExNode<'tree>(tree_sitter::Node<'tree>);

/// Whether a language is the grammar that `tree_sitter_rust::LANGUAGE` holds.
pub uninterp spec fn is_rust_grammar(language: tree_sitter::Language) -> bool;

/// `tree_sitter_rust::LANGUAGE`, converted into a `tree_sitter::Language`: the
/// contract claims only that it is that grammar.
#[verifier::external_body]
pub(crate) fn rust_language() -> (r: tree_sitter::Language)
    ensures
        is_rust_grammar(r),
{
    tree_sitter_rust::LANGUAGE.into()
}

/// Whether a parser has no timeout, no cancellation flag and no included
/// ranges set: the settings under which `Parser::parse` gives a tree whenever
/// a language is set.
pub uninterp spec fn parser_plain(parser: tree_sitter::Parser) -> bool;

/// Whether a parser is plain and set to the grammar of `tree_sitter_rust`.
pub uninterp spec fn parser_ready(parser: tree_sitter::Parser) -> bool;

/// The text a tree is the `tree_sitter_rust` parse of, for such a tree.
pub uninterp spec fn tree_site(tree: tree_sitter::Tree) -> Option<Seq<char>>;

/// For a node of the `tree_sitter_rust` parse of a text: that text, and the
/// child indices that lead to the node from the root.
pub uninterp spec fn node_site(node: tree_sitter::Node) -> Option<(Seq<char>, Seq<int>)>;

/// In the `tree_sitter_rust` parse of `text`, the kind of the node at `path`.
pub uninterp spec fn rust_kind(text: Seq<char>, path: Seq<int>) -> Seq<char>;

/// In the `tree_sitter_rust` parse of `text`, the start byte of the node at `path`.
pub uninterp spec fn rust_start(text: Seq<char>, path: Seq<int>) -> int;

/// In the `tree_sitter_rust` parse of `text`, the end byte of the node at `path`.
pub uninterp spec fn rust_end(text: Seq<char>, path: Seq<int>) -> int;

/// In the `tree_sitter_rust` parse of `text`, the number of children of the node at `path`.
pub uninterp spec fn rust_child_count(text: Seq<char>, path: Seq<int>) -> int;

/// In the `tree_sitter_rust` parse of `text`, the field name of child `i` of
/// the node at `path`.
pub uninterp spec fn rust_field(text: Seq<char>, path: Seq<int>, i: int) -> Option<Seq<char>>;

/// In the `tree_sitter_rust` parse of `text`, whether the node at `path` or a
/// descendant is a syntax error.
pub uninterp spec fn rust_has_error(text: Seq<char>, path: Seq<int>) -> bool;

/// In the `tree_sitter_rust` parse of `text`, the number of nodes in the
/// subtree of the node at `path`.
pub uninterp spec fn rust_descendants(text: Seq<char>, path: Seq<int>) -> int;

/// `tree_sitter::Parser::new`: a parser with no language, no timeout, no
/// cancellation flag and no included ranges.
#[verifier::external_body]
pub(crate) fn new_parser() -> (r: tree_sitter::Parser)
    ensures
        parser_plain(r),
{
    tree_sitter::Parser::new()
}

/// `tree_sitter::Parser::set_language`. It succeeds exactly when the
/// language's ABI version lies between 13 and 14; the grammar of
/// `tree_sitter_rust` 0.23 has version 14, so the contract claims success for
/// it, after which a plain parser is ready for that grammar. It changes no
/// other setting; nothing is claimed for other languages.
#[verifier::external_body]
pub(crate) fn set_parser_language(
    parser: &mut tree_sitter::Parser,
    language: &tree_sitter::Language,
) -> (r: Result<(), tree_sitter::LanguageError>)
    ensures
        is_rust_grammar(*language) ==> r is Ok,
        parser_plain(*final(parser)) == parser_plain(*old(parser)),
        is_rust_grammar(*language) && parser_plain(*old(parser)) ==> parser_ready(*final(parser)),
{
    parser.set_language(language)
}

/// The `Display` text of a `tree_sitter::LanguageError`. Nothing is claimed of it.
#[verifier::external_body]
pub(crate) fn language_error_message(error: &tree_sitter::LanguageError) -> String {
    error.to_string()
}

/// `tree_sitter::Parser::parse` on the bytes of `text`, without an old tree.
/// It returns `None` only when no language is set, a timeout expired or the
/// cancellation flag was raised; so a parser ready for the Rust grammar gives
/// the Rust parse of the text. Parsing changes no setting of the parser.
#[verifier::external_body]
pub(crate) fn parse_text(parser: &mut tree_sitter::Parser, text: &str) -> (r: Option<tree_sitter::Tree>)
    ensures
        parser_plain(*final(parser)) == parser_plain(*old(parser)),
        parser_ready(*final(parser)) == parser_ready(*old(parser)),
        parser_ready(*old(parser)) ==> (r matches Some(t) && tree_site(t) == Some(text@)),
{
    parser.parse(text, None)
}

/// `tree_sitter::Tree::root_node`: the node at the empty path.
#[verifier::external_body]
pub(crate) fn tree_root<'tree>(tree: &'tree tree_sitter::Tree) -> (r: tree_sitter::Node<'tree>)
    ensures
        tree_site(*tree) matches Some(text) ==> node_site(r) == Some((text, Seq::<int>::empty())),
{
    tree.root_node()
}

/// `tree_sitter::Node::kind`, copied into a `String`.
#[verifier::external_body]
pub(crate) fn node_kind(node: &tree_sitter::Node) -> (r: String)
    ensures
        node_site(*node) matches Some((text, path)) ==> r@ == rust_kind(text, path),
{
    node.kind().to_string()
}

/// `tree_sitter::Node::start_byte`.
#[verifier::external_body]
pub(crate) fn node_start_byte(node: &tree_sitter::Node) -> (r: usize)
    ensures
        node_site(*node) matches Some((text, path)) ==> r == rust_start(text, path),
{
    node.start_byte()
}

/// `tree_sitter::Node::end_byte`.
#[verifier::external_body]
pub(crate) fn node_end_byte(node: &tree_sitter::Node) -> (r: usize)
    ensures
        node_site(*node) matches Some((text, path)) ==> r == rust_end(text, path),
{
    node.end_byte()
}

/// `tree_sitter::Node::child_count`.
#[verifier::external_body]
pub(crate) fn node_child_count(node: &tree_sitter::Node) -> (r: usize)
    ensures
        node_site(*node) matches Some((text, path)) ==> r == rust_child_count(text, path),
{
    node.child_count()
}

/// `tree_sitter::Node::child`: the child at index `i`, or `None` past the
/// last one. The index is passed on as a `u32`, so it must fit one.
#[verifier::external_body]
pub(crate) fn node_child<'tree>(node: &tree_sitter::Node<'tree>, i: usize) -> (r: Option<tree_sitter::Node<'tree>>)
    requires
        i <= 0xffff_ffff,
    ensures
        node_site(*node) matches Some((text, path)) ==> (if i < rust_child_count(text, path) {
            r matches Some(c) && node_site(c) == Some((text, path.push(i as int)))
        } else {
            r is None
        }),
{
    node.child(i)
}

/// `tree_sitter::Node::field_name_for_child`, copied into a `String`.
#[verifier::external_body]
pub(crate) fn node_field_name_for_child(node: &tree_sitter::Node, i: u32) -> (r: Option<String>)
    ensures
        node_site(*node) matches Some((text, path)) ==> crate::paths::opt_view(r) == rust_field(text, path, i as int),
{
    match node.field_name_for_child(i) {
        Some(name) => Some(name.to_string()),
        None => None,
    }
}

/// `tree_sitter::Node::has_error`: whether the node or a descendant is a
/// syntax error.
#[verifier::external_body]
pub(crate) fn node_has_error(node: &tree_sitter::Node) -> (r: bool)
    ensures
        node_site(*node) matches Some((text, path)) ==> r == rust_has_error(text, path),
{
    node.has_error()
}

/// `tree_sitter::Node::descendant_count`: the number of nodes in its subtree.
#[verifier::external_body]
pub(crate) fn node_descendant_count(node: &tree_sitter::Node) -> (r: usize)
    ensures
        node_site(*node) matches Some((text, path)) ==> r == rust_descendants(text, path),
{
    node.descendant_count()
}

/// Whether `source` compiles as a query in the language `tree` was parsed with.
pub uninterp spec fn query_compiles(tree: tree_sitter::Tree, source: Seq<char>) -> bool;

/// Whether the grammar `tree` was parsed with has a field named `name`.
pub uninterp spec fn grammar_has_field(tree: tree_sitter::Tree, name: Seq<char>) -> bool;

/// `tree_sitter::Language::field_id_for_name` over the language the tree was
/// parsed with: whether that grammar has a field of that name.
#[verifier::external_body]
pub(crate) fn tree_has_field(tree: &tree_sitter::Tree, name: &str) -> (r: bool)
    ensures
        r == grammar_has_field(*tree, name@),
{
    tree.language().field_id_for_name(name).is_some()
}

/// An ASCII letter or digit.
pub open spec fn is_ascii_alnum(c: char) -> bool {
    ('a' <= c && c <= 'z') || ('A' <= c && c <= 'Z') || ('0' <= c && c <= '9')
}

/// A character that continues a name in a query: an ASCII letter or digit,
/// `_`, `-`, `.`, `?` or `!`.
pub open spec fn is_name_char(c: char) -> bool {
    is_ascii_alnum(c) || c == '_' || c == '-' || c == '.' || c == '?' || c == '!'
}

/// The end of the run of name characters that starts at `i`.
pub open spec fn name_end(s: Seq<char>, i: int) -> int
    decreases s.len() - i,
{
    if i < 0 || i >= s.len() || !is_name_char(s[i]) {
        i
    } else {
        name_end(s, i + 1)
    }
}

/// Whether a query text starts where tree-sitter cannot report a misnamed
/// field at its very first byte: it is empty; or it starts with an ASCII
/// character other than a letter, a digit or `-` (so with a bracket, a quote,
/// `_`, whitespace, a comment...); or it starts with a field name that the
/// grammar has, made of ASCII characters. `Query::new` reads the byte before a
/// misnamed field, which at the very start lies before the text.
pub open spec fn query_starts_safely(tree: tree_sitter::Tree, source: Seq<char>) -> bool {
    source.len() == 0 || {
        let c = source[0];
        if c >= '\u{80}' {
            false
        } else if !(is_ascii_alnum(c) || c == '-') {
            true
        } else {
            let n = name_end(source, 0);
            (n == source.len() || source[n] < '\u{80}') && grammar_has_field(tree, source.subrange(0, n))
        }
    }
}

/// `tree_sitter::Query::new` over the language the tree was parsed with. The
/// contract claims only that success is a property of that language and the
/// text; nothing is claimed of the query.
#[verifier::external_body]
pub(crate) fn new_query(tree: &tree_sitter::Tree, source: &str) -> (r: Result<tree_sitter::Query, tree_sitter::QueryError>)
    requires
        query_starts_safely(*tree, source@),
    ensures
        r is Ok == query_compiles(*tree, source@),
{
    tree_sitter::Query::new(&tree.language(), source)
}

} // verus!
