//! The boundary to the tree-sitter runtime.
//!
//! The runtime's types pass through the library as opaque values. What the
//! runtime computes from them is given a name here, and each runtime call has
//! one thin wrapper whose contract equates its result with that name. The
//! contracts of the wrappers are taken on trust from the runtime's source;
//! everything else in the library is proved from them.

use tree_sitter::{Language, Node, Parser, Query, QueryCursor, QueryError, Tree};
use vstd::prelude::*;
use vstd::slice::*;
use vstd::utf8::is_ascii_chars;

verus! {

/// `tree_sitter::Language`: a grammar, carried as an opaque value.
#[verifier::external_type_specification]
#[verifier::external_body]
pub struct ExLanguage(tree_sitter::Language);

/// `tree_sitter::Tree`: a syntax tree, carried as an opaque value.
#[verifier::external_type_specification]
#[verifier::external_body]
pub struct ExTree(tree_sitter::Tree);

/// `tree_sitter::Node`: a node of a tree, carried as an opaque value.
#[verifier::external_type_specification]
#[verifier::external_body]
pub struct ExNode<'a>(tree_sitter::Node<'a>);

/// `tree_sitter::Query`: a compiled query, carried as an opaque value.
#[verifier::external_type_specification]
#[verifier::external_body]
pub struct ExQuery(tree_sitter::Query);

/// `tree_sitter::QueryError`: why a query did not compile, carried as an
/// opaque value.
#[verifier::external_type_specification]
#[verifier::external_body]
pub struct ExQueryError(tree_sitter::QueryError);

/// What a query run reports: for each match the index of its pattern and its
/// captures, each capture as its index in the query and the byte range of
/// the captured node.
pub type RawMatches = Seq<(usize, Seq<(u32, usize, usize)>)>;

/// The tree that the runtime builds for `text` under `language`, if it builds one.
pub uninterp spec fn parsed(language: Language, text: Seq<char>) -> Option<Tree>;

/// The root node of a tree.
pub uninterp spec fn root_of(tree: Tree) -> Node<'static>;

/// The ancestors of a node, nearest first; empty for a root.
pub uninterp spec fn ancestors_of(node: Node) -> Seq<Node>;

/// The byte offsets at which a node starts and ends.
pub uninterp spec fn span_of(node: Node) -> (usize, usize);

/// The smallest node under `node` that spans the bytes from `start` to `end`.
pub uninterp spec fn descendant_of(node: Node, start: usize, end: usize) -> Option<Node>;

/// The outcome of compiling `source`, a text of ASCII characters, as a query
/// for `language`.
pub uninterp spec fn compiled(language: Language, source: Seq<char>) -> Result<Query, QueryError>;

/// The compiled query for the text `text`, if it is a valid query. A text
/// with a character beyond ASCII is none: how the runtime reads such a
/// character is left to the C library and its locale, so the library does
/// not hand it over. The runtime is handed the text with a line break behind
/// it: see `compile`.
pub open spec fn query_of(language: Language, text: Seq<char>) -> Option<Query> {
    if is_ascii_chars(text) {
        match compiled(language, text.push('\n')) {
            Ok(query) => Some(query),
            Err(_) => None,
        }
    } else {
        None
    }
}

/// The number of patterns in a query.
pub uninterp spec fn pattern_count_of(query: Query) -> usize;

/// The capture names of a query, by capture index.
pub uninterp spec fn capture_names_of(query: Query) -> Seq<Seq<char>>;

/// The matches of `query` under `node`, in the order in which the runtime
/// finds them, with `text` as the source that text predicates read.
pub uninterp spec fn query_matches(query: Query, node: Node, text: Seq<char>) -> RawMatches;

/// The bytes of `bytes` from `start` to `end`, or nothing where that is no
/// range of `bytes`. (Proved; the text provider of `run_query` calls it.)
pub fn clip(bytes: &[u8], start: usize, end: usize) -> (part: &[u8])
    ensures
        part@ == if start <= end && end <= bytes@.len() {
            bytes@.subrange(start as int, end as int)
        } else {
            Seq::<u8>::empty()
        },
{
    if start <= end && end <= bytes.len() {
        slice_subrange(bytes, start, end)
    } else {
        slice_subrange(bytes, 0, 0)
    }
}

/// `Parser::new`, `Parser::set_language` and `Parser::parse` on a fresh
/// parser without a previous tree: the parse depends on the language and the
/// text alone. No tree comes back where the language's version does not fit
/// the runtime.
#[verifier::external_body]
pub(crate) fn parse(language: Language, text: &str) -> (tree: Option<Tree>)
    ensures
        tree == parsed(language, text@),
{
    let mut parser = Parser::new();
    parser.set_language(language).ok()?;
    parser.parse(text, None)
}

/// `Tree::root_node`. The root is the one node for which the runtime's
/// `Node::parent` gives none at once: it has no ancestors.
#[verifier::external_body]
pub(crate) fn root_node(tree: &Tree) -> (root: Node<'_>)
    ensures
        root == root_of(*tree),
        ancestors_of(root).len() == 0,
{
    tree.root_node()
}

/// `Node::parent`: the nearest ancestor, and none for a root. The parent's
/// own ancestors are the node's remaining ones.
#[verifier::external_body]
pub(crate) fn parent<'a>(node: Node<'a>) -> (up: Option<Node<'a>>)
    ensures
        up is Some <==> ancestors_of(node).len() > 0,
        up is Some ==> up.unwrap() == ancestors_of(node)[0],
        up is Some ==> ancestors_of(up.unwrap()) == ancestors_of(node).skip(1),
{
    node.parent()
}

/// `Node::byte_range`, as a pair.
#[verifier::external_body]
pub(crate) fn byte_range(node: Node) -> (span: (usize, usize))
    ensures
        span == span_of(node),
{
    let range = node.byte_range();
    (range.start, range.end)
}

/// `Node::descendant_for_byte_range`.
#[verifier::external_body]
pub(crate) fn descendant_for_byte_range<'a>(node: Node<'a>, start: usize, end: usize) -> (found:
    Option<Node<'a>>)
    ensures
        found == descendant_of(node, start, end),
{
    node.descendant_for_byte_range(start, end)
}

/// `Query::new`, on ASCII text that ends in a line break.
///
/// The runtime tells white space and the characters of names apart with the
/// C library's wide-character tests, which the locale decides for characters
/// beyond ASCII: only for ASCII text is the outcome a function of the
/// language and the source alone. Where a query names a node kind, a field
/// or a capture that is not there, the runtime cuts the name out of the
/// source for its report, and panics where the name runs to the very end of
/// the source. A source that ends in a line break is never cut there.
#[verifier::external_body]
pub(crate) fn compile(language: Language, source: &str) -> (query: Result<Query, QueryError>)
    requires
        is_ascii_chars(source@),
        source@.len() > 0,
        source@.last() == '\n',
    ensures
        query == compiled(language, source@),
{
    Query::new(language, source)
}

/// `Query::pattern_count`.
#[verifier::external_body]
pub(crate) fn pattern_count(query: &Query) -> (count: usize)
    ensures
        count == pattern_count_of(*query),
{
    query.pattern_count()
}

/// `Query::capture_names`, copied out.
#[verifier::external_body]
pub(crate) fn capture_names(query: &Query) -> (names: Vec<String>)
    ensures
        names.deep_view() == capture_names_of(*query),
{
    query.capture_names().to_vec()
}

/// `QueryCursor::new` and `QueryCursor::matches` on a fresh cursor, each
/// match handed out as plain values. The text that predicates compare is cut
/// from `text` by `clip`, so a node that reaches past the end of `text` reads
/// as empty.
#[verifier::external_body]
pub(crate) fn run_query(query: &Query, node: Node, text: &str) -> (found: Vec<
    (usize, Vec<(u32, usize, usize)>),
>)
    ensures
        found.deep_view() == query_matches(*query, node, text@),
{
    let bytes = text.as_bytes();
    let mut cursor = QueryCursor::new();
    cursor
        .matches(query, node, |n: Node| std::iter::once(clip(bytes, n.start_byte(), n.end_byte())))
        .map(|m| {
            let captures = m.captures.iter();
            (m.pattern_index, captures.map(|c| (c.index, c.node.start_byte(), c.node.end_byte())).collect())
        })
        .collect()
}

} // verus!
