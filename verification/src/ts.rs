//! The calls this library makes into the `tree-sitter` crate. Grammars,
//! parsers, trees, nodes and queries are opaque here; what the library
//! reads from them comes back as plain values.

use vstd::prelude::*;
use crate::error::{QueryFailure, LANGUAGE_VERSION, MIN_COMPATIBLE_LANGUAGE_VERSION};

verus! {

#[verifier::external_type_specification]
#[verifier::external_body]
pub struct ExGrammar(tree_sitter::Language);

#[verifier::external_type_specification]
#[verifier::external_body]
pub struct ExTree(tree_sitter::Tree);

#[verifier::external_type_specification]
#[verifier::external_body]
pub struct ExNode<'tree>(tree_sitter::Node<'tree>);

#[verifier::external_type_specification]
#[verifier::external_body]
pub struct ExQuery(tree_sitter::Query);

/// `tree_sitter::Language::clone`: another handle on the same grammar.
/// Nothing is stated of the handle.
#[verifier::external_body]
pub(crate) fn grammar_clone(g: &tree_sitter::Language) -> tree_sitter::Language {
    g.clone()
}

/// `tree_sitter::Language::abi_version`: the ABI version the grammar was
/// generated for. Nothing is stated of the number.
#[verifier::external_body]
pub(crate) fn grammar_abi_version(g: &tree_sitter::Language) -> usize {
    g.abi_version()
}

/// `tree_sitter::MIN_COMPATIBLE_LANGUAGE_VERSION`, which the crate defines
/// as 13.
#[verifier::external_body]
pub(crate) fn min_compatible_language_version() -> (r: usize)
    ensures
        r == MIN_COMPATIBLE_LANGUAGE_VERSION,
{
    tree_sitter::MIN_COMPATIBLE_LANGUAGE_VERSION
}

/// `tree_sitter::LANGUAGE_VERSION`, which the crate defines as 15.
#[verifier::external_body]
pub(crate) fn language_version() -> (r: usize)
    ensures
        r == LANGUAGE_VERSION,
{
    tree_sitter::LANGUAGE_VERSION
}

/// A fresh `tree_sitter::Parser` given grammar `g` with
/// `Parser::set_language` and then asked to `Parser::parse` `text` with no
/// previous tree; the tree comes with the byte range of its root
/// (`Node::start_byte`, `Node::end_byte` of `Tree::root_node`). Also gives
/// `Language::abi_version` of `g`.
/// `set_language` refuses a grammar whose ABI version lies outside the
/// supported range (it may refuse others too, which is not stated), and
/// `parse` gives no tree only when no grammar is set. tree-sitter counts
/// bytes in 32 bits; a parse runs until the end of the input, whose last
/// token (the end of input) is a child of the root, so the root ends where
/// the text ends whenever that offset fits in 32 bits.
#[verifier::external_body]
pub(crate) fn parse_text(g: &tree_sitter::Language, text: &str) -> (r: (usize, Result<Option<(tree_sitter::Tree, usize, usize)>, String>))
    ensures
        !crate::loader::abi_supported(r.0) ==> r.1 is Err,
        r.1 matches Ok(t) ==> t is Some,
        r.1 matches Ok(Some((_, a, b))) ==> a <= b && b <= u32::MAX && (crate::text::utf8_len(text@)
            <= u32::MAX ==> b == crate::text::utf8_len(text@)),
{
    let mut parser = tree_sitter::Parser::new();
    let abi = g.abi_version();
    match parser.set_language(g) {
        Ok(()) => (abi, Ok(parser.parse(text, None).map(|t| {
            let (a, b) = (t.root_node().start_byte(), t.root_node().end_byte());
            (t, a, b)
        }))),
        Err(e) => (abi, Err(e.to_string())),
    }
}

/// `tree_sitter::Node::parent`, with the parent's byte range
/// (`Node::start_byte`, `Node::end_byte`); a node's start never lies past
/// its end. Nothing is stated of which node the parent is.
#[verifier::external_body]
pub(crate) fn node_parent<'tree>(n: &tree_sitter::Node<'tree>) -> (r: Option<(tree_sitter::Node<'tree>, usize, usize)>)
    ensures
        r matches Some((_, a, b)) ==> a <= b,
{
    match n.parent() {
        Some(p) => Some((p, p.start_byte(), p.end_byte())),
        None => None,
    }
}

/// `tree_sitter::Node::kind`, copied into a string. (The crate reads the
/// grammar's symbol name as UTF-8, which every generated grammar's names
/// are.)
#[verifier::external_body]
pub(crate) fn node_kind(n: &tree_sitter::Node<'_>) -> String {
    n.kind().to_string()
}

/// `tree_sitter::Node::start_position`, as (row, column).
#[verifier::external_body]
pub(crate) fn node_start_position(n: &tree_sitter::Node<'_>) -> (usize, usize) {
    let p = n.start_position();
    (p.row, p.column)
}

/// `tree_sitter::Node::end_position`, as (row, column).
#[verifier::external_body]
pub(crate) fn node_end_position(n: &tree_sitter::Node<'_>) -> (usize, usize) {
    let p = n.end_position();
    (p.row, p.column)
}

/// `tree_sitter::Node::to_sexp`. tree-sitter writes every node's
/// S-expression starting with `(`, whatever the node. (The crate reads the
/// text as UTF-8, which it is for every generated grammar's symbol
/// names.)
#[verifier::external_body]
pub(crate) fn node_to_sexp(n: &tree_sitter::Node<'_>) -> (r: String)
    ensures
        r@.len() > 0 && r@[0] == '(',
{
    n.to_sexp()
}

/// `tree_sitter::Query::new`, with the compile error's fields on failure.
/// Which queries compile is not stated.
#[verifier::external_body]
pub(crate) fn query_new(g: &tree_sitter::Language, source: &str) -> Result<tree_sitter::Query, QueryFailure> {
    match tree_sitter::Query::new(g, source) {
        Ok(q) => Ok(q),
        Err(e) => Err(
            QueryFailure {
                row: e.row,
                column: e.column,
                offset: e.offset,
                message: e.message,
                kind: format!("{:?}", e.kind),
            },
        ),
    }
}

} // verus!
