//! The guide to tree-sitter queries that the server offers as a prompt.

use vstd::prelude::*;
use crate::text::{join_strings, join_with, owned, views};

verus! {

/// The guide's text before the list of languages.
pub open spec fn guide_head() -> Seq<char> {
    "Tree-sitter S-expression query syntax:

             - `(node_kind)` matches any node of that kind.
             - `(node_kind field: (child_kind) @capture_name)` matches a field and captures it.
             - `@capture_name` right after a node pattern captures the whole node.
             - `_` matches any node kind (wildcard).
             - `[(a) (b)] @capture` matches either alternative.
             - `(a) . (b)` anchors `b` to immediately follow `a` among siblings.
             - Predicates filter matches by captured text:
               `(#eq? @capture \"literal\")`, `(#match? @capture \"regex\")`.

             Supported languages on this server: "@
}

/// The guide's text after the list of languages.
pub open spec fn guide_tail() -> Seq<char> {
    ".
             Use tree_sitter_dump_ast first to see the node kinds and field names
             for the file you're targeting, then write a query against tree_sitter_run_query."@
}

/// The query guide, naming the languages `ids` whose grammars are
/// loaded, separated by commas.
pub fn query_guide_text(ids: &Vec<String>) -> (r: String)
    ensures
        r@ == guide_head() + join_with(views(ids@), ", "@) + guide_tail(),
{
    let mut r = owned(
        "Tree-sitter S-expression query syntax:

             - `(node_kind)` matches any node of that kind.
             - `(node_kind field: (child_kind) @capture_name)` matches a field and captures it.
             - `@capture_name` right after a node pattern captures the whole node.
             - `_` matches any node kind (wildcard).
             - `[(a) (b)] @capture` matches either alternative.
             - `(a) . (b)` anchors `b` to immediately follow `a` among siblings.
             - Predicates filter matches by captured text:
               `(#eq? @capture \"literal\")`, `(#match? @capture \"regex\")`.

             Supported languages on this server: ",
    );
    let list = join_strings(ids, ", ");
    r.append(list.as_str());
    r.append(
        ".
             Use tree_sitter_dump_ast first to see the node kinds and field names
             for the file you're targeting, then write a query against tree_sitter_run_query.",
    );
    r
}

} // verus!
