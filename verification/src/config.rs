//! Where the server finds things on disk: the grammar directory, the
//! runtime directory and the files under it. The environment and the
//! platform's base directories are read by the caller and handed in.

use vstd::prelude::*;
use crate::paths::{joined, path_join};
use crate::text::{opt_view, owned};

verus! {

/// The first of `first`, `second`, `third` that is given, else `fallback`.
pub open spec fn first_given(
    first: Option<Seq<char>>,
    second: Option<Seq<char>>,
    third: Option<Seq<char>>,
    fallback: Seq<char>,
) -> Seq<char> {
    match first {
        Some(d) => d,
        None => match second {
            Some(d) => d,
            None => match third {
                Some(d) => d,
                None => fallback,
            },
        },
    }
}

/// The application's directory name under the platform's base
/// directories.
pub fn app_name() -> (r: &'static str)
    ensures
        r@ == "tree-sitter-mcp"@,
{
    "tree-sitter-mcp"
}

/// The default grammar directory under the data directory `data_dir`.
pub open spec fn default_grammar_dir(data_dir: Seq<char>) -> Seq<char> {
    joined(data_dir, "grammars"@)
}

/// The directory grammar libraries are looked for in: the one given on
/// the command line, else the `TREE_SITTER_MCP_GRAMMAR_DIR` environment
/// variable, else the `grammar_dir` key of the configuration file, else
/// `grammars` under the application's data directory `data_dir`.
pub fn grammar_dir(
    cli: Option<&str>,
    env: Option<&str>,
    config_key: Option<&str>,
    data_dir: &str,
) -> (r: String)
    ensures
        r@ == first_given(
            opt_view(cli),
            opt_view(env),
            opt_view(config_key),
            default_grammar_dir(data_dir@),
        ),
{
    match cli {
        Some(d) => owned(d),
        None => match env {
            Some(d) => owned(d),
            None => match config_key {
                Some(d) => owned(d),
                None => path_join(data_dir, "grammars"),
            },
        },
    }
}

/// The default runtime directory under the base data directory
/// `data_home`.
pub open spec fn default_runtime_dir(data_home: Seq<char>) -> Seq<char> {
    joined(joined(data_home, "tree-sitter-mcp"@), "runtime"@)
}

/// The runtime directory: the one the caller names, else the
/// `TREE_SITTER_MCP_RUNTIME` environment variable, else
/// `tree-sitter-mcp/runtime` under the base data directory `data_home`.
pub fn runtime_dir(explicit: Option<&str>, env: Option<&str>, data_home: &str) -> (r: String)
    ensures
        r@ == first_given(opt_view(explicit), opt_view(env), None, default_runtime_dir(data_home@)),
{
    match explicit {
        Some(d) => owned(d),
        None => match env {
            Some(d) => owned(d),
            None => {
                let base = path_join(data_home, app_name());
                path_join(base.as_str(), "runtime")
            },
        },
    }
}

/// The path of `rel_path` under the runtime directory, if `is_file`
/// says a file is there. `is_file` is asked about that path once.
pub fn find_runtime_file<F: Fn(&str) -> bool>(
    explicit: Option<&str>,
    env: Option<&str>,
    data_home: &str,
    rel_path: &str,
    is_file: &F,
) -> (r: Option<String>)
    requires
        forall|p: &str| is_file.requires((p,)),
    ensures
        ({
            let path = joined(
                first_given(opt_view(explicit), opt_view(env), None, default_runtime_dir(data_home@)),
                rel_path@,
            );
            match r {
                Some(p) => p@ == path && (exists|q: &str| q@ == path && is_file.ensures((q,), true)),
                None => exists|q: &str| q@ == path && is_file.ensures((q,), false),
            }
        }),
{
    let dir = runtime_dir(explicit, env, data_home);
    let path = path_join(dir.as_str(), rel_path);
    let found = is_file(path.as_str());
    if found {
        Some(path)
    } else {
        None
    }
}

/// The path of a language's runtime file:
/// `<runtime_dir>/queries/<language>/<filename>`.
pub open spec fn runtime_query_path_of(dir: Seq<char>, language: Seq<char>, filename: Seq<char>) -> Seq<char> {
    joined(joined(joined(dir, "queries"@), language), filename)
}

/// The path of the runtime file `filename` of `language` under the
/// runtime directory `dir`.
pub fn runtime_query_path(dir: &str, language: &str, filename: &str) -> (r: String)
    ensures
        r@ == runtime_query_path_of(dir@, language@, filename@),
{
    let q = path_join(dir, "queries");
    let l = path_join(q.as_str(), language);
    path_join(l.as_str(), filename)
}

} // verus!
