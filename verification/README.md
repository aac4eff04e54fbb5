# tree-sitter-mcp

An MCP server that lets coding agents ask for the structure of source
files (syntax trees, query matches, the node at an offset) through
tree-sitter grammars loaded from compiled libraries on demand.

## Layout

- `src/` — the library, verified with Verus:
  - `extension.rs`: the language table of `languages.toml` (plain
    extensions and globs), its checks and errors;
  - `language.rs`: language ids, configured languages and their listing
    lines;
  - `engine.rs`: the grammar engine — lookup keys, resolution of a path to
    a language (extension first, globs after), lazy loading with a cache,
    and the laws that tie them together;
  - `loader.rs`: grammar libraries on disk, the ABI check, and joining
    opened grammars to configured languages;
  - `session.rs`: a parsed file and what can be asked of it;
  - `capabilities.rs`: capability negotiation and near-name suggestions
    (edit distance);
  - `config.rs`, `paths.rs`, `text.rs`, `order.rs`, `prompt.rs`,
    `error.rs`: directories, path strings, text, ordering, the query
    guide and error messages;
  - `ts.rs`: the calls into the `tree-sitter` crate, with what is assumed
    of each.
- `app/` — the program: command line, files, `dlopen` of grammar
  libraries, and the MCP transport.
- `tests/` — tests of the library.
