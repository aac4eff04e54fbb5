use tree_sitter_mcp::engine::GrammarEngine;
use tree_sitter_mcp::error::GrammarError;
use tree_sitter_mcp::extension::ext;
use tree_sitter_mcp::language::{LanguageEntry, LanguageId};
use tree_sitter_mcp::session::{
    check_byte_in_bounds, matches_of, ByteRange, FindNodeResult, NodeInfo, ParseSession, PointDef,
    RawCapture, RawMatch,
};

fn rust_root(source: &str) -> tree_sitter::Tree {
    let mut parser = tree_sitter::Parser::new();
    parser
        .set_language(&tree_sitter_rust::LANGUAGE.into())
        .expect("rust language should load");
    parser.parse(source, None).expect("source should parse")
}

fn rust_language() -> LanguageEntry {
    LanguageEntry::loaded(
        LanguageId::new("rust").unwrap(),
        vec![ext("rs")],
        tree_sitter_rust::LANGUAGE.into(),
    )
}

fn parse_session(source: &str) -> ParseSession {
    ParseSession::new(&rust_language(), source.to_string()).expect("parse should succeed")
}

fn engine_with_rust() -> GrammarEngine {
    GrammarEngine::from_languages(vec![rust_language()])
}

#[test]
fn session_node_info_captures_kind_range_and_text() {
    let source = "fn main() {}";
    let tree = rust_root(source);
    let root_node = tree.root_node();
    root_node
        .descendant_for_byte_range(3, 7)
        .expect("identifier should be found");

    let info = parse_session(source).node_covering(ByteRange { start: 3, end: 7 });

    assert_eq!(info.kind, "identifier");
    assert_eq!(info.text, "main");
    assert_eq!(info.start_byte, 3);
    assert_eq!(info.end_byte, 7);
}

#[test]
fn parser_node_info_captures_kind_range_and_text() {
    let source = "fn main() {}";
    let tree = rust_root(source);
    let root_node = tree.root_node();
    root_node
        .descendant_for_byte_range(3, 7)
        .expect("identifier should be found");

    let info = parse_session(source).node_covering(ByteRange { start: 3, end: 7 });

    assert_eq!(info.kind, "identifier");
    assert_eq!(info.text, "main");
    assert_eq!(info.start_point, PointDef { row: 0, column: 3 });
    assert_eq!(info.end_point, PointDef { row: 0, column: 7 });
}

#[test]
fn chain_starts_deepest_and_ends_at_root() {
    let source = "fn main() { let x = 1; }";
    let session = parse_session(source);

    let byte = source.find('1').unwrap();
    let result = session.find_node(byte).unwrap();

    assert!(!result.ancestors.is_empty());
    let first = &result.ancestors[0];
    assert_eq!(first.kind, "integer_literal");
    assert_eq!(first.text, "1");

    let last = result.ancestors.last().unwrap();
    assert_eq!(
        last.kind, "source_file",
        "chain should terminate at the root node"
    );
}

#[test]
fn find_node_refuses_a_byte_past_the_end() {
    let session = parse_session("fn main() {}");
    let err = session.find_node(13).unwrap_err();
    assert!(matches!(err, GrammarError::ByteOutOfBounds { byte: 13, len: 12 }));
    assert!(session.find_node(12).is_ok());
}

#[test]
fn byte_bounds_check_includes_the_end() {
    assert!(check_byte_in_bounds(7, 7).is_ok());
    assert!(matches!(
        check_byte_in_bounds(8, 7),
        Err(GrammarError::ByteOutOfBounds { byte: 8, len: 7 })
    ));
}

#[test]
fn dump_ast_of_whole_file_and_of_a_range() {
    let source = "fn main() { let x = 1; }";
    let session = parse_session(source);
    let full = session.dump_ast(None);
    assert!(full.starts_with("(source_file"));
    let start = source.find('1').unwrap();
    let limited = session.dump_ast(Some(ByteRange { start, end: start + 1 }));
    assert_eq!(limited, "(integer_literal)");
    assert!(full.contains(&limited));
}

#[test]
fn run_query_reports_captures() {
    let session = parse_session("fn main() {}\nfn other() {}");
    let matches = session
        .run_query("(function_item name: (identifier) @name)", None)
        .expect("query should compile");
    assert_eq!(matches.len(), 2);
    assert_eq!(matches[0].pattern_index, 0);
    assert_eq!(matches[0].captures[0].name, "name");
    assert_eq!(matches[0].captures[0].text, "main");
    assert_eq!(matches[1].captures[0].text, "other");
    assert_eq!(matches[1].captures[0].start_point, PointDef { row: 1, column: 3 });
}

#[test]
fn run_query_refuses_a_malformed_query() {
    let session = parse_session("fn main() {}");
    let err = session.run_query("(function_item", None).unwrap_err();
    assert!(matches!(err, GrammarError::Query(_)));
}

#[test]
fn session_without_grammar_is_refused() {
    let lang = LanguageEntry::new(LanguageId::new("rust").unwrap(), vec![ext("rs")]);
    let err = ParseSession::new(&lang, "fn main() {}".to_string()).err().unwrap();
    assert!(matches!(err, GrammarError::GrammarNotLoaded(ref id) if id == "rust"));
}

#[test]
fn node_line_truncates_text_to_fifty_characters() {
    let info = NodeInfo::from_parts(
        "string_literal".to_string(),
        0,
        60,
        PointDef { row: 0, column: 0 },
        PointDef { row: 0, column: 60 },
        Some("a".repeat(60)),
    );
    assert_eq!(info.display(), format!("string_literal@0..60: {}", "a".repeat(50)));
}

#[test]
fn node_text_that_is_not_utf8_is_marked() {
    let info = NodeInfo::from_parts(
        "x".to_string(),
        1,
        2,
        PointDef { row: 0, column: 1 },
        PointDef { row: 0, column: 2 },
        None,
    );
    assert_eq!(info.text, "<invalid utf8>");
}

#[test]
fn chain_display_indents_from_the_root() {
    let node = |kind: &str, s: usize, e: usize, text: &str| {
        NodeInfo::from_parts(
            kind.to_string(),
            s,
            e,
            PointDef { row: 0, column: s },
            PointDef { row: 0, column: e },
            Some(text.to_string()),
        )
    };
    let result = FindNodeResult {
        ancestors: vec![node("identifier", 3, 7, "main"), node("source_file", 0, 12, "fn main() {}")],
    };
    assert_eq!(
        result.display(),
        "Ancestor chain (2 nodes):\nsource_file@0..12: fn main() {}\n  identifier@3..7: main\n"
    );
}

#[test]
fn byte_range_display() {
    assert_eq!(ByteRange { start: 3, end: 17 }.display(), "3..17");
}

#[test]
fn engine_dump_ast_reads_through_resolution() {
    let engine = engine_with_rust();
    let ast = engine
        .dump_ast("main.rs", None, Ok("fn main() {}".to_string()), None)
        .expect("should parse");
    assert!(ast.starts_with("(source_file"));
}

#[test]
fn engine_reports_unreadable_file_with_its_path() {
    let engine = engine_with_rust();
    let err = engine
        .dump_ast("main.rs", None, Err("No such file or directory".to_string()), None)
        .unwrap_err();
    assert!(
        matches!(err, GrammarError::SourceRead(ref p, ref m) if p == "main.rs" && m == "No such file or directory")
    );
}

#[test]
fn engine_checks_the_grammar_before_the_file() {
    let engine = GrammarEngine::from_languages(vec![LanguageEntry::new(
        LanguageId::new("rust").unwrap(),
        vec![ext("rs")],
    )]);
    let err = engine
        .find_node("main.rs", None, Err("unreadable".to_string()), 0)
        .unwrap_err();
    assert!(matches!(err, GrammarError::GrammarNotLoaded(ref id) if id == "rust"));
}

#[test]
fn engine_find_node_and_query() {
    let engine = engine_with_rust();
    let found = engine
        .find_node("main.rs", Some("rust"), Ok("fn main() {}".to_string()), 3)
        .unwrap();
    assert_eq!(found.ancestors[0].kind, "identifier");
    let matches = engine
        .run_query(
            "main.rs",
            None,
            Ok("fn main() {}".to_string()),
            "(identifier) @id",
            None,
        )
        .unwrap();
    assert_eq!(matches.len(), 1);
    assert_eq!(matches[0].captures[0].text, "main");
}

#[test]
fn engine_refuses_an_unknown_path() {
    let engine = engine_with_rust();
    let err = engine
        .run_query("notes.txt", None, Ok(String::new()), "(x)", None)
        .unwrap_err();
    assert!(matches!(err, GrammarError::LanguageInference(ref p) if p == "notes.txt"));
}

#[test]
fn lookups_reach_exactly_to_the_end_of_the_tree() {
    let session = parse_session("fn main() {}");
    let end = session.root_end();
    assert_eq!(end, 12);
    assert!(session.find_node(end).is_ok());
    assert!(matches!(
        session.find_node(end + 1),
        Err(GrammarError::ByteOutOfBounds { byte: 13, len: 12 })
    ));
}

#[test]
fn each_ancestor_encloses_the_node_before_it() {
    let source = "fn main() { let x = 1; }";
    let result = parse_session(source).find_node(20).unwrap();
    assert!(result.ancestors.len() >= 3);
    for pair in result.ancestors.windows(2) {
        assert!(pair[1].start_byte <= pair[0].start_byte);
        assert!(pair[0].end_byte <= pair[1].end_byte);
    }
    assert_eq!(result.ancestors[0].kind, "integer_literal");
    assert_eq!(result.ancestors.last().unwrap().kind, "source_file");
}

#[test]
fn dump_ast_is_an_s_expression() {
    let session = parse_session("fn main() { let x = 1; }");
    let full = session.dump_ast(None);
    assert!(full.starts_with("(source_file"));
    let part = session.dump_ast(Some(ByteRange { start: 20, end: 21 }));
    assert!(part.starts_with('('));
    assert!(full.contains(&part));
}

#[test]
fn query_captures_lie_within_the_searched_node() {
    let source = "fn a() { let x = 1; }\nfn b() { let y = 2; }";
    let session = parse_session(source);
    let limited = session
        .run_query("(identifier) @id", Some(ByteRange { start: 26, end: 27 }))
        .unwrap();
    let full = session.run_query("(identifier) @id", None).unwrap();
    assert!(limited.len() <= full.len());
    assert_eq!(full.len(), 4);
    for m in &full {
        for c in &m.captures {
            assert_eq!(&source[c.start_byte..c.end_byte], c.text);
        }
    }
}

#[test]
fn empty_and_unmatched_queries_give_no_matches() {
    let session = parse_session("fn main() {}");
    assert!(session.run_query("", None).unwrap().is_empty());
    assert!(session.run_query("   ", None).unwrap().is_empty());
    assert!(session.run_query("(while_expression) @w", None).unwrap().is_empty());
    assert!(matches!(session.run_query("(unclosed-pattern", None), Err(GrammarError::Query(_))));
    assert!(matches!(session.run_query(")", None), Err(GrammarError::Query(_))));
}

#[test]
fn raw_matches_are_reported_one_for_one() {
    let source = "let é = 1;";
    let cap = |name: &str, a: usize, b: usize| RawCapture {
        name: name.to_string(),
        start_byte: a,
        end_byte: b,
        start_point: PointDef { row: 0, column: a },
        end_point: PointDef { row: 0, column: b },
    };
    let raw = vec![
        RawMatch { pattern_index: 1, captures: vec![cap("kw", 0, 3), cap("name", 4, 6)] },
        RawMatch { pattern_index: 0, captures: vec![cap("bad", 4, 5)] },
    ];
    let ms = matches_of(&raw, source);
    assert_eq!(ms.len(), 2);
    assert_eq!(ms[0].pattern_index, 1);
    assert_eq!(ms[0].captures[0].text, "let");
    assert_eq!(ms[0].captures[1].name, "name");
    assert_eq!(ms[0].captures[1].text, "é");
    assert_eq!(ms[1].pattern_index, 0);
    assert_eq!(ms[1].captures[0].text, "<invalid utf8>");
    assert_eq!(ms[1].captures[0].end_point, PointDef { row: 0, column: 5 });
}
