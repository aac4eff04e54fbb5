use tree_sitter_mcp::engine::refusal_message;
use tree_sitter_mcp::engine::GrammarEngine;
use tree_sitter_mcp::error::GrammarError;
use tree_sitter_mcp::extension::{ext, glob, ExtensionEntry};
use tree_sitter_mcp::language::{LanguageEntry, LanguageId};

fn engine(entries: Vec<(&str, Vec<ExtensionEntry>)>) -> GrammarEngine {
    GrammarEngine::from_languages(
        entries
            .into_iter()
            .map(|(id, exts)| LanguageEntry::new(LanguageId::new_unchecked(id), exts))
            .collect(),
    )
}

fn resolved_id(eng: &GrammarEngine, path: &str, requested: Option<&str>) -> String {
    eng.resolve(path, requested).unwrap().id().to_string()
}

#[test]
fn explicit_request_resolves_by_id() {
    let eng = engine(vec![
        ("rust", vec![ext("rs")]),
        ("toml", vec![ext("toml"), glob("Cargo.lock")]),
    ]);
    assert_eq!(resolved_id(&eng, "anything.rs", Some("toml")), "toml");
}

#[test]
fn unknown_explicit_request_returns_error() {
    let eng = engine(vec![("rust", vec![ext("rs")])]);
    let err = eng.resolve("main.rs", Some("brainfuck")).unwrap_err();
    assert!(matches!(err, GrammarError::UnknownLanguage(ref id) if id == "brainfuck"));
}

#[test]
fn infers_language_from_extension() {
    let eng = engine(vec![("rust", vec![ext("rs")]), ("python", vec![ext("py")])]);
    assert_eq!(resolved_id(&eng, "main.rs", None), "rust");
}

#[test]
fn infers_language_from_exact_filename_glob() {
    let eng = engine(vec![
        ("rust", vec![ext("rs")]),
        ("toml", vec![ext("toml"), glob("Cargo.lock")]),
    ]);
    assert_eq!(resolved_id(&eng, "Cargo.lock", None), "toml");
}

#[test]
fn infers_language_from_wildcard_glob() {
    let eng = engine(vec![
        ("python", vec![ext("py")]),
        ("dockerfile", vec![glob("Dockerfile.*")]),
    ]);
    assert_eq!(resolved_id(&eng, "Dockerfile.prod", None), "dockerfile");
}

#[test]
fn infers_language_from_subdirectory_glob() {
    let eng = engine(vec![("bash", vec![glob("bash-completion/completions/*")])]);
    assert_eq!(
        resolved_id(&eng, "bash-completion/completions/docker", None),
        "bash"
    );
}

#[test]
fn extension_match_beats_glob_because_checked_first() {
    let eng = engine(vec![
        ("glob_only", vec![glob("*.txt")]),
        ("ext_match", vec![ext("txt")]),
    ]);
    assert_eq!(resolved_id(&eng, "file.txt", None), "ext_match");
}

#[test]
fn extension_matching_only_checks_ext_entries_not_globs() {
    let eng = engine(vec![("dockerfile", vec![glob("Dockerfile.*")])]);
    assert_eq!(resolved_id(&eng, "Dockerfile.py", None), "dockerfile");
}

#[test]
fn no_match_returns_language_inference_error() {
    let eng = engine(vec![("rust", vec![ext("rs")])]);
    let err = eng.resolve("unknown.xyz", None).unwrap_err();
    assert!(matches!(err, GrammarError::LanguageInference(ref p) if p == "unknown.xyz"));
}

#[test]
fn resolve_matches_multiple_extensions_for_same_language() {
    let eng = engine(vec![("cpp", vec![ext("cpp"), ext("h"), ext("cc")])]);
    assert_eq!(resolved_id(&eng, "main.cpp", None), "cpp");
    assert_eq!(resolved_id(&eng, "main.cc", None), "cpp");
    assert_eq!(resolved_id(&eng, "main.h", None), "cpp");
}

#[test]
fn resolve_matches_first_matching_entry_by_extension() {
    let eng = engine(vec![
        ("ruby", vec![ext("rb")]),
        ("python", vec![ext("py")]),
        ("perl", vec![ext("pl"), ext("pm")]),
    ]);
    assert_eq!(resolved_id(&eng, "script.pl", None), "perl");
    assert_eq!(resolved_id(&eng, "script.py", None), "python");
}

#[test]
fn first_of_two_languages_claiming_an_extension_wins() {
    let eng = engine(vec![("c", vec![ext("h")]), ("cpp", vec![ext("h")])]);
    assert_eq!(resolved_id(&eng, "x.h", None), "c");
}

#[test]
fn explicit_request_is_looked_up_exactly() {
    let eng = engine(vec![("c-sharp", vec![ext("cs")])]);
    assert_eq!(resolved_id(&eng, "x.txt", Some("c-sharp")), "c-sharp");
    assert!(matches!(
        eng.resolve("x.cs", Some("c_sharp")),
        Err(GrammarError::UnknownLanguage(ref id)) if id == "c_sharp"
    ));
}

#[test]
fn ids_differing_in_dash_and_underscore_are_two_languages() {
    let eng = engine(vec![
        ("c-sharp", vec![ext("cs")]),
        ("rust", vec![ext("rs")]),
        ("c_sharp", vec![ext("csx")]),
    ]);
    assert_eq!(eng.available_ids(), vec!["c-sharp", "c_sharp", "rust"]);
    assert_eq!(resolved_id(&eng, "a.csx", None), "c_sharp");
    assert_eq!(resolved_id(&eng, "a.cs", None), "c-sharp");
}

#[test]
fn later_language_replaces_earlier_with_the_same_id() {
    let eng = engine(vec![("rust", vec![ext("rs")]), ("rust", vec![ext("rlib")])]);
    assert_eq!(eng.available_ids(), vec!["rust"]);
    assert_eq!(resolved_id(&eng, "a.rlib", None), "rust");
    assert!(eng.resolve("a.rs", None).is_err());
}

#[test]
fn path_without_extension_falls_back_to_globs() {
    let eng = engine(vec![("make", vec![glob("Makefile")]), ("rust", vec![ext("rs")])]);
    assert_eq!(resolved_id(&eng, "Makefile", None), "make");
}

#[test]
fn refusals_list_the_languages_on_offer() {
    let ids = vec!["go".to_string(), "rust".to_string()];
    assert_eq!(
        refusal_message(&GrammarError::UnknownLanguage("cobol".to_string()), &ids),
        "unknown language 'cobol'. Supported languages: [\"go\", \"rust\"]. Omit `language` to infer it from the file extension instead."
    );
    assert_eq!(
        refusal_message(&GrammarError::LanguageInference("/x/a.zz".to_string()), &ids),
        "could not infer a language for '/x/a.zz' (extension: Some(\"zz\")). Pass `language` explicitly. Supported languages: [\"go\", \"rust\"]."
    );
    assert_eq!(
        refusal_message(&GrammarError::LanguageInference("/x/Makefile".to_string()), &Vec::new()),
        "could not infer a language for '/x/Makefile' (extension: None). Pass `language` explicitly. Supported languages: []."
    );
    let other = GrammarError::GrammarNotLoaded("rust".to_string());
    assert_eq!(refusal_message(&other, &ids), other.message());
}
