use tree_sitter_mcp::extension::{ext, glob, ExtensionEntry};
use tree_sitter_mcp::language::{LanguageEntry, LanguageId, LanguageSummary};

fn entry(id: &str, extensions: Vec<ExtensionEntry>) -> LanguageEntry {
    LanguageEntry::new(LanguageId::new_unchecked(id), extensions)
}

fn shown(lang: &LanguageEntry) -> Vec<String> {
    lang.extensions().iter().map(|e| e.display()).collect()
}

#[test]
fn matches_path_for_exact_filename_glob() {
    let lang = entry("toml", vec![glob("Cargo.lock")]);
    assert!(lang.matches_path("Cargo.lock"));
}

#[test]
fn exact_filename_glob_does_not_match_unrelated_path() {
    let lang = entry("toml", vec![glob("Cargo.lock")]);
    assert!(!lang.matches_path("main.rs"));
}

#[test]
fn wildcard_glob_matches_variant_filenames() {
    let lang = entry("dockerfile", vec![glob("Dockerfile.*")]);
    assert!(lang.matches_path("Dockerfile.prod"));
    assert!(lang.matches_path("Dockerfile.dev"));
    assert!(!lang.matches_path("Dockerfile"));
}

#[test]
fn subdirectory_glob_literal_separator() {
    let lang = entry("systemd", vec![glob("systemd/**/*.conf")]);
    assert!(lang.matches_path("systemd/system/my.service.conf"));
    assert!(!lang.matches_path("etc/systemd/my.conf"));
}

#[test]
fn brace_glob_matches_alternatives() {
    let lang = entry("jsonc", vec![glob("{t,j}sconfig.json")]);
    assert!(lang.matches_path("tsconfig.json"));
    assert!(lang.matches_path("jsconfig.json"));
    assert!(!lang.matches_path("tsconfig"));
}

#[test]
fn dotfile_glob_matches_hidden_file() {
    let lang = entry("env", vec![glob(".env"), glob(".env.*")]);
    assert!(lang.matches_path(".env"));
    assert!(lang.matches_path(".env.production"));
    assert!(!lang.matches_path("env"));
}

#[test]
fn ext_only_entry_does_not_match_path_via_glob() {
    let lang = entry("rust", vec![ext("rs"), ext("rsx")]);
    assert!(!lang.matches_path("main.rs"));
}

#[test]
fn matches_extension_picks_ext_entries_only() {
    let lang = entry("ruby", vec![ext("rb"), glob("Rakefile")]);
    assert!(lang.matches_extension("rb"));
    assert!(!lang.matches_extension("Rakefile"));
}

#[test]
fn glob_does_not_match_path_for_different_subdirectory() {
    let lang = entry("bash", vec![glob("bash-completion/completions/*")]);
    assert!(!lang.matches_path("other/completions/docker"));
    assert!(lang.matches_path("bash-completion/completions/docker"));
}

#[test]
fn display_formats_ext_and_glob() {
    let lang = entry("toml", vec![ext("toml"), glob("Cargo.lock"), glob("pdm.lock")]);
    let formatted = shown(&lang);
    assert_eq!(formatted, &[".toml", "{ Cargo.lock }", "{ pdm.lock }"]);
}

#[test]
fn display_formats_globs_only() {
    let lang = entry("gomod", vec![glob("go.mod")]);
    let formatted = shown(&lang);
    assert_eq!(formatted, &["{ go.mod }"]);
}

#[test]
fn display_line_shows_loaded_language() {
    let summary = LanguageSummary::new("rust", true, [".rs", ".rsx"]);
    assert_eq!(summary.display_line(), "rust: .rs, .rsx");
}

#[test]
fn display_line_shows_unloaded_language() {
    let summary = LanguageSummary::new("brainfuck", false, [".b", ".bf"]);
    assert_eq!(
        summary.display_line(),
        "brainfuck: .b, .bf (grammar not loaded)"
    );
}

#[test]
fn language_line_joins_entries() {
    let lang = entry("toml", vec![ext("toml"), glob("Cargo.lock")]);
    assert_eq!(lang.display_line(), "toml: .toml, { Cargo.lock }");
}

#[test]
fn summary_of_an_unloaded_language() {
    let lang = entry("toml", vec![ext("toml"), glob("Cargo.lock")]);
    let summary = LanguageSummary::from_language(&lang);
    assert_eq!(summary.id, "toml");
    assert!(!summary.loaded);
    assert_eq!(summary.extensions, vec![".toml", "{ Cargo.lock }"]);
    assert_eq!(
        summary.display_line(),
        "toml: .toml, { Cargo.lock } (grammar not loaded)"
    );
}

#[test]
fn glob_star_does_not_cross_a_separator() {
    let lang = entry("bash", vec![glob("bash-completion/completions/*")]);
    assert!(!lang.matches_path("bash-completion/completions/sub/docker"));
}

#[test]
fn unloaded_language_reports_grammar_not_loaded() {
    let lang = entry("rust", vec![ext("rs")]);
    assert!(matches!(
        lang.language(),
        Err(tree_sitter_mcp::error::GrammarError::GrammarNotLoaded(ref id)) if id == "rust"
    ));
}
