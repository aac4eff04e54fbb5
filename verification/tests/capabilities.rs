use tree_sitter_mcp::capabilities::{
    capabilities, edit_distance, language_status, suggest_near, LanguageInfo, LanguageStatus,
    ResolvedLanguage,
};
use tree_sitter_mcp::engine::{GrammarEngine, LoadRequest};
use tree_sitter_mcp::error::LoadGrammarError;
use tree_sitter_mcp::extension::{ext, glob, ConfigDocument, ExtensionMap, RawEntry};
use tree_sitter_mcp::language::{LanguageEntry, LanguageId};

fn ids(names: &[&str]) -> Vec<LanguageId> {
    names.iter().filter_map(|s| LanguageId::new(s).ok()).collect()
}

fn no_library(req: &LoadRequest) -> Result<tree_sitter::Language, LoadGrammarError> {
    Err(LoadGrammarError::LibraryNotFound {
        id: req.id.clone(),
        path: req.path.clone(),
    })
}

fn rust_grammar(_req: &LoadRequest) -> Result<tree_sitter::Language, LoadGrammarError> {
    Ok(tree_sitter_rust::LANGUAGE.into())
}

fn unloaded_engine() -> GrammarEngine {
    let doc = ConfigDocument {
        extensions: Some(vec![
            ("rust".to_string(), vec![RawEntry::Plain("rs".to_string())]),
            ("python".to_string(), vec![RawEntry::Plain("py".to_string())]),
        ]),
    };
    GrammarEngine::load(ExtensionMap::from_document(doc).unwrap(), "", "linux")
}

#[test]
fn suggest_near_ranks_close_matches() {
    let available = ids(&["rust", "python", "typescript"]);
    assert_eq!(
        suggest_near(&LanguageId::new("ruts").unwrap(), &available),
        vec!["rust"]
    );
}

#[test]
fn suggest_near_empty_when_far() {
    let available = ids(&["rust"]);
    assert!(suggest_near(&LanguageId::new("brainfuck").unwrap(), &available).is_empty());
}

#[test]
fn suggest_near_puts_nearer_names_first() {
    let available = ids(&["rusty", "rust", "ruby"]);
    assert_eq!(
        suggest_near(&LanguageId::new("rust").unwrap(), &available),
        vec!["rust", "rusty", "ruby"]
    );
}

#[test]
fn edit_distance_values() {
    assert_eq!(edit_distance("", ""), 0);
    assert_eq!(edit_distance("", "abc"), 3);
    assert_eq!(edit_distance("kitten", "sitting"), 3);
    assert_eq!(edit_distance("ruts", "rust"), 2);
    assert_eq!(edit_distance("rust", "rust"), 0);
    assert_eq!(edit_distance("flaw", "lawn"), 2);
    assert_eq!(edit_distance("lawn", "flaw"), 2);
}

#[test]
fn language_info_projects_from_language() {
    let language = LanguageEntry::loaded(
        LanguageId::new("rust").unwrap(),
        vec![ext("rs")],
        tree_sitter_rust::LANGUAGE.into(),
    );

    let info = LanguageInfo::from_language(&language);

    assert_eq!(info.name, "rust");
    assert_eq!(info.extensions, vec![".rs"]);
    assert!(info.capabilities.is_empty());
}

#[test]
fn status_of_unknown_language_carries_suggestions() {
    let mut engine = unloaded_engine();
    let available = ids(&["python", "rust"]);
    let st = language_status(&mut engine, &LanguageId::new("rsut").unwrap(), &available, &no_library);
    assert_eq!(
        st,
        LanguageStatus::NotConfigured {
            suggestions: vec!["rust".to_string()]
        }
    );
}

#[test]
fn status_of_language_whose_library_is_missing() {
    let mut engine = unloaded_engine();
    let available = ids(&["python", "rust"]);
    let st = language_status(&mut engine, &LanguageId::new("rust").unwrap(), &available, &no_library);
    assert_eq!(
        st,
        LanguageStatus::LoadFailed {
            language: "rust".to_string(),
            reason: "failed to load grammar library `rust.so`".to_string()
        }
    );
}

#[test]
fn status_of_language_that_loads() {
    let mut engine = unloaded_engine();
    let available = ids(&["python", "rust"]);
    let st = language_status(&mut engine, &LanguageId::new("rust").unwrap(), &available, &rust_grammar);
    match st {
        LanguageStatus::Loaded { info } => {
            assert_eq!(info.name, "rust");
            assert_eq!(info.extensions, vec![".rs"]);
        }
        other => panic!("unexpected status {other:?}"),
    }
    assert_eq!(engine.loaded_language_ids(), vec!["rust"]);
}

#[test]
fn empty_request_reports_every_configured_language() {
    let mut engine = unloaded_engine();
    let statuses = capabilities(&mut engine, &Vec::new(), &no_library);
    assert_eq!(statuses.len(), 2);
    assert!(matches!(&statuses[0], LanguageStatus::LoadFailed { language, .. } if language == "python"));
    assert!(matches!(&statuses[1], LanguageStatus::LoadFailed { language, .. } if language == "rust"));
}

#[test]
fn request_skips_empty_ids_and_reports_unknown_ones() {
    let mut engine = unloaded_engine();
    let asked = vec!["".to_string(), "pyhton".to_string(), "rust".to_string()];
    let statuses = capabilities(&mut engine, &asked, &rust_grammar);
    assert_eq!(statuses.len(), 2);
    assert_eq!(
        statuses[0],
        LanguageStatus::NotConfigured {
            suggestions: vec!["python".to_string()]
        }
    );
    assert!(matches!(&statuses[1], LanguageStatus::Loaded { info } if info.name == "rust"));
}

#[test]
fn glob_entries_are_shown_in_language_info() {
    let language = LanguageEntry::new(
        LanguageId::new("toml").unwrap(),
        vec![ext("toml"), glob("Cargo.lock")],
    );
    let info = LanguageInfo::from_language(&language);
    assert_eq!(info.extensions, vec![".toml", "{ Cargo.lock }"]);
}

#[test]
fn resolved_language_checks_the_id() {
    let none = ResolvedLanguage::from_params(&None).unwrap();
    assert!(none.as_ref().is_none());
    let some = ResolvedLanguage::from_params(&Some("rust".to_string())).unwrap();
    assert_eq!(some.as_ref().unwrap().as_str(), "rust");
    let err = ResolvedLanguage::from_params(&Some(String::new())).unwrap_err();
    assert_eq!(err, "invalid language id ``: unknown language ");
}
