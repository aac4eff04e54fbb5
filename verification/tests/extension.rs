use tree_sitter_mcp::extension::{
    glob_entry, is_valid_plain_ext, ConfigDocument, ConfigError, ExtensionEntry, ExtensionMap,
    RawEntry,
};

fn plain(s: &str) -> RawEntry {
    RawEntry::Plain(s.to_string())
}

fn globbed(s: &str) -> RawEntry {
    RawEntry::Glob(s.to_string())
}

fn table(entries: Vec<(&str, Vec<RawEntry>)>) -> ConfigDocument {
    ConfigDocument {
        extensions: Some(
            entries
                .into_iter()
                .map(|(k, v)| (k.to_string(), v))
                .collect(),
        ),
    }
}

#[test]
fn rejects_empty_extension_array() {
    let result = ExtensionMap::from_document(table(vec![("ruby", vec![])]));
    assert!(matches!(
        result,
        Err(ConfigError::EmptyExtensions(ref lang)) if lang == "ruby"
    ));
}

#[test]
fn extension_rejects_empty_extension_array() {
    let result = ExtensionMap::from_document(table(vec![("ruby", vec![])]));
    assert!(matches!(
        result,
        Err(ConfigError::EmptyExtensions(ref lang)) if lang == "ruby"
    ));
}

#[test]
fn rejects_missing_extensions_table() {
    let result = ExtensionMap::from_document(ConfigDocument { extensions: None });
    assert!(matches!(result, Err(ConfigError::MissingExtensionsTable)));
}

#[test]
fn rejects_invalid_glob_pattern() {
    let result = ExtensionMap::from_document(table(vec![("x", vec![globbed("[")])]));
    assert!(result.is_err());
}

#[test]
fn extension_rejects_invalid_glob_pattern() {
    let result = ExtensionMap::from_document(table(vec![("x", vec![globbed("[")])]));
    assert!(matches!(
        result,
        Err(ConfigError::Parse(ref m)) if !m.is_empty()
    ));
}

#[test]
fn rejects_path_separator_in_ext() {
    let result = ExtensionMap::from_document(table(vec![("x", vec![plain("a/b")])]));
    assert!(result.is_err());
}

#[test]
fn rejects_glob_chars_in_ext() {
    let result = ExtensionMap::from_document(table(vec![("x", vec![plain("*.rs")])]));
    assert!(result.is_err());
}

#[test]
fn rejects_empty_ext_string() {
    let result = ExtensionMap::from_document(table(vec![("x", vec![plain("")])]));
    assert!(result.is_err());
}

#[test]
fn rejects_plain_ext() {
    for bad in ["a/b", "*.rs", "?", "[", ""] {
        let result = ExtensionMap::from_document(table(vec![("x", vec![plain(bad)])]));
        assert!(
            matches!(result, Err(ConfigError::Parse(ref m)) if m == "Invalid plain extension string"),
            "{bad:?} should be refused"
        );
    }
}

#[test]
fn parses_valid_ext_and_glob_entries() {
    let map = ExtensionMap::from_document(table(vec![
        ("rust", vec![plain("rs"), plain("rsx")]),
        ("python", vec![globbed("*.py")]),
    ]))
    .unwrap();
    assert_eq!(map.len(), 2);
    assert!(!map.is_empty());
}

#[test]
fn yields_correct_items_via_into_iter() {
    let map = ExtensionMap::from_document(table(vec![
        ("rust", vec![plain("rs")]),
        ("python", vec![globbed("*.py")]),
    ]))
    .unwrap();
    let mut pairs = map.into_pairs();
    pairs.sort_by(|a, b| a.0.cmp(&b.0));

    assert_eq!(pairs.len(), 2);

    assert_eq!(pairs[0].0, "python");
    assert_eq!(pairs[0].1.len(), 1);
    assert!(matches!(pairs[0].1[0], ExtensionEntry::Glob { ref glob } if glob == "*.py"));

    assert_eq!(pairs[1].0, "rust");
    assert_eq!(pairs[1].1.len(), 1);
    assert!(matches!(pairs[1].1[0], ExtensionEntry::Ext(ref s) if s == "rs"));
}

#[test]
fn parses_iterates_and_measures() {
    let map = ExtensionMap::from_document(table(vec![
        ("rust", vec![plain("rs"), plain("rsx")]),
        ("python", vec![globbed("*.py")]),
    ]))
    .unwrap();
    assert_eq!(map.len(), 2);
    assert!(!map.is_empty());

    let mut pairs = map.into_pairs();
    pairs.sort_by(|a, b| a.0.cmp(&b.0));

    assert_eq!(pairs[0].0, "python");
    assert_eq!(pairs[0].1.len(), 1);
    assert!(matches!(pairs[0].1[0], ExtensionEntry::Glob { ref glob } if glob == "*.py"));

    assert_eq!(pairs[1].0, "rust");
    assert_eq!(pairs[1].1.len(), 2);
    assert!(matches!(pairs[1].1[0], ExtensionEntry::Ext(ref s) if s == "rs"));
    assert!(matches!(pairs[1].1[1], ExtensionEntry::Ext(ref s) if s == "rsx"));
}

#[test]
fn len_and_is_empty() {
    let map = ExtensionMap::from_document(table(vec![("rust", vec![plain("rs")])])).unwrap();
    assert_eq!(map.len(), 1);
    assert!(!map.is_empty());

    let empty = ExtensionMap::new();
    assert_eq!(empty.len(), 0);
    assert!(empty.is_empty());
}

#[test]
fn get_gives_back_the_entries_of_a_language() {
    let map = ExtensionMap::from_document(table(vec![
        ("rust", vec![plain("rs"), plain("rsx")]),
        ("python", vec![globbed("*.py")]),
    ]))
    .unwrap();
    let rust = map.get("rust").expect("rust is configured");
    assert_eq!(rust.len(), 2);
    assert!(matches!(rust[1], ExtensionEntry::Ext(ref s) if s == "rsx"));
    assert!(map.get("ruby").is_none());
}

#[test]
fn invalid_value_is_reported_before_an_empty_array() {
    let result = ExtensionMap::from_document(table(vec![
        ("ruby", vec![]),
        ("x", vec![plain("a/b")]),
    ]));
    assert!(matches!(result, Err(ConfigError::Parse(_))));
}

#[test]
fn plain_extension_rules() {
    assert!(is_valid_plain_ext("rs"));
    assert!(is_valid_plain_ext("tar.gz"));
    assert!(!is_valid_plain_ext(""));
    assert!(!is_valid_plain_ext("a/b"));
    assert!(!is_valid_plain_ext("r?"));
}

#[test]
fn glob_entry_reports_only_bad_patterns() {
    assert!(matches!(glob_entry("*.py"), Ok(ExtensionEntry::Glob { ref glob }) if glob == "*.py"));
    assert!(glob_entry("{t,j}sconfig.json").is_ok());
    assert!(glob_entry("[").is_err());
}

#[test]
fn entries_display_like_the_listing() {
    assert_eq!(tree_sitter_mcp::extension::ext("rs").display(), ".rs");
    assert_eq!(tree_sitter_mcp::extension::glob("go.mod").display(), "{ go.mod }");
}
