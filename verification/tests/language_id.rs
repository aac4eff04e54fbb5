use tree_sitter_mcp::error::GrammarError;
use tree_sitter_mcp::language::{dylib_extension, LanguageId};

#[test]
fn constructor_symbol_maps_dashes_to_underscores() {
    let cases = [
        ("rust", "tree_sitter_rust"),
        ("c-sharp", "tree_sitter_c_sharp"),
        ("markdown_inline", "tree_sitter_markdown_inline"),
    ];
    for (input, expected) in cases {
        assert_eq!(LanguageId::new_unchecked(input).constructor_symbol(), expected);
    }
}

#[test]
fn library_filename_bears_id() {
    for input in ["rust", "c-sharp"] {
        let id = LanguageId::new_unchecked(input);
        let name = id.library_filename(dylib_extension("linux"));
        assert!(name.starts_with(input));
        assert_eq!(name, format!("{input}.{}", dylib_extension("linux")));
    }
}

#[test]
fn library_filename_keeps_dashes() {
    assert_eq!(LanguageId::new("c-sharp").unwrap().library_filename("so"), "c-sharp.so");
}

#[test]
fn library_extension_follows_the_target_os() {
    assert_eq!(dylib_extension("macos"), "dylib");
    assert_eq!(dylib_extension("windows"), "dll");
    assert_eq!(dylib_extension("linux"), "so");
    assert_eq!(dylib_extension("freebsd"), "so");
    assert_eq!(LanguageId::new("rust").unwrap().library_filename(dylib_extension("macos")), "rust.dylib");
    assert_eq!(LanguageId::new("rust").unwrap().library_filename(dylib_extension("windows")), "rust.dll");
}

#[test]
fn empty_language_id_is_refused() {
    let err = LanguageId::new("").unwrap_err();
    assert!(matches!(err, GrammarError::UnknownLanguage(ref s) if s.is_empty()));
}

#[test]
fn language_id_keeps_its_spelling() {
    let id = LanguageId::new("c-sharp").unwrap();
    assert_eq!(id.as_str(), "c-sharp");
    assert_eq!(id.to_string(), "c-sharp");
}

