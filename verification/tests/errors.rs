use tree_sitter_mcp::error::{GrammarError, LoadGrammarError};
use tree_sitter_mcp::extension::ConfigError;

#[test]
fn byte_out_of_bounds_error_displays_offsets() {
    let err = GrammarError::ByteOutOfBounds { byte: 42, len: 7 };

    assert_eq!(
        err.message(),
        "byte offset 42 is past end of file (7 bytes)"
    );
}

#[test]
fn load_errors_display() {
    assert_eq!(
        LoadGrammarError::IncompatibleAbi { abi: 12 }.message(),
        "incompatible grammar ABI version 12 (supported 13..=15)"
    );
    assert_eq!(
        LoadGrammarError::MissingSymbol("tree_sitter_rust".to_string(), "x".to_string()).message(),
        "constructor symbol `tree_sitter_rust` not found"
    );
    assert_eq!(
        LoadGrammarError::LibraryNotFound {
            id: "rust".to_string(),
            path: "/g/rust.so".to_string()
        }
        .message(),
        "grammar library not found: /g/rust.so"
    );
}

#[test]
fn grammar_errors_display() {
    assert_eq!(
        GrammarError::UnknownLanguage("cobol".to_string()).message(),
        "unknown language cobol"
    );
    assert_eq!(
        GrammarError::Config(ConfigError::EmptyExtensions("ruby".to_string())).message(),
        "empty extension array for language: ruby"
    );
    assert_eq!(
        ConfigError::MissingExtensionsTable.message(),
        "missing [extensions] table"
    );
}

#[test]
fn request_errors_are_invalid_params() {
    assert!(GrammarError::UnknownLanguage("x".to_string()).is_invalid_params());
    assert!(GrammarError::ByteOutOfBounds { byte: 1, len: 0 }.is_invalid_params());
    assert!(!GrammarError::ParseReturnedNoTree.is_invalid_params());
    assert!(!GrammarError::GrammarNotLoaded("x".to_string()).is_invalid_params());
}
