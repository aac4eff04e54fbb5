//! The errors of grammar handling, with the messages clients see.

use vstd::prelude::*;
use crate::extension::ConfigError;
use crate::text::{decimal, owned, push_decimal};

verus! {

/// The oldest grammar ABI version the parser accepts.
pub const MIN_COMPATIBLE_LANGUAGE_VERSION: usize = 13;

/// The newest grammar ABI version the parser accepts.
pub const LANGUAGE_VERSION: usize = 15;

/// Why a grammar library could not be loaded.
#[derive(Debug)]
pub enum LoadGrammarError {
    /// The id is not a language declared in the configuration.
    NotConfigured { id: String },
    /// No library file for the language in the grammar directory.
    LibraryNotFound { id: String, path: String },
    /// The shared library could not be opened: the loader's reason.
    Open(String),
    /// The constructor symbol is missing: the symbol, and the loader's reason.
    MissingSymbol(String, String),
    /// The grammar was generated for an ABI this parser does not accept.
    IncompatibleAbi { abi: usize },
}

/// A tree-sitter query that did not compile: where, and why.
#[derive(Debug)]
pub struct QueryFailure {
    pub row: usize,
    pub column: usize,
    pub offset: usize,
    pub message: String,
    pub kind: String,
}

/// Why a grammar operation failed.
#[derive(Debug)]
pub enum GrammarError {
    Config(ConfigError),
    /// The source file could not be read: its path, and the reason.
    SourceRead(String, String),
    InvalidGlob(String),
    UnknownLanguage(String),
    /// No configured language matches this path.
    LanguageInference(String),
    GrammarNotLoaded(String),
    LoadGrammar { path: String, source: LoadGrammarError },
    /// The parser refused the grammar: its reason.
    SetLanguage(String),
    ParseReturnedNoTree,
    Query(QueryFailure),
    ByteOutOfBounds { byte: usize, len: usize },
}

impl LoadGrammarError {
    /// The message shown for this error.
    pub open spec fn message_spec(&self) -> Seq<char> {
        match self {
            LoadGrammarError::NotConfigured { .. } => "The requested id isn't a language declared in config"@,
            LoadGrammarError::LibraryNotFound { path, .. } => "grammar library not found: "@ + path@,
            LoadGrammarError::Open(_) => "could not open shared library"@,
            LoadGrammarError::MissingSymbol(sym, _) => "constructor symbol `"@ + sym@ + "` not found"@,
            LoadGrammarError::IncompatibleAbi { abi } => "incompatible grammar ABI version "@
                + decimal(*abi as nat) + " (supported "@ + decimal(
                MIN_COMPATIBLE_LANGUAGE_VERSION as nat,
            ) + "..="@ + decimal(LANGUAGE_VERSION as nat) + ")"@,
        }
    }

    /// The message shown for this error.
    pub fn message(&self) -> (r: String)
        ensures
            r@ == self.message_spec(),
    {
        match self {
            LoadGrammarError::NotConfigured { .. } => owned(
                "The requested id isn't a language declared in config",
            ),
            LoadGrammarError::LibraryNotFound { path, .. } => {
                let mut r = owned("grammar library not found: ");
                r.append(path.as_str());
                r
            },
            LoadGrammarError::Open(_) => owned("could not open shared library"),
            LoadGrammarError::MissingSymbol(sym, _) => {
                let mut r = owned("constructor symbol `");
                r.append(sym.as_str());
                r.append("` not found");
                r
            },
            LoadGrammarError::IncompatibleAbi { abi } => {
                let mut r = owned("incompatible grammar ABI version ");
                push_decimal(&mut r, *abi);
                r.append(" (supported ");
                push_decimal(&mut r, MIN_COMPATIBLE_LANGUAGE_VERSION);
                r.append("..=");
                push_decimal(&mut r, LANGUAGE_VERSION);
                r.append(")");
                r
            },
        }
    }
}

impl GrammarError {
    /// The message shown for this error.
    pub open spec fn message_spec(&self) -> Seq<char> {
        match self {
            GrammarError::Config(e) => e.message_spec(),
            GrammarError::SourceRead(path, _) => "failed to read source file "@ + path@,
            GrammarError::InvalidGlob(_) => "invalid glob pattern"@,
            GrammarError::UnknownLanguage(id) => "unknown language "@ + id@,
            GrammarError::LanguageInference(path) => "could not infer language for "@ + path@,
            GrammarError::GrammarNotLoaded(id) => "grammar for language "@ + id@
                + " is not loaded"@,
            GrammarError::LoadGrammar { path, .. } => "failed to load grammar library `"@ + path@
                + "`"@,
            GrammarError::SetLanguage(_) => "failed to set tree-sitter language"@,
            GrammarError::ParseReturnedNoTree => "tree-sitter returned no parse tree"@,
            GrammarError::Query(_) => "query compile failed"@,
            GrammarError::ByteOutOfBounds { byte, len } => "byte offset "@ + decimal(*byte as nat)
                + " is past end of file ("@ + decimal(*len as nat) + " bytes)"@,
        }
    }

    /// The message shown for this error.
    pub fn message(&self) -> (r: String)
        ensures
            r@ == self.message_spec(),
    {
        match self {
            GrammarError::Config(e) => e.message(),
            GrammarError::SourceRead(path, _) => {
                let mut r = owned("failed to read source file ");
                r.append(path.as_str());
                r
            },
            GrammarError::InvalidGlob(_) => owned("invalid glob pattern"),
            GrammarError::UnknownLanguage(id) => {
                let mut r = owned("unknown language ");
                r.append(id.as_str());
                r
            },
            GrammarError::LanguageInference(path) => {
                let mut r = owned("could not infer language for ");
                r.append(path.as_str());
                r
            },
            GrammarError::GrammarNotLoaded(id) => {
                let mut r = owned("grammar for language ");
                r.append(id.as_str());
                r.append(" is not loaded");
                r
            },
            GrammarError::LoadGrammar { path, .. } => {
                let mut r = owned("failed to load grammar library `");
                r.append(path.as_str());
                r.append("`");
                r
            },
            GrammarError::SetLanguage(_) => owned("failed to set tree-sitter language"),
            GrammarError::ParseReturnedNoTree => owned("tree-sitter returned no parse tree"),
            GrammarError::Query(_) => owned("query compile failed"),
            GrammarError::ByteOutOfBounds { byte, len } => {
                let mut r = owned("byte offset ");
                push_decimal(&mut r, *byte);
                r.append(" is past end of file (");
                push_decimal(&mut r, *len);
                r.append(" bytes)");
                r
            },
        }
    }

    /// Whether the error lies in what the client asked for (a bad language,
    /// path, query or offset) rather than in the server.
    pub open spec fn is_invalid_params_spec(&self) -> bool {
        match self {
            GrammarError::UnknownLanguage(_) | GrammarError::LanguageInference(_)
            | GrammarError::SourceRead(_, _) | GrammarError::Query(_)
            | GrammarError::ByteOutOfBounds { .. } => true,
            _ => false,
        }
    }

    /// Whether the error lies in what the client asked for.
    pub fn is_invalid_params(&self) -> (r: bool)
        ensures
            r == self.is_invalid_params_spec(),
    {
        match self {
            GrammarError::UnknownLanguage(_) | GrammarError::LanguageInference(_)
            | GrammarError::SourceRead(_, _) | GrammarError::Query(_)
            | GrammarError::ByteOutOfBounds { .. } => true,
            _ => false,
        }
    }
}

} // verus!
