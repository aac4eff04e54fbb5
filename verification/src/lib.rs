//! A verified core for a tree-sitter code-navigation server: language
//! configuration, language resolution, grammar bookkeeping, parse-tree
//! lookups and the text rendering shown to clients.

pub mod capabilities;
pub mod config;
pub mod engine;
pub mod error;
pub mod extension;
pub mod language;
pub mod loader;
pub mod order;
pub mod paths;
pub mod prompt;
pub mod session;
pub mod text;
pub mod ts;
