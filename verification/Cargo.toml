[package]
name = "tree-sitter-mcp"
version = "0.1.0"
edition = "2021"
publish = false

[dependencies]
anyhow = "1"
dlopen2 = "*"
etcetera = "*"
globset = "*"
rmcp = { version = "*", features = ["server", "transport-io", "macros"] }
schemars = "*"
serde = { version = "1", features = ["derive"] }
serde_json = "1"
thiserror = "*"
tokio = { version = "1", features = ["macros", "rt-multi-thread", "io-std"] }
toml = "*"
tracing = "0.1"
tree-sitter = "*"

[dev-dependencies]
tree-sitter-rust = "*"
