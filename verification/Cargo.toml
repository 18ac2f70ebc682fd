[package]
name = "symbol_experiments"
version = "0.1.0"
edition = "2021"
publish = false

[dependencies]
anyhow = "1"
bincode = "1"
clap = { version = "4", features = ["derive"] }
flate2 = "1"
fuzzy-matcher = "0.3"
lsp-server = "*"
lsp-types = "*"
rayon = "1"
serde = { version = "1", features = ["derive"] }
serde_json = "1"
tokio = { version = "1", features = ["rt-multi-thread"] }
tree-sitter = "*"
tree-sitter-python = "*"
url = "2"
walkdir = "2"
