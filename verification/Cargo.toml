[package]
name = "codivex"
version = "0.1.0"
edition = "2021"
publish = false

[dependencies]
sha2 = "0.10"
tantivy = { version = "0.24", default-features = false, features = ["mmap"] }
lru = "0.18"
tree-sitter = "0.25"
tree-sitter-rust = "0.23"
tree-sitter-c = "0.23"
tree-sitter-cpp = "0.23"
tree-sitter-javascript = "0.23"
tree-sitter-typescript = "0.23"
tree-sitter-python = "0.23"
tree-sitter-go = "0.23"
tree-sitter-haskell = "0.23"
tree-sitter-java = "0.23"
tree-sitter-c-sharp = "0.23"
tree-sitter-php = "0.23"
tree-sitter-ruby = "0.23"
tree-sitter-kotlin-ng = "1.1"
tree-sitter-swift = "0.7"
serde = { version = "1", features = ["derive"] }
serde_json = "1"
anyhow = "1"
ignore = "0.4"
notify = "8"
tokio = { version = "1", features = ["rt-multi-thread", "sync", "time", "macros"] }
toml = { version = "0.8", default-features = false, features = ["parse"] }
