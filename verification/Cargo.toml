[package]
name = "jabar"
version = "0.1.0"
edition = "2021"
publish = false

[dependencies]
anyhow = "1"
camino = "1"
crossbeam-channel = "0.5"
indexmap = "2"
lsp-server = "*"
lsp-types = "0.95"
notify = "*"
notify-debouncer-full = "*"
protobuf = "3"
rmp-serde = "1"
rustc-hash = "2"
salsa = "*"
scip = "*"
serde = { version = "1", features = ["derive"] }
serde_json = "1"
tracing = "0.1"
tracing-subscriber = { version = "0.3", features = ["env-filter"] }
tree-sitter = "*"
tree-sitter-java = "*"
