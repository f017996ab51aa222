[package]
name = "kak-lsp"
version = "0.1.0"
edition = "2021"
publish = false

[dependencies]
ropey = "=1.6.1"
pulldown-cmark = { version = "=0.8.0", default-features = false }
diffs = "=0.5.1"
lsp-types = "=0.94.1"
serde = { version = "=1.0.229", features = ["derive"] }
serde_json = "=1.0.154"
regex = "=1.13.1"
unicode-width = "=0.1.14"
toml = "=0.8.23"
glob = "0.3"
