[package]
name = "scry"
version = "0.1.0"
edition = "2021"
publish = false

[dependencies]
anyhow = "*"
globset = "*"
ignore = "*"
petgraph = "*"
rayon = "*"
regex = "*"
serde = { version = "*", features = ["derive"] }
serde_json = "*"
toml = "*"
tree-sitter = "*"
tree-sitter-javascript = "*"
tree-sitter-python = "*"
tree-sitter-rust = "*"
tree-sitter-typescript = "*"
