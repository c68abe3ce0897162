[package]
name = "taintflow"
version = "0.1.0"
edition = "2021"
publish = false

[dependencies]
serde = { version = "1", features = ["derive"] }
serde_json = "1"
serde_yaml = "0.9"
toml = "0.8"
rayon = "1"
tree-sitter = "0.20"
tree-sitter-python = "0.20"
