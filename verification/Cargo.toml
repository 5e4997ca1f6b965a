[package]
name = "laibrary"
version = "0.1.0"
edition = "2021"
publish = false

[dependencies]
thiserror = "2"
toml = "0.8"
tree-sitter = "0.24"
tree-sitter-rust = "0.23"
walkdir = "2"

[dev-dependencies]
tempfile = "3"
