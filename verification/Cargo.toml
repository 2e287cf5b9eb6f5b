[package]
name = "kak_tree_sitter"
version = "0.1.0"
edition = "2021"
publish = false

[dependencies]
tree-sitter = "0.20"
tree-sitter-rust = "0.20"
clap = { version = "4", features = ["derive"] }
daemonize = "0.5"
