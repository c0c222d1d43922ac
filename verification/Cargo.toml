[package]
name = "bts_map"
version = "0.1.0"
edition = "2021"
publish = false

[dependencies]
tree-sitter = "=0.24.6"
tree-sitter-rust = "=0.23.2"
tree-sitter-python = "=0.23.6"
tree-sitter-typescript = "=0.23.2"
tree-sitter-javascript = "=0.23.1"
tree-sitter-go = "=0.23.4"
tree-sitter-java = "=0.23.5"
tree-sitter-ruby = "=0.23.1"
tree-sitter-c = "=0.23.4"
tree-sitter-cpp = "=0.23.4"
npezza93-tree-sitter-swift = "=0.4.4"
streaming-iterator = "0.1"
petgraph = "0.6"
tiktoken-rs = "0.5"
serde = { version = "1", features = ["derive"] }
serde_json = "1"
clap = { version = "4", features = ["derive"] }
walkdir = "2"
anyhow = "1"
thiserror = "1"
