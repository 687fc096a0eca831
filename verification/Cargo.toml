[package]
name = "agent_codemap"
version = "0.1.0"
edition = "2021"
publish = false

[dependencies]
anyhow = "=1.0.104"
clap = { version = "=4.6.7", features = ["derive"] }
ignore = "=0.4.33"
notify = "=8.2.0"
rayon = "=1.12.0"
serde = { version = "=1.0.229", features = ["derive"] }
serde_json = "=1.0.151"
streaming-iterator = "=0.1.9"
tree-sitter = "=0.27.0"
tree-sitter-c = "=0.24.2"
tree-sitter-c-sharp = "=0.23.5"
tree-sitter-cpp = "=0.23.4"
tree-sitter-go = "=0.25.0"
tree-sitter-java = "=0.23.5"
tree-sitter-javascript = "=0.25.0"
tree-sitter-kotlin-ng = "=1.1.0"
tree-sitter-language = "=0.1.8"
tree-sitter-md = "=0.5.3"
tree-sitter-objc = "=3.0.2"
tree-sitter-python = "=0.25.0"
tree-sitter-ruby = "=0.23.1"
tree-sitter-rust = "=0.24.2"
tree-sitter-swift = "=0.7.4"
tree-sitter-typescript = "=0.23.2"
