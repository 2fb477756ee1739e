[package]
name = "piranha"
version = "0.1.0"
edition = "2021"
publish = false

[dependencies]
tree-sitter = "0.20"
tree-sitter-java = "0.20"
serde = { version = "1", features = ["derive"] }
serde_derive = "1"
