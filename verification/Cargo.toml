[package]
name = "gd"
version = "0.1.0"
edition = "2021"
publish = false

[dependencies]
miette = "=7.6.0"
serde = { version = "=1.0.229", features = ["derive"] }
tree-sitter = "=0.25.10"
tree-sitter-gdscript = "*"
