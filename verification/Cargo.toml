[package]
name = "sf_afmt"
version = "0.1.0"
edition = "2021"
publish = false

[dependencies]
tree-sitter = "*"
tree-sitter-sfapex = "*"
typed-arena = "*"
clap = "*"
serde = { version = "*", features = ["derive"] }
toml = "*"
rayon = "*"
