[package]
name = "mdbook_katex"
version = "0.1.0"
edition = "2021"
publish = false

[dependencies]
katex = "0.4"
serde_json = "1"
mdbook-preprocessor = "0.5"
