[package]
name = "veil_lsp"
version = "0.1.0"
edition = "2021"
publish = false

[dependencies]
serde_json = "=1.0.154"
codespan = "=0.11.1"
codespan-reporting = "=0.11.1"
