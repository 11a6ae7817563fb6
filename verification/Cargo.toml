[package]
name = "depsy_lsp"
version = "0.1.0"
edition = "2021"
publish = false

[dependencies]
async-trait = "0.1"
semver = "1"
tracing = "0.1"
