[package]
name = "wasm_debug"
version = "0.1.0"
edition = "2021"
publish = false

[dependencies]
anyhow = "=1.0.104"
faerie = "=0.16.0"
gimli = "=0.34.0"
target-lexicon = "=0.11.2"
