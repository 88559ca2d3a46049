[package]
name = "rspack_chunks"
version = "0.1.0"
edition = "2021"
publish = false

[dependencies]
itertools = "0.11"
serde_json = "1"
swc_core = { version = "*", default-features = false, features = ["ecma_ast", "ecma_visit", "common"] }
