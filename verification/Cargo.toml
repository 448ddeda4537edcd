[package]
name = "mangle_query"
version = "0.1.0"
edition = "2021"
publish = false

[dependencies]
mangle-ast = "=0.9.2"
mangle-analysis = "=0.9.2"
mangle-parse = "=0.9.2"
wasm-bindgen = "=0.2.129"

[dev-dependencies]
serde_json = "=1.0.151"
