[package]
name = "semdiff"
version = "0.1.0"
edition = "2021"
publish = false

[dependencies]
similar = "*"
serde_json = "*"
wasm-bindgen = "*"
console_error_panic_hook = "*"
