[package]
name = "exifinf-rs"
version = "0.1.0"
edition = "2021"
publish = false

[dependencies]
flate2 = "1"
serde = { version = "1", features = ["derive"] }
serde_json = "1"
serde-wasm-bindgen = "0.6"
wasm-bindgen = "0.2"
