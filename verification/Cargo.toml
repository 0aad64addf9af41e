[package]
name = "bw_engine"
version = "0.1.0"
edition = "2021"
publish = false

[dependencies]
encoding_rs = "=0.8.44"
thiserror = "=2.0.21"
wasm-bindgen = "=0.2.130"
serde = { version = "1", features = ["derive"] }
