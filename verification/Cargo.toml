[package]
name = "pi_unitary"
version = "0.1.0"
edition = "2021"
publish = false

[dependencies]
blake3 = { version = "1", features = ["pure"] }
serde = { version = "1", features = ["derive"] }
serde_json = "1"
thiserror = "1"
wasm-bindgen = "0.2"
console_error_panic_hook = "0.1"
pollster = "0.3"
wgpu = "0.19"
