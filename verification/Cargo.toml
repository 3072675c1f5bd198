[package]
name = "archflow"
version = "0.1.0"
edition = "2021"
publish = false

[dependencies]
serde = { version = "1", features = ["derive"] }
serde_json = "1"
thiserror = "2"
clap = { version = "4", features = ["derive"] }
wasm-bindgen = "0.2"
console_error_panic_hook = "0.1"
pyo3 = "*"
