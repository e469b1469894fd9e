[package]
name = "fit"
version = "0.1.0"
edition = "2021"
publish = false

[dependencies]
chrono = { version = "0.4", default-features = false, features = ["std"] }
serde = { version = "1", features = ["derive"] }
thiserror = "1"
calamine = "0.22"
wasm-bindgen = "0.2"
serde-wasm-bindgen = "*"

[dev-dependencies]
serde_json = "1"
