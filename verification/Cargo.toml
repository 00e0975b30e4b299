[package]
name = "diffst"
version = "0.1.0"
edition = "2021"
publish = false

[dependencies]
similar = { version = "=3.2.1", features = ["unicode"] }
serde = { version = "=1.0.229", features = ["derive"] }
serde_json = "=1.0.154"
wasm-minimal-protocol = "=0.2.1"
