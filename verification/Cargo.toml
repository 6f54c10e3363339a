[package]
name = "vitri"
version = "0.1.0"
edition = "2021"
publish = false

[dependencies]
num-bigint = "0.4"
num-rational = "0.4"
num-traits = "0.2"
rustc-hash = "2"
serde = { version = "1", features = ["derive"] }
serde_json = "1"
