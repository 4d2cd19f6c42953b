[package]
name = "transactions_engine"
version = "0.1.0"
edition = "2021"
publish = false

[dependencies]
csv = "1"
rustc-hash = "2"
serde = { version = "1", features = ["derive"] }
