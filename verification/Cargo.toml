[package]
name = "bencher_adapter"
version = "0.1.0"
edition = "2021"
publish = false

[dependencies]
chrono = "0.4"
flate2 = "1"
rust_decimal = "1"
serde = { version = "1", features = ["derive"] }
serde_json = "1"
slug = "0.1"
uuid = { version = "1", features = ["v4"] }
