[package]
name = "dont_need_stability"
version = "0.1.0"
edition = "2021"
publish = false

[dependencies]
trust-dns-proto = { version = "0.22", default-features = false }
serde = { version = "1", features = ["derive"] }
toml = "0.8"
