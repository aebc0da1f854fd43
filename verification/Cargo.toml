[package]
name = "tenk"
version = "0.1.0"
edition = "2021"
publish = false

[dependencies]
near-sdk = { version = "=5.29.1", default-features = false, features = ["unit-testing", "legacy"] }
near-contract-standards = "=5.29.1"
near-units = "=0.2.0"
serde = { version = "=1.0.229", features = ["derive"] }

[dev-dependencies]
rand = "=0.8.8"
rand_xorshift = "=0.3.0"
