[package]
name = "cargo_registry"
version = "0.1.0"
edition = "2021"
publish = false

[dependencies]
flate2 = "1"
tar = "0.4"
hex = "0.4"
openssl = "0.10"
license-exprs = "*"
git2 = "*"
serde = { version = "1", features = ["derive"] }
serde_json = "1"
