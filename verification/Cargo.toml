[package]
name = "policy_canon"
version = "0.1.0"
edition = "2021"
publish = false

[dependencies]
anyhow = "1"
clap = { version = "4", features = ["derive"] }
indexmap = "2"
serde = "1"
serde_json = { version = "=1.0.151", features = ["preserve_order", "float_roundtrip"] }
xml-rs = "0.8"
yaserde = "=0.12.0"
yaserde_derive = "=0.12.0"
