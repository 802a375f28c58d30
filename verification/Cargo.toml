[package]
name = "serde_migrate"
version = "0.1.0"
edition = "2021"
publish = false

[dependencies]
proc-macro2 = "=1.0.107"
quote = "=1.0.47"
serde = "=1.0.229"
serde_json = { version = "=1.0.154", features = ["preserve_order"] }
syn = { version = "=2.0.119", features = ["full"] }
