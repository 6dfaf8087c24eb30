[package]
name = "block_reconcile"
version = "0.1.0"
edition = "2021"
publish = false

[dependencies]
anyhow = "=1.0.104"
hex = "=0.4.3"
json-structural-diff = { version = "=0.2.0", features = ["colorize"] }
serde_json = "=1.0.154"
