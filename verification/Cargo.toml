[package]
name = "chainsaw"
version = "0.1.0"
edition = "2021"
publish = false

[dependencies]
anyhow = "=1.0.104"
chrono = "=0.4.45"
fs2 = "=0.4.3"
regex = "=1.13.1"
rusqlite = { version = "=0.41.1", features = ["bundled"] }
serde_json = { version = "=1.0.154", features = ["raw_value"] }
sha1 = "=0.10.7"
