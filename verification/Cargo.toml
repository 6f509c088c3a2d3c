[package]
name = "anki_doltlite"
version = "0.1.0"
edition = "2021"
publish = false

[dependencies]
rusqlite = { version = "=0.41.1", features = ["bundled", "collation", "functions"] }
regex = "=1.13.1"
chrono = "=0.4.45"
rand = "=0.9.5"
serde_json = "=1.0.154"
serde = { version = "=1.0.229", features = ["derive"] }
anyhow = "=1.0.104"

[dev-dependencies]
tempfile = "=3.27.0"
