[package]
name = "trackme"
version = "0.1.0"
edition = "2021"
publish = false

[dependencies]
regex = "*"
serde = { version = "*", features = ["derive"] }
serde_json = "*"
rusqlite = { version = "*", features = ["bundled"] }
chrono = "*"
anyhow = "*"
dirs = "*"
tokio = { version = "*", features = ["rt-multi-thread", "macros", "time", "sync"] }
arc-swap = "*"
async-trait = "*"
csv = "*"
