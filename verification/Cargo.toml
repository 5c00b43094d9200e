[package]
name = "watching_log_parser"
version = "0.1.0"
edition = "2021"
publish = false

[dependencies]
regex = "*"
chinese-number = "*"
chrono = "*"
xxhash-rust = { version = "*", features = ["xxh3"] }
rusqlite = { version = "*", features = ["bundled"] }
clap = { version = "*", features = ["derive"] }
serde = { version = "*", features = ["derive"] }
serde_yaml = "*"
dirs = "*"
