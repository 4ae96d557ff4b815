[package]
name = "dictum"
version = "0.1.0"
edition = "2021"
publish = false

[dependencies]
atty = "*"
chrono = "*"
clap = { version = "*", features = ["derive"] }
rusqlite = { version = "*", features = ["bundled"] }
serde = { version = "*", features = ["derive"] }
serde_json = "*"
sha2 = "*"
thiserror = "*"
toml = "*"
