[package]
name = "spektro_core"
version = "0.1.0"
edition = "2021"
publish = false

[dependencies]
chrono = "0.4"
serde = { version = "1", features = ["derive"] }
serde_json = "1"
toml = "0.8"
anyhow = "1"
walkdir = "2"
blake3 = "1"
sequitur = "*"
clap = { version = "4", features = ["derive"] }
