[package]
name = "trust-list"
version = "0.1.0"
edition = "2021"
publish = false

[dependencies]
anyhow = "1"
chrono = { version = "0.4", features = ["serde"] }
clap = { version = "4", features = ["derive"] }
itertools = "0.14"
pbr = "1"
reqwest = { version = "0.12", features = ["blocking"] }
serde_json = "1"
