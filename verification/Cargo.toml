[package]
name = "feather_flow"
version = "0.1.0"
edition = "2021"
publish = false

[dependencies]
sqlparser = "*"
sha2 = "*"
chrono = "*"
serde = { version = "*", features = ["derive"] }
serde_json = "*"
serde_yaml = "*"
walkdir = "*"
clap = { version = "*", features = ["derive"] }
colored = "*"
