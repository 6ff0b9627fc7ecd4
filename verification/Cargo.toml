[package]
name = "reina_backup"
version = "0.1.0"
edition = "2021"
publish = false

[dependencies]
sevenz-rust = "*"
chrono = "*"

[dev-dependencies]
serde_json = "*"
