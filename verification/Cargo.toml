[package]
name = "dirhamly"
version = "0.1.0"
edition = "2021"
publish = false

[dependencies]
rust_decimal = "1"
rust_decimal_macros = "1"
chrono = "0.4"
rusqlite = { version = "*", features = ["bundled"] }
clap = { version = "4", features = ["derive"] }
anyhow = "1"
serde = { version = "1", features = ["derive"] }
serde_json = "1"
num-traits = "0.2"
