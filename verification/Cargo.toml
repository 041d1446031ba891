[package]
name = "andamento"
version = "0.1.0"
edition = "2021"
publish = false

[dependencies]
unicode-width = "0.2"
ansi_term = "0.12"
serde = { version = "1", features = ["derive"] }
serde_json = "1"
