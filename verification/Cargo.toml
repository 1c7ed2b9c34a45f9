[package]
name = "welds"
version = "0.1.0"
edition = "2021"
publish = false

[dependencies]
Inflector = "0.11"
serde = { version = "1", features = ["derive"] }
