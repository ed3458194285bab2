[package]
name = "strecklistan"
version = "0.1.0"
edition = "2021"
publish = false

[dependencies]
csv = "1"
itertools = "0.14"
serde = { version = "1", features = ["derive"] }
chrono = { version = "0.4", features = ["serde"] }
rocket = "0.5"
