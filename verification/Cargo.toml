[package]
name = "mergify-stack"
version = "0.1.0"
edition = "2021"
publish = false

[dependencies]
chrono = { version = "0.4", default-features = false, features = ["clock", "std"] }
regex = "1"
serde = { version = "1", features = ["derive"] }
serde_json = "1"
tempfile = "3"
terminal_size = "0.4"
tokio = { version = "1", features = ["rt", "rt-multi-thread", "time"] }
tracing = "0.1"
unicode-width = "0.2"
url = "2"
