[package]
name = "agentero"
version = "0.1.0"
edition = "2021"
publish = false

[dependencies]
urlencoding = "2"
serde = { version = "1", features = ["derive"] }
serde_json = "1"
which = "6"
tokio = { version = "1", features = ["process", "time", "rt", "macros"] }
