[package]
name = "kitsune2_transport_dtn"
version = "0.1.0"
edition = "2021"
publish = false

[dependencies]
bp7 = { version = "*", default-features = false }
bytes = "1"
kitsune2_api = "*"
reqwest = { version = "0.12", default-features = false }
tokio = { version = "1", features = ["fs", "io-util", "rt", "time"] }
tracing = "0.1"
urlencoding = "2"
