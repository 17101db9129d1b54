[package]
name = "file_toolkit"
version = "0.1.0"
edition = "2021"
publish = false

[dependencies]
base64 = "0.22"
chrono = "0.4"
env_logger = "*"
lazy_static = "1"
log = "0.4"
memmap2 = "0.9"
rayon = "1"
serde = { version = "1", features = ["derive"] }
tokio = { version = "1", features = ["rt"] }
walkdir = "2"
xxhash-rust = { version = "0.8", features = ["xxh3"] }
