[package]
name = "bw_build_overlay"
version = "1.0.0"
edition = "2021"
publish = false

[dependencies]
regex = "1"
url = "2"
chrono = { version = "0.4", default-features = false, features = ["clock", "std"] }
serde = { version = "1", features = ["derive"] }
serde_json = "1"
thiserror = "1"
tokio = { version = "1", features = ["fs", "time", "rt", "macros"] }
reqwest = { version = "0.12", default-features = false, features = ["gzip", "rustls-tls"] }
log = "0.4"
