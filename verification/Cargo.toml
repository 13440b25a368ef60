[package]
name = "warc_archiver"
version = "0.1.0"
edition = "2021"
publish = false

[dependencies]
anyhow = "*"
chrono = "=0.4.45"
flate2 = "=1.1.10"
rayon = "*"
reqwest = { version = "=0.13.5", default-features = false, features = ["json", "query"] }
serde = { version = "*", features = ["derive"] }
serde_json = "*"
tokio = { version = "*", features = ["rt", "rt-multi-thread", "sync", "fs", "time"] }
tracing = "*"
url = "*"
uuid = { version = "=1.27.0", features = ["v4"] }
